//! Incremental edit descriptors and their ordered application to a buffer.
//!
//! Each descriptor either replaces a range or the whole document. A batch
//! applies strictly in list order, and each descriptor's range is resolved
//! against the text as already changed by the earlier descriptors of the
//! same batch, never against the pre-batch text.

use vstd::prelude::*;
use crate::buffer::Buffer;
use crate::protocol::Range;
use crate::unicode::{Encoding, byte_length, prefix_bytes, lemma_prefix_units_mono};
use crate::lines::resolved_idx;

verus! {

/// One protocol-delivered change: replace a range, or the whole document.
pub enum Edit {
    Ranged { range: Range, text: Buffer },
    Full { text: Buffer },
}

impl Edit {
    /// An edit replacing `range` with `text`.
    pub fn ranged(range: Range, text: &str) -> (r: Edit)
        ensures
            r matches (Edit::Ranged { range: rr, text: t }) && rr == range && t@ == text@,
    {
        Edit::Ranged { range, text: Buffer::from_str(text) }
    }

    /// An edit replacing the whole document with `text`.
    pub fn full(text: &str) -> (r: Edit)
        ensures
            r matches (Edit::Full { text: t }) && t@ == text@,
    {
        Edit::Full { text: Buffer::from_str(text) }
    }
}

/// The replacement leaves a text whose byte length still fits the machine.
pub open spec fn edit_fits(s: Seq<char>, i1: int, i2: int, t: Seq<char>) -> bool {
    byte_length(s) - prefix_bytes(s, i2) + prefix_bytes(s, i1) + byte_length(t) <= usize::MAX
}

/// The text after one edit. A ranged edit resolves both ends against `s`
/// (with the usual clamping) and replaces the scalar values between them;
/// it leaves `s` unchanged when the resolved ends are reversed or the result
/// would not fit the machine. A full edit replaces everything.
pub open spec fn apply_edit_spec(enc: Encoding, s: Seq<char>, e: Edit) -> Seq<char> {
    match e {
        Edit::Full { text } => text@,
        Edit::Ranged { range, text } => {
            let i1 = resolved_idx(enc, s, range.start.line as int, range.start.character as int);
            let i2 = resolved_idx(enc, s, range.end.line as int, range.end.character as int);
            if i1 <= i2 && edit_fits(s, i1, i2, text@) {
                s.take(i1) + text@ + s.skip(i2)
            } else {
                s
            }
        },
    }
}

/// The text after a whole batch, applied strictly in list order.
pub open spec fn apply_edits_spec(enc: Encoding, s: Seq<char>, edits: Seq<Edit>) -> Seq<char>
    decreases edits.len(),
{
    if edits.len() == 0 {
        s
    } else {
        apply_edits_spec(enc, apply_edit_spec(enc, s, edits[0]), edits.drop_first())
    }
}

impl Buffer {
    /// Applies one edit to this text.
    pub fn apply_edit(&mut self, enc: Encoding, e: &Edit)
        ensures
            final(self)@ == apply_edit_spec(enc, old(self)@, *e),
    {
        match e {
            Edit::Full { text } => {
                *self = text.snapshot();
            },
            Edit::Ranged { range, text } => {
                let (i1, b1) = self.resolve_position(enc, range.start);
                let (i2, b2) = self.resolve_position(enc, range.end);
                if i1 <= i2 {
                    proof {
                        lemma_prefix_units_mono(Encoding::Utf8, self@, i1 as int, i2 as int);
                        lemma_prefix_units_mono(Encoding::Utf8, self@, i2 as int, self@.len() as int);
                    }
                    let total: usize = self.len();
                    let kept: usize = total - (b2 - b1);
                    if kept.checked_add(text.len()).is_some() {
                        self.splice(i1, i2, text);
                    }
                }
            },
        }
    }

    /// Applies a batch of edits strictly in list order, each one resolved
    /// against the text as changed by the ones before it.
    pub fn apply_edits(&mut self, enc: Encoding, edits: &Vec<Edit>)
        ensures
            final(self)@ == apply_edits_spec(enc, old(self)@, edits@),
    {
        let n: usize = edits.len();
        let mut k: usize = 0;
        proof {
            assert(edits@.skip(0) =~= edits@);
        }
        while k < n
            invariant
                k <= n == edits@.len(),
                apply_edits_spec(enc, old(self)@, edits@) == apply_edits_spec(
                    enc,
                    self@,
                    edits@.skip(k as int),
                ),
            decreases n - k,
        {
            proof {
                assert(edits@.skip(k as int)[0] == edits@[k as int]);
                assert(edits@.skip(k as int).drop_first() =~= edits@.skip(k as int + 1));
            }
            self.apply_edit(enc, &edits[k]);
            k = k + 1;
        }
    }
}

/// Applying an empty edit batch leaves the content identical.
pub proof fn lemma_apply_empty(enc: Encoding, s: Seq<char>)
    ensures
        apply_edits_spec(enc, s, Seq::<Edit>::empty()) == s,
{
}

/// A batch of two edits is the second applied to the result of the first:
/// the second edit's range is read against the text after the first edit,
/// never against the original. Swapping the edits composes the other way
/// round, which in general yields a different text.
pub proof fn lemma_apply_pair(enc: Encoding, s: Seq<char>, a: Edit, b: Edit)
    ensures
        apply_edits_spec(enc, s, seq![a, b]) == apply_edit_spec(enc, apply_edit_spec(enc, s, a), b),
{
    let s1 = apply_edit_spec(enc, s, a);
    let s2 = apply_edit_spec(enc, s1, b);
    assert(seq![a, b][0] == a);
    assert(seq![b][0] == b);
    assert(seq![a, b].drop_first() =~= seq![b]);
    assert(apply_edits_spec(enc, s, seq![a, b]) == apply_edits_spec(enc, s1, seq![b]));
    assert(seq![b].drop_first() =~= Seq::<Edit>::empty());
    assert(apply_edits_spec(enc, s1, seq![b]) == apply_edits_spec(enc, s2, Seq::<Edit>::empty()));
    assert(apply_edits_spec(enc, s2, Seq::<Edit>::empty()) == s2);
}

} // verus!
