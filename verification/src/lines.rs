//! Line structure of a text: line starts, line terminators (`"\n"` or
//! `"\r\n"`), and the resolution of a line/code-unit position to a scalar
//! index, with the clamping rules for out-of-range coordinates.

use vstd::prelude::*;
use crate::unicode::{Encoding, char_units, prefix_units, range_units, prefix_bytes, byte_length};
use crate::unicode::{lemma_char_units_bounds, lemma_prefix_units_mono};

verus! {

/// Index of the first `'\n'` at or after `i`, or the length of `s` when
/// there is none.
pub open spec fn next_nl(s: Seq<char>, i: int) -> int
    recommends
        0 <= i <= s.len(),
    decreases s.len() - i,
{
    if i < 0 || i >= s.len() {
        s.len() as int
    } else if s[i] == '\n' {
        i
    } else {
        next_nl(s, i + 1)
    }
}

/// Scalar index reached from `i` after skipping `k` line feeds; the length
/// of `s` when fewer than `k` remain. Skipping `line` line feeds from the
/// start of the text lands on the first scalar of line number `line`.
pub open spec fn line_start_from(s: Seq<char>, i: int, k: int) -> int
    recommends
        0 <= i <= s.len(),
    decreases s.len() - i,
{
    if k <= 0 || i < 0 || i >= s.len() {
        i
    } else {
        line_start_from(s, i + 1, k - (if s[i] == '\n' { 1int } else { 0int }))
    }
}

/// Scalar index of the start of line `line` (clamped to the end of the text
/// when the line does not exist).
pub open spec fn line_start(s: Seq<char>, line: int) -> int {
    line_start_from(s, 0, line)
}

/// End of the content of the line starting at `ls`, exclusive of its
/// terminator: the position of the next `'\n'`, minus one when that line
/// feed is preceded, within the line, by `'\r'`. A final line has no
/// terminator, so a trailing `'\r'` there is content.
pub open spec fn content_end_at(s: Seq<char>, ls: int) -> int {
    let e = next_nl(s, ls);
    if e < s.len() && ls < e && s[e - 1] == '\r' {
        e - 1
    } else {
        e
    }
}

/// End of the content of line `line`, exclusive of its terminator.
pub open spec fn line_content_end(s: Seq<char>, line: int) -> int {
    content_end_at(s, line_start(s, line))
}

/// Number of `'\n'` among the first `i` scalar values of `s`.
pub open spec fn prefix_nls(s: Seq<char>, i: int) -> int
    recommends
        i <= s.len(),
    decreases i,
{
    if i <= 0 {
        0
    } else {
        prefix_nls(s, i - 1) + (if s[i - 1] == '\n' { 1int } else { 0int })
    }
}

/// Index of the last line of `s`: a text has one line more than it has line
/// feeds, and a final line feed opens an implicit empty last line.
pub open spec fn last_line(s: Seq<char>) -> int {
    prefix_nls(s, s.len() as int)
}

/// Scalar index reached from `i` by consuming `target` code units, whole
/// scalar values at a time, stopping at `end`: while any of the target
/// remains, the next scalar is consumed entirely, so a target that falls
/// strictly inside a multi-unit scalar (between the halves of a surrogate
/// pair) resolves past it, never splitting it.
pub open spec fn consume(enc: Encoding, s: Seq<char>, i: int, end: int, target: int) -> int
    recommends
        0 <= i <= end <= s.len(),
    decreases end - i,
{
    if target <= 0 || i < 0 || i >= end {
        i
    } else {
        consume(enc, s, i + 1, end, target - char_units(enc, s[i]))
    }
}

/// Scalar index a position resolves to: the start of its line, advanced by
/// its `character` code units, clamped to the line's content (exclusive of
/// the terminator); a line past the end of the text resolves to the end of
/// the text.
pub open spec fn resolved_idx(enc: Encoding, s: Seq<char>, line: int, character: int) -> int {
    consume(enc, s, line_start(s, line), line_content_end(s, line), character)
}

/// Byte offset a position maps to: the UTF-8 length of everything before
/// the scalar value it resolves to.
pub open spec fn position_offset(enc: Encoding, s: Seq<char>, line: int, character: int) -> int {
    prefix_bytes(s, resolved_idx(enc, s, line, character))
}

/// The `character` value of the end of the whole text: the code units of the
/// content of the last line (zero when the text ends in a line terminator).
pub open spec fn full_end_character(enc: Encoding, s: Seq<char>) -> int {
    range_units(enc, s, line_start(s, last_line(s)), s.len() as int)
}

/// Largest scalar index whose byte prefix is at most `off`, scanning from
/// `i`: byte offsets that do not lie on a scalar boundary are snapped down.
pub open spec fn floor_from(s: Seq<char>, i: int, off: int) -> int
    recommends
        0 <= i <= s.len(),
    decreases s.len() - i,
{
    if i < 0 || i >= s.len() || prefix_bytes(s, i + 1) > off {
        i
    } else {
        floor_from(s, i + 1, off)
    }
}

/// Line number of the scalar value at (or boundary snapped down from) byte
/// offset `off`.
pub open spec fn offset_line(s: Seq<char>, off: int) -> int {
    prefix_nls(s, floor_from(s, 0, off))
}

/// Code units from the start of its line to the scalar value at (or boundary
/// snapped down from) byte offset `off`.
pub open spec fn offset_character(enc: Encoding, s: Seq<char>, off: int) -> int {
    let j = floor_from(s, 0, off);
    range_units(enc, s, line_start(s, prefix_nls(s, j)), j)
}

/// `next_nl` stays within bounds, finds no earlier `'\n'`, and lands on one
/// when it stops short of the end.
pub proof fn lemma_next_nl(s: Seq<char>, i: int)
    requires
        0 <= i <= s.len(),
    ensures
        i <= next_nl(s, i) <= s.len(),
        forall|m: int| i <= m < next_nl(s, i) ==> s[m] != '\n',
        next_nl(s, i) < s.len() ==> s[next_nl(s, i)] == '\n',
    decreases s.len() - i,
{
    if i < s.len() && s[i] != '\n' {
        lemma_next_nl(s, i + 1);
    }
}

/// `line_start_from` stays within bounds.
pub proof fn lemma_line_start_from_bounds(s: Seq<char>, i: int, k: int)
    requires
        0 <= i <= s.len(),
    ensures
        i <= line_start_from(s, i, k) <= s.len(),
    decreases s.len() - i,
{
    if k > 0 && i < s.len() {
        lemma_line_start_from_bounds(s, i + 1, k - (if s[i] == '\n' { 1int } else { 0int }));
    }
}

/// `consume` stays between its start and its end.
pub proof fn lemma_consume_bounds(enc: Encoding, s: Seq<char>, i: int, end: int, target: int)
    requires
        0 <= i <= end <= s.len(),
    ensures
        i <= consume(enc, s, i, end, target) <= end,
    decreases end - i,
{
    if target > 0 && i < end {
        lemma_consume_bounds(enc, s, i + 1, end, target - char_units(enc, s[i]));
    }
}

/// Consuming exactly the units of the scalars in `[i, j)` lands on `j`.
pub proof fn lemma_consume_exact(enc: Encoding, s: Seq<char>, i: int, j: int, end: int)
    requires
        0 <= i <= j <= end <= s.len(),
    ensures
        consume(enc, s, i, end, range_units(enc, s, i, j)) == j,
    decreases j - i,
{
    if i == j {
        lemma_prefix_units_mono(enc, s, i, j);
    } else {
        lemma_char_units_bounds(enc, s[i]);
        lemma_prefix_units_mono(enc, s, i + 1, j);
        assert(range_units(enc, s, i, j) - char_units(enc, s[i]) == range_units(enc, s, i + 1, j));
        lemma_consume_exact(enc, s, i + 1, j, end);
    }
}

/// A target that lands strictly inside the scalar at `j` (or exactly at its
/// far edge) resolves to the index just past it: scalar values are consumed
/// whole, so a surrogate pair is never split.
pub proof fn lemma_consume_inside(
    enc: Encoding,
    s: Seq<char>,
    i: int,
    j: int,
    end: int,
    v: int,
)
    requires
        0 <= i <= j < end <= s.len(),
        0 < v <= char_units(enc, s[j]),
    ensures
        consume(enc, s, i, end, range_units(enc, s, i, j) + v) == j + 1,
    decreases j - i,
{
    if i == j {
        lemma_prefix_units_mono(enc, s, i, j);
        assert(consume(enc, s, i, end, v) == consume(enc, s, i + 1, end, v - char_units(enc, s[i])));
    } else {
        lemma_char_units_bounds(enc, s[i]);
        lemma_prefix_units_mono(enc, s, i + 1, j);
        assert(range_units(enc, s, i, j) + v - char_units(enc, s[i]) == range_units(enc, s, i + 1, j)
            + v);
        lemma_consume_inside(enc, s, i + 1, j, end, v);
    }
}

/// When no `'\n'` lies in `[i, j)`, the line feed count does not change.
pub proof fn lemma_prefix_nls_flat(s: Seq<char>, i: int, j: int)
    requires
        0 <= i <= j <= s.len(),
        forall|m: int| i <= m < j ==> s[m] != '\n',
    ensures
        prefix_nls(s, j) == prefix_nls(s, i),
    decreases j - i,
{
    if i < j {
        lemma_prefix_nls_flat(s, i, j - 1);
    }
}

/// Line feed counts never decrease.
pub proof fn lemma_prefix_nls_mono(s: Seq<char>, i: int, j: int)
    requires
        0 <= i <= j <= s.len(),
    ensures
        prefix_nls(s, i) <= prefix_nls(s, j) <= prefix_nls(s, i) + (j - i),
    decreases j - i,
{
    if i < j {
        lemma_prefix_nls_mono(s, i, j - 1);
    }
}

/// Skipping `k` line feeds from `i` lands just past the `k`-th of them, so
/// the line feed count there is exactly `k` more — or at the end of the text
/// when fewer than `k` remain.
pub proof fn lemma_line_start_from_nls(s: Seq<char>, i: int, k: int)
    requires
        0 <= i <= s.len(),
        0 <= k,
    ensures
        ({
            let r = line_start_from(s, i, k);
            prefix_nls(s, r) == if prefix_nls(s, i) + k <= last_line(s) {
                prefix_nls(s, i) + k
            } else {
                last_line(s)
            }
        }),
    decreases s.len() - i,
{
    lemma_prefix_nls_mono(s, i, s.len() as int);
    if k == 0 {
    } else if i >= s.len() {
    } else {
        lemma_line_start_from_nls(s, i + 1, k - (if s[i] == '\n' { 1int } else { 0int }));
    }
}

/// Once every line feed has been counted, no later scalar is a line feed.
pub proof fn lemma_no_nl_after_last(s: Seq<char>, i: int, m: int)
    requires
        0 <= i <= m < s.len(),
        prefix_nls(s, i) == last_line(s),
    ensures
        s[m] != '\n',
{
    lemma_prefix_nls_mono(s, i, m);
    lemma_prefix_nls_mono(s, m + 1, s.len() as int);
    if s[m] == '\n' {
        assert(prefix_nls(s, m + 1) == prefix_nls(s, m) + 1);
    }
}

/// Skipping `a + b` line feeds is skipping `a`, then `b` more.
pub proof fn lemma_lsf_compose(s: Seq<char>, i: int, a: int, b: int)
    requires
        0 <= i <= s.len(),
        0 <= a,
        0 <= b,
    ensures
        line_start_from(s, i, a + b) == line_start_from(s, line_start_from(s, i, a), b),
    decreases s.len() - i,
{
    if a == 0 {
    } else if i >= s.len() {
    } else {
        lemma_lsf_compose(s, i + 1, a - (if s[i] == '\n' { 1int } else { 0int }), b);
    }
}

/// Skipping one line feed lands just past the next one, or at the end of the
/// text when there is none.
pub proof fn lemma_lsf_one(s: Seq<char>, i: int)
    requires
        0 <= i <= s.len(),
    ensures
        line_start_from(s, i, 1) == if next_nl(s, i) < s.len() {
            next_nl(s, i) + 1
        } else {
            s.len() as int
        },
    decreases s.len() - i,
{
    if i < s.len() {
        if s[i] == '\n' {
            assert(line_start_from(s, i + 1, 0) == i + 1);
        } else {
            lemma_lsf_one(s, i + 1);
        }
    }
}

/// The start of the line containing scalar index `j` lies at or before `j`.
pub proof fn lemma_line_start_le(s: Seq<char>, j: int)
    requires
        0 <= j <= s.len(),
    ensures
        line_start(s, prefix_nls(s, j)) <= j,
    decreases j,
{
    if j > 0 {
        lemma_line_start_le(s, j - 1);
        lemma_prefix_nls_mono(s, 0, j - 1);
        if s[j - 1] == '\n' {
            let l = prefix_nls(s, j - 1);
            lemma_lsf_compose(s, 0, l, 1);
            let ls = line_start(s, l);
            lemma_line_start_from_bounds(s, 0, l);
            lemma_lsf_one(s, ls);
            lemma_next_nl(s, ls);
            assert(next_nl(s, ls) <= j - 1) by {
                if next_nl(s, ls) > j - 1 {
                    assert(s[j - 1] != '\n');
                }
            }
        }
    }
}

/// Snapping the exact byte prefix of scalar index `k` recovers `k`.
pub proof fn lemma_floor_of_prefix(s: Seq<char>, i: int, k: int)
    requires
        0 <= i <= k <= s.len(),
    ensures
        floor_from(s, i, prefix_bytes(s, k)) == k,
    decreases k - i,
{
    let enc = Encoding::Utf8;
    if i == k {
        if k < s.len() {
            lemma_char_units_bounds(enc, s[k]);
            assert(prefix_bytes(s, k + 1) > prefix_bytes(s, k));
        }
    } else {
        lemma_prefix_units_mono(enc, s, i + 1, k);
        assert(prefix_bytes(s, i + 1) <= prefix_bytes(s, k));
        lemma_floor_of_prefix(s, i + 1, k);
    }
}

} // verus!
