//! The text transforms offered as editor commands — unescaping a selection
//! and turning an epoch timestamp into a UTC date — and the decision logic
//! around them: when a code action applies, and what edit a command produces.

use vstd::prelude::*;
use crate::buffer::Buffer;
use crate::protocol::{Position, Range, sat_u32};
use crate::store::DocumentStore;
use crate::unicode::Encoding;
use crate::lines::{resolved_idx, last_line, full_end_character};
use crate::numeric::{parse_i64, parses_as_i64, int_literal_value};

verus! {

/// The kinds of code action a transform is offered under.
#[derive(Clone, Copy, PartialEq, Eq, Structural, Debug)]
pub enum ActionKind {
    QuickFix,
    Source,
}

/// The command identity a transform carries on the wire.
pub trait CommandMeta {
    /// The wire name of the command.
    spec fn spec_command_name(&self) -> Seq<char>;

    /// The name shown to the user.
    spec fn spec_command_display_name(&self) -> Seq<char>;

    /// The wire name of the command.
    fn command_name(&self) -> (r: &'static str)
        ensures
            r@ == self.spec_command_name(),
    ;

    /// The name shown to the user.
    fn command_display_name(&self) -> (r: &'static str)
        ensures
            r@ == self.spec_command_display_name(),
    ;
}

/// A text transform: the code-action kinds it is offered under, the test
/// that decides whether to offer it for a selection, and the rewriting
/// itself, which returns `None` when the text is not transformable.
pub trait Transform {
    /// The code-action kinds this transform is offered under.
    spec fn kinds_spec(&self) -> Seq<ActionKind>;

    /// Whether the transform applies to `range` of the text `s`.
    spec fn condition_spec(&self, s: Seq<char>, range: Range) -> bool;

    /// What the transform makes of the text `s`, when anything.
    spec fn transform_spec(&self, s: Seq<char>) -> Option<Seq<char>>;

    /// The code-action kinds this transform is offered under.
    fn code_action_kind(&self) -> (r: Vec<ActionKind>)
        ensures
            r@ == self.kinds_spec(),
    ;

    /// Whether the transform applies to `range` of `source`.
    fn code_action_condition(&self, source: &Buffer, range: Range) -> (r: bool)
        ensures
            r == self.condition_spec(source@, range),
    ;

    /// Applies the transform to `text`.
    fn transform(&self, text: &Buffer) -> (r: Option<String>)
        ensures
            (match r {
                Some(t) => self.transform_spec(text@) == Some(t@),
                None => self.transform_spec(text@) is None,
            }),
    ;
}

/// Rewrites escape sequences in a selection to the characters they stand
/// for.
pub struct Unescape;

/// Turns a selected epoch timestamp (seconds) into a UTC date-time text.
pub struct EpochToUTC;

/// Offers an inner transform as a whole-document source action: it applies
/// only when the requested range is the zero range, and rewrites whatever
/// text it is handed exactly as the inner transform does.
pub struct Source<T>(pub T);

/// What unescaping makes of a text. Whether it succeeds and what it returns
/// depend on the characters alone.
pub uninterp spec fn unescape_result(s: Seq<char>) -> Option<Seq<char>>;

/// Relies on `unescaper::unescape`: rewrites escape sequences (control,
/// quote, Unicode, byte and octal escapes) to their characters, erring on a
/// malformed escape; a pure function of the input characters.
#[verifier::external_body]
fn unescape_exec(s: &str) -> (r: Option<String>)
    ensures
        (match r {
            Some(t) => unescape_result(s@) == Some(t@),
            None => unescape_result(s@) is None,
        }),
{
    match unescaper::unescape(s) {
        Ok(t) => Some(t),
        Err(_) => None,
    }
}

/// The RFC 3339 UTC date-time text for an epoch second count, when the
/// timestamp lies in the representable date range. A pure function of the
/// seconds.
pub uninterp spec fn utc_rfc3339(secs: int) -> Option<Seq<char>>;

/// Relies on chrono's `DateTime::<Utc>::from_timestamp`, which is `None`
/// exactly on a timestamp outside the representable date range, and
/// `to_rfc3339_opts`, which formats the instant; UTC formatting depends on
/// the seconds alone.
#[verifier::external_body]
fn epoch_to_rfc3339(secs: i64) -> (r: Option<String>)
    ensures
        (match r {
            Some(t) => utc_rfc3339(secs as int) == Some(t@),
            None => utc_rfc3339(secs as int) is None,
        }),
{
    chrono::DateTime::<chrono::Utc>::from_timestamp(secs, 0).map(
        |dt| dt.to_rfc3339_opts(chrono::SecondsFormat::Secs, true),
    )
}

/// Some scalar value in `[i1, i2)` of `s` is a backslash.
pub open spec fn has_backslash(s: Seq<char>, i1: int, i2: int) -> bool {
    exists|i: int| i1 <= i < i2 && s[i] == '\\'
}

/// The part of `s` that `range` selects, both ends resolved with the usual
/// clamping (UTF-16 counting); empty when the resolved ends are reversed.
pub open spec fn selected(s: Seq<char>, range: Range) -> Seq<char> {
    let i1 = resolved_idx(Encoding::Utf16, s, range.start.line as int, range.start.character as int);
    let i2 = resolved_idx(Encoding::Utf16, s, range.end.line as int, range.end.character as int);
    if i1 <= i2 {
        s.subrange(i1, i2)
    } else {
        Seq::empty()
    }
}

/// An owned copy of the part of `source` that `range` selects.
pub fn select(source: &Buffer, range: Range) -> (r: Buffer)
    ensures
        r@ == selected(source@, range),
{
    let (i1, _b1) = source.resolve_position(Encoding::Utf16, range.start);
    let (i2, _b2) = source.resolve_position(Encoding::Utf16, range.end);
    if i1 <= i2 {
        source.slice_chars(i1, i2)
    } else {
        Buffer::new()
    }
}

impl CommandMeta for Unescape {
    open spec fn spec_command_name(&self) -> Seq<char> {
        "text-language-server.unescape"@
    }

    open spec fn spec_command_display_name(&self) -> Seq<char> {
        "Unescape"@
    }

    fn command_name(&self) -> (r: &'static str) {
        "text-language-server.unescape"
    }

    fn command_display_name(&self) -> (r: &'static str) {
        "Unescape"
    }
}

impl Transform for Unescape {
    open spec fn kinds_spec(&self) -> Seq<ActionKind> {
        seq![ActionKind::QuickFix, ActionKind::Source]
    }

    /// Offered when the selection holds a backslash.
    open spec fn condition_spec(&self, s: Seq<char>, range: Range) -> bool {
        has_backslash(selected(s, range), 0, selected(s, range).len() as int)
    }

    open spec fn transform_spec(&self, s: Seq<char>) -> Option<Seq<char>> {
        unescape_result(s)
    }

    fn code_action_kind(&self) -> (r: Vec<ActionKind>) {
        let mut r: Vec<ActionKind> = Vec::new();
        r.push(ActionKind::QuickFix);
        r.push(ActionKind::Source);
        proof {
            assert(r@ =~= seq![ActionKind::QuickFix, ActionKind::Source]);
        }
        r
    }

    fn code_action_condition(&self, source: &Buffer, range: Range) -> (r: bool) {
        let sel = select(source, range);
        let n: usize = sel.scalar_count();
        let mut k: usize = 0;
        let mut found: bool = false;
        while k < n
            invariant
                0 <= k <= n == sel@.len(),
                found == has_backslash(sel@, 0, k as int),
            decreases n - k,
        {
            if sel.char_at(k) == '\\' {
                found = true;
            }
            k = k + 1;
        }
        found
    }

    fn transform(&self, text: &Buffer) -> (r: Option<String>) {
        let owned = text.to_string();
        unescape_exec(owned.as_str())
    }
}

impl CommandMeta for EpochToUTC {
    open spec fn spec_command_name(&self) -> Seq<char> {
        "text-language-server.epoch-to-utc"@
    }

    open spec fn spec_command_display_name(&self) -> Seq<char> {
        "Epoch to UTC"@
    }

    fn command_name(&self) -> (r: &'static str) {
        "text-language-server.epoch-to-utc"
    }

    fn command_display_name(&self) -> (r: &'static str) {
        "Epoch to UTC"
    }
}

impl Transform for EpochToUTC {
    open spec fn kinds_spec(&self) -> Seq<ActionKind> {
        seq![ActionKind::QuickFix, ActionKind::Source]
    }

    /// Offered when the selection is an integer literal that fits 64 bits.
    open spec fn condition_spec(&self, s: Seq<char>, range: Range) -> bool {
        parses_as_i64(selected(s, range))
    }

    /// The UTC date-time for the selected timestamp: nothing when the text
    /// is not a timestamp, or lies outside the representable date range.
    open spec fn transform_spec(&self, s: Seq<char>) -> Option<Seq<char>> {
        if parses_as_i64(s) {
            utc_rfc3339(int_literal_value(s))
        } else {
            None
        }
    }

    fn code_action_kind(&self) -> (r: Vec<ActionKind>) {
        let mut r: Vec<ActionKind> = Vec::new();
        r.push(ActionKind::QuickFix);
        r.push(ActionKind::Source);
        proof {
            assert(r@ =~= seq![ActionKind::QuickFix, ActionKind::Source]);
        }
        r
    }

    fn code_action_condition(&self, source: &Buffer, range: Range) -> (r: bool) {
        let sel = select(source, range);
        parse_i64(&sel).is_some()
    }

    fn transform(&self, text: &Buffer) -> (r: Option<String>) {
        match parse_i64(text) {
            Some(secs) => epoch_to_rfc3339(secs),
            None => None,
        }
    }
}

/// The zero range: both ends at line zero, character zero.
pub open spec fn is_zero_range(range: Range) -> bool {
    range.start.line == 0 && range.start.character == 0 && range.end.line == 0
        && range.end.character == 0
}

impl<T: CommandMeta> CommandMeta for Source<T> {
    open spec fn spec_command_name(&self) -> Seq<char> {
        self.0.spec_command_name()
    }

    open spec fn spec_command_display_name(&self) -> Seq<char> {
        self.0.spec_command_display_name()
    }

    fn command_name(&self) -> (r: &'static str) {
        self.0.command_name()
    }

    fn command_display_name(&self) -> (r: &'static str) {
        self.0.command_display_name()
    }
}

impl<T: Transform> Transform for Source<T> {
    open spec fn kinds_spec(&self) -> Seq<ActionKind> {
        seq![ActionKind::Source]
    }

    /// A source action is offered exactly when the client asks with the
    /// zero range, its convention for "the whole document".
    open spec fn condition_spec(&self, s: Seq<char>, range: Range) -> bool {
        is_zero_range(range)
    }

    open spec fn transform_spec(&self, s: Seq<char>) -> Option<Seq<char>> {
        self.0.transform_spec(s)
    }

    fn code_action_kind(&self) -> (r: Vec<ActionKind>) {
        let mut r: Vec<ActionKind> = Vec::new();
        r.push(ActionKind::Source);
        proof {
            assert(r@ =~= seq![ActionKind::Source]);
        }
        r
    }

    fn code_action_condition(&self, source: &Buffer, range: Range) -> (r: bool) {
        range.start.line == 0 && range.start.character == 0 && range.end.line == 0
            && range.end.character == 0
    }

    fn transform(&self, text: &Buffer) -> (r: Option<String>) {
        self.0.transform(text)
    }
}

/// `v` holds the kind `k`.
fn kinds_hold(v: &Vec<ActionKind>, k: ActionKind) -> (r: bool)
    ensures
        r == v@.contains(k),
{
    let n: usize = v.len();
    let mut i: usize = 0;
    let mut found: bool = false;
    while i < n
        invariant
            0 <= i <= n == v@.len(),
            found == exists|m: int| 0 <= m < i && v@[m] == k,
        decreases n - i,
    {
        if v[i] == k {
            found = true;
        }
        i = i + 1;
    }
    found
}

/// The client's `only` filter admits the transform: it is absent, or it
/// names one of the transform's kinds.
pub open spec fn only_admits(only: Option<Vec<ActionKind>>, kinds: Seq<ActionKind>) -> bool {
    match only {
        Some(ks) => exists|i: int| 0 <= i < ks@.len() && kinds.contains(ks@[i]),
        None => true,
    }
}

/// Whether to offer the transform's code action for the document under
/// `uri`: the client's kind filter must admit it, the document must be open,
/// and the transform's own condition must hold of the selection.
pub fn code_action_applies<T: CommandMeta + Transform>(
    t: &T,
    store: &DocumentStore,
    uri: &String,
    range: Range,
    only: &Option<Vec<ActionKind>>,
) -> (r: bool)
    ensures
        r == ({
            &&& only_admits(*only, t.kinds_spec())
            &&& store@.contains_key(uri@)
            &&& t.condition_spec(store@[uri@], range)
        }),
{
    let admitted: bool = match only {
        Some(ks) => {
            let kinds = t.code_action_kind();
            let n: usize = ks.len();
            let mut i: usize = 0;
            let mut found: bool = false;
            while i < n
                invariant
                    0 <= i <= n == ks@.len(),
                    kinds@ == t.kinds_spec(),
                    found == exists|m: int| 0 <= m < i && t.kinds_spec().contains(ks@[m]),
                decreases n - i,
            {
                if kinds_hold(&kinds, ks[i]) {
                    found = true;
                }
                i = i + 1;
            }
            found
        },
        None => true,
    };
    if !admitted {
        return false;
    }
    match store.get(uri) {
        Some(buf) => t.code_action_condition(&buf, range),
        None => false,
    }
}

/// What executing a transform command comes to.
pub enum TransformOutcome {
    /// The document is not open: the caller reports its own error.
    NotOpen,
    /// The transform had nothing to do with the selected text.
    NoChange,
    /// Replace `range` with `new_text`.
    Edit { range: Range, new_text: String },
}

/// The part of the document a command addresses: the given range's
/// selection, or the whole text when no range was given.
pub open spec fn command_input(s: Seq<char>, range: Option<Range>) -> Seq<char> {
    match range {
        Some(rg) => selected(s, rg),
        None => s,
    }
}

/// The range the produced edit replaces: the given range, or the full range
/// of the document when none was given.
pub open spec fn command_range(s: Seq<char>, range: Option<Range>) -> Range {
    match range {
        Some(rg) => rg,
        None => Range {
            start: Position { line: 0, character: 0 },
            end: Position {
                line: sat_u32(last_line(s)),
                character: sat_u32(full_end_character(Encoding::Utf16, s)),
            },
        },
    }
}

/// Executes a transform command against the document under `uri`: resolves
/// the addressed text, applies the transform, and hands back the edit that
/// replaces the addressed range with the result — or says why there is none.
pub fn execute_transform<T: Transform>(
    t: &T,
    store: &DocumentStore,
    uri: &String,
    range: Option<Range>,
) -> (r: TransformOutcome)
    ensures
        (r is NotOpen) == !store@.contains_key(uri@),
        store@.contains_key(uri@) ==> (match t.transform_spec(
            command_input(store@[uri@], range),
        ) {
            Some(txt) => r matches (TransformOutcome::Edit { range: rr, new_text: nt })
                && rr == command_range(store@[uri@], range) && nt@ == txt,
            None => r is NoChange,
        }),
{
    let buf = match store.get(uri) {
        Some(buf) => buf,
        None => {
            return TransformOutcome::NotOpen;
        },
    };
    let (input, out_range): (Buffer, Range) = match range {
        Some(rg) => (select(&buf, rg), rg),
        None => (buf.snapshot(), buf.range_full()),
    };
    match t.transform(&input) {
        Some(new_text) => TransformOutcome::Edit { range: out_range, new_text },
        None => TransformOutcome::NoChange,
    }
}

} // verus!
