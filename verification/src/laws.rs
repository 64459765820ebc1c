//! Laws relating the position-mapping functions, stated over the same spec
//! functions that the executable functions' contracts use.

use vstd::prelude::*;
use crate::unicode::{
    Encoding, byte_length, prefix_bytes, range_units, char_units, lemma_prefix_units_mono,
};
use crate::lines::{
    next_nl, line_start, line_content_end, prefix_nls, last_line, resolved_idx, position_offset,
    full_end_character, floor_from, offset_line, offset_character, lemma_next_nl,
    lemma_line_start_from_bounds, lemma_line_start_from_nls, lemma_no_nl_after_last,
    lemma_consume_exact, lemma_consume_inside, lemma_consume_bounds, lemma_prefix_nls_flat,
    lemma_floor_of_prefix,
};
use crate::buffer::is_boundary;

verus! {

/// The content of a line lies between its start and the end of the text.
pub proof fn lemma_content_end_bounds(s: Seq<char>, line: int)
    requires
        0 <= line,
    ensures
        0 <= line_start(s, line) <= line_content_end(s, line) <= s.len(),
{
    lemma_line_start_from_bounds(s, 0, line);
    lemma_next_nl(s, line_start(s, line));
}

/// `character` is in bounds for line `line` of `s` under `enc`: the line
/// exists, and the count lands on a scalar boundary within the line's
/// content. These are the positions a client that sees the current text can
/// honestly send.
pub open spec fn valid_position(enc: Encoding, s: Seq<char>, line: int, character: int) -> bool {
    &&& 0 <= line <= last_line(s)
    &&& exists|j: int|
        line_start(s, line) <= j <= line_content_end(s, line) && character == range_units(
            enc,
            s,
            line_start(s, line),
            j,
        )
}

/// Round trip: a position that is in bounds and on a scalar boundary maps to
/// a byte offset that maps back to the same position.
pub proof fn lemma_position_round_trip(enc: Encoding, s: Seq<char>, line: int, character: int)
    requires
        valid_position(enc, s, line, character),
    ensures
        offset_line(s, position_offset(enc, s, line, character)) == line,
        offset_character(enc, s, position_offset(enc, s, line, character)) == character,
{
    let ls = line_start(s, line);
    let ce = line_content_end(s, line);
    lemma_content_end_bounds(s, line);
    let j = choose|j: int|
        ls <= j <= ce && character == range_units(enc, s, ls, j);
    lemma_consume_exact(enc, s, ls, j, ce);
    assert(resolved_idx(enc, s, line, character) == j);
    let off = prefix_bytes(s, j);
    lemma_floor_of_prefix(s, 0, j);
    assert(floor_from(s, 0, off) == j);
    lemma_line_start_from_nls(s, 0, line);
    assert(prefix_nls(s, ls) == line);
    lemma_next_nl(s, ls);
    assert(forall|m: int| ls <= m < j ==> s[m] != '\n');
    lemma_prefix_nls_flat(s, ls, j);
    assert(prefix_nls(s, j) == line);
    assert(offset_line(s, off) == line);
    assert(offset_character(enc, s, off) == range_units(enc, s, ls, j));
}

/// The end of the full-document range maps to the byte length of the text.
pub proof fn lemma_full_range_end_offset(enc: Encoding, s: Seq<char>)
    ensures
        position_offset(enc, s, last_line(s), full_end_character(enc, s)) == byte_length(s),
{
    let l = last_line(s);
    crate::lines::lemma_prefix_nls_mono(s, 0, s.len() as int);
    let ls = line_start(s, l);
    lemma_line_start_from_bounds(s, 0, l);
    lemma_line_start_from_nls(s, 0, l);
    assert(prefix_nls(s, ls) == l);
    lemma_next_nl(s, ls);
    assert(next_nl(s, ls) == s.len()) by {
        if next_nl(s, ls) < s.len() {
            lemma_no_nl_after_last(s, ls, next_nl(s, ls));
        }
    }
    assert(line_content_end(s, l) == s.len());
    lemma_consume_exact(enc, s, ls, s.len() as int, s.len() as int);
    assert(resolved_idx(enc, s, l, full_end_character(enc, s)) == s.len());
}

/// Every offset a position resolves to lies on a scalar-value boundary, so
/// it can address the buffer's insert, delete and slice operations.
pub proof fn lemma_position_offset_on_boundary(
    enc: Encoding,
    s: Seq<char>,
    line: int,
    character: int,
)
    requires
        0 <= line,
    ensures
        is_boundary(s, position_offset(enc, s, line, character)),
{
    lemma_content_end_bounds(s, line);
    lemma_consume_bounds(enc, s, line_start(s, line), line_content_end(s, line), character);
    let j = resolved_idx(enc, s, line, character);
    assert(0 <= j <= s.len() && prefix_bytes(s, j) == position_offset(enc, s, line, character));
}

/// A scalar value is consumed whole: a `character` that falls strictly
/// between the two code units of a surrogate pair (or anywhere inside a
/// multi-unit scalar) resolves to the same offset as the position at the
/// scalar's far edge, and the position at its near edge resolves to the
/// offset just before it. The mapping never splits a pair.
pub proof fn lemma_no_split_inside_scalar(
    enc: Encoding,
    s: Seq<char>,
    line: int,
    j: int,
    u: int,
    v: int,
)
    requires
        0 <= line,
        line_start(s, line) <= j < line_content_end(s, line),
        u == range_units(enc, s, line_start(s, line), j),
        0 < v <= char_units(enc, s[j]),
    ensures
        position_offset(enc, s, line, u) == prefix_bytes(s, j),
        position_offset(enc, s, line, u + v) == prefix_bytes(s, j + 1),
{
    let ls = line_start(s, line);
    let ce = line_content_end(s, line);
    lemma_content_end_bounds(s, line);
    lemma_consume_exact(enc, s, ls, j, ce);
    lemma_consume_inside(enc, s, ls, j, ce, v);
}

} // verus!
