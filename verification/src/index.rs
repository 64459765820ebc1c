//! Resolution of protocol positions against a buffer: position to byte
//! offset, byte offset back to position, ranges, and the full-document range.
//!
//! Out-of-range coordinates never fail: a `character` past the end of its
//! line clamps to the line's content end (exclusive of the terminator), and
//! a `line` past the last line clamps to the end of the document.

use vstd::prelude::*;
use crate::buffer::Buffer;
use crate::protocol::{Position, Range, sat_u32, sat_cast};
use crate::unicode::{
    Encoding, byte_length, prefix_bytes, range_units, char_units, units_of, utf8_len_of,
    lemma_char_units_bounds, lemma_prefix_units_mono, lemma_prefix_units_le_bytes,
};
use crate::lines::{
    next_nl, line_start, line_start_from, content_end_at, line_content_end, prefix_nls, last_line,
    consume, resolved_idx, position_offset, full_end_character, floor_from, offset_line,
    offset_character, lemma_next_nl, lemma_line_start_le, lemma_prefix_nls_mono,
};

verus! {

/// Index of the first `'\n'` at or after `from`, or the length when none.
fn find_next_nl(buf: &Buffer, from: usize) -> (r: usize)
    requires
        from <= buf@.len(),
    ensures
        r == next_nl(buf@, from as int),
        from <= r <= buf@.len(),
{
    let n: usize = buf.scalar_count();
    let mut e: usize = from;
    while e < n && buf.char_at(e) != '\n'
        invariant
            from <= e <= n == buf@.len(),
            next_nl(buf@, from as int) == next_nl(buf@, e as int),
        decreases n - e,
    {
        e = e + 1;
    }
    proof {
        lemma_next_nl(buf@, e as int);
    }
    e
}

/// Scalar index of the start of line `line`, clamped to the end of the text.
fn find_line_start(buf: &Buffer, line: usize) -> (r: usize)
    ensures
        r == line_start(buf@, line as int),
        r <= buf@.len(),
{
    let n: usize = buf.scalar_count();
    let mut i: usize = 0;
    let mut l: usize = 0;
    while l < line && i < n
        invariant
            0 <= i <= n == buf@.len(),
            l <= line,
            line_start(buf@, line as int) == line_start_from(buf@, i as int, line - l),
        decreases n - i,
    {
        if buf.char_at(i) == '\n' {
            l = l + 1;
        }
        i = i + 1;
    }
    i
}

/// Number of `'\n'` among the first `j` scalar values.
fn count_nls(buf: &Buffer, j: usize) -> (r: usize)
    requires
        j <= buf@.len(),
    ensures
        r == prefix_nls(buf@, j as int),
{
    let mut k: usize = 0;
    let mut l: usize = 0;
    while k < j
        invariant
            0 <= k <= j <= buf@.len(),
            l <= k,
            l == prefix_nls(buf@, k as int),
        decreases j - k,
    {
        if buf.char_at(k) == '\n' {
            l = l + 1;
        }
        k = k + 1;
    }
    l
}

/// Code units, under `enc`, of the scalar values with index in `[i, j)`.
fn count_units(buf: &Buffer, enc: Encoding, i: usize, j: usize) -> (r: usize)
    requires
        i <= j <= buf@.len(),
    ensures
        r == range_units(enc, buf@, i as int, j as int),
{
    let total: usize = buf.len();
    let mut k: usize = i;
    let mut u: usize = 0;
    while k < j
        invariant
            i <= k <= j <= buf@.len(),
            total == byte_length(buf@),
            u == range_units(enc, buf@, i as int, k as int),
        decreases j - k,
    {
        proof {
            lemma_prefix_units_le_bytes(enc, buf@, k + 1);
            lemma_prefix_units_mono(Encoding::Utf8, buf@, k + 1, buf@.len() as int);
            lemma_prefix_units_mono(enc, buf@, 0, i as int);
        }
        u = u + units_of(enc, buf.char_at(k));
        k = k + 1;
    }
    u
}

/// Scalar index reached from `i` by consuming `target` code units, whole
/// scalars at a time, stopping at `end`.
fn consume_units(buf: &Buffer, enc: Encoding, i: usize, end: usize, target: u32) -> (r: usize)
    requires
        i <= end <= buf@.len(),
    ensures
        r == consume(enc, buf@, i as int, end as int, target as int),
        i <= r <= end,
{
    let mut j: usize = i;
    let mut rem: u32 = target;
    while j < end && rem > 0
        invariant
            i <= j <= end <= buf@.len(),
            consume(enc, buf@, i as int, end as int, target as int) == consume(
                enc,
                buf@,
                j as int,
                end as int,
                rem as int,
            ),
        decreases end - j,
    {
        let u: usize = units_of(enc, buf.char_at(j));
        proof {
            lemma_char_units_bounds(enc, buf@[j as int]);
            assert(consume(enc, buf@, j as int, end as int, rem as int) == consume(
                enc,
                buf@,
                j as int + 1,
                end as int,
                rem - char_units(enc, buf@[j as int]),
            ));
            if u >= rem {
                assert(consume(enc, buf@, j as int + 1, end as int, rem - char_units(enc, buf@[j as int]))
                    == j as int + 1);
                assert(consume(enc, buf@, j as int + 1, end as int, 0int) == j as int + 1);
            }
        }
        let u32v: u32 = u as u32;
        if u32v >= rem {
            rem = 0;
        } else {
            rem = rem - u32v;
        }
        j = j + 1;
    }
    j
}

impl Buffer {
    /// Scalar index and byte offset that `pos` resolves to under `enc`.
    pub(crate) fn resolve_position(&self, enc: Encoding, pos: Position) -> (r: (usize, usize))
        ensures
            r.0 == resolved_idx(enc, self@, pos.line as int, pos.character as int),
            r.1 == position_offset(enc, self@, pos.line as int, pos.character as int),
            r.0 <= self@.len(),
            r.1 <= byte_length(self@),
    {
        let n: usize = self.scalar_count();
        let ls: usize = find_line_start(self, pos.line as usize);
        let e: usize = find_next_nl(self, ls);
        let ce: usize = if e < n && ls < e && self.char_at(e - 1) == '\r' {
            e - 1
        } else {
            e
        };
        proof {
            assert(ce == content_end_at(self@, ls as int));
            assert(ce == line_content_end(self@, pos.line as int));
        }
        let j: usize = consume_units(self, enc, ls, ce, pos.character);
        let b: usize = self.bytes_up_to(j);
        proof {
            lemma_prefix_units_mono(Encoding::Utf8, self@, j as int, self@.len() as int);
        }
        (j, b)
    }

    /// Byte offset that `pos` resolves to under encoding `enc`: the UTF-8
    /// length of all preceding lines (terminators included) plus the bytes
    /// of the consumed part of the target line.
    pub fn position_in(&self, enc: Encoding, pos: Position) -> (r: usize)
        ensures
            r == position_offset(enc, self@, pos.line as int, pos.character as int),
            r <= byte_length(self@),
    {
        self.resolve_position(enc, pos).1
    }

    /// Byte offset that `pos` resolves to, counting `character` in UTF-16
    /// code units (the protocol default).
    pub fn position(&self, pos: Position) -> (r: usize)
        ensures
            r == position_offset(Encoding::Utf16, self@, pos.line as int, pos.character as int),
            r <= byte_length(self@),
    {
        self.position_in(Encoding::Utf16, pos)
    }

    /// Byte offsets of both ends of `range` under `enc`, each resolved
    /// independently.
    pub fn range_in(&self, enc: Encoding, range: Range) -> (r: (usize, usize))
        ensures
            r.0 == position_offset(enc, self@, range.start.line as int, range.start.character as int),
            r.1 == position_offset(enc, self@, range.end.line as int, range.end.character as int),
            r.0 <= byte_length(self@),
            r.1 <= byte_length(self@),
    {
        (self.position_in(enc, range.start), self.position_in(enc, range.end))
    }

    /// Byte offsets of both ends of `range`, counting UTF-16 code units.
    pub fn range(&self, range: Range) -> (r: (usize, usize))
        ensures
            r.0 == position_offset(
                Encoding::Utf16,
                self@,
                range.start.line as int,
                range.start.character as int,
            ),
            r.1 == position_offset(
                Encoding::Utf16,
                self@,
                range.end.line as int,
                range.end.character as int,
            ),
            r.0 <= byte_length(self@),
            r.1 <= byte_length(self@),
    {
        self.range_in(Encoding::Utf16, range)
    }

    /// The range of the whole document under `enc`: from the zero position to
    /// the last line's content length. A text ending in a line terminator
    /// ends at an implicit empty final line. Wire coordinates saturate.
    pub fn range_full_in(&self, enc: Encoding) -> (r: Range)
        ensures
            r.start == (Position { line: 0, character: 0 }),
            r.end.line == sat_u32(last_line(self@)),
            r.end.character == sat_u32(full_end_character(enc, self@)),
    {
        let n: usize = self.scalar_count();
        let l: usize = count_nls(self, n);
        let ls: usize = find_line_start(self, l);
        proof {
            lemma_line_start_le(self@, self@.len() as int);
        }
        let c: usize = count_units(self, enc, ls, n);
        Range {
            start: Position { line: 0, character: 0 },
            end: Position { line: sat_cast(l), character: sat_cast(c) },
        }
    }

    /// The range of the whole document, counting UTF-16 code units.
    pub fn range_full(&self) -> (r: Range)
        ensures
            r.start == (Position { line: 0, character: 0 }),
            r.end.line == sat_u32(last_line(self@)),
            r.end.character == sat_u32(full_end_character(Encoding::Utf16, self@)),
    {
        self.range_full_in(Encoding::Utf16)
    }

    /// The position of byte offset `off` under `enc`: its line, and the code
    /// units from that line's start. An offset that does not lie on a scalar
    /// boundary is snapped down to one; an offset past the end is clamped to
    /// the end. Wire coordinates saturate.
    pub fn offset_to_position_in(&self, enc: Encoding, off: usize) -> (r: Position)
        ensures
            r.line == sat_u32(offset_line(self@, off as int)),
            r.character == sat_u32(offset_character(enc, self@, off as int)),
    {
        let n: usize = self.scalar_count();
        let total: usize = self.len();
        let mut j: usize = 0;
        let mut b: usize = 0;
        while j < n
            invariant
                0 <= j <= n == self@.len(),
                total == byte_length(self@),
                b == prefix_bytes(self@, j as int),
                floor_from(self@, 0, off as int) == floor_from(self@, j as int, off as int),
            ensures
                floor_from(self@, 0, off as int) == j as int,
            decreases n - j,
        {
            let u: usize = utf8_len_of(self.char_at(j));
            proof {
                lemma_prefix_units_mono(Encoding::Utf8, self@, j + 1, self@.len() as int);
            }
            if b + u <= off {
                b = b + u;
                j = j + 1;
            } else {
                break ;
            }
        }
        let l: usize = count_nls(self, j);
        let ls: usize = find_line_start(self, l);
        proof {
            lemma_line_start_le(self@, j as int);
        }
        let c: usize = count_units(self, enc, ls, j);
        Position { line: sat_cast(l), character: sat_cast(c) }
    }

    /// The position of byte offset `off`, counting UTF-16 code units.
    pub fn offset_to_position(&self, off: usize) -> (r: Position)
        ensures
            r.line == sat_u32(offset_line(self@, off as int)),
            r.character == sat_u32(offset_character(Encoding::Utf16, self@, off as int)),
    {
        self.offset_to_position_in(Encoding::Utf16, off)
    }
}

} // verus!
