//! Positions and ranges in protocol coordinates: a zero-based line number and
//! a count of code units from the start of that line.

use vstd::prelude::*;

verus! {

/// A place in a document, as the protocol states it. `character` counts code
/// units (UTF-16 by default) from the start of the line. Neither field is
/// validated: both may point past the actual text and are clamped when
/// resolved.
#[derive(Clone, Copy, PartialEq, Eq, Structural, Debug)]
pub struct Position {
    pub line: u32,
    pub character: u32,
}

impl Position {
    /// The position with the given line and character.
    pub fn new(line: u32, character: u32) -> (r: Position)
        ensures
            r.line == line,
            r.character == character,
    {
        Position { line, character }
    }
}

/// A span between two positions; `start <= end` in document order by
/// convention, not enforced.
#[derive(Clone, Copy, PartialEq, Eq, Structural, Debug)]
pub struct Range {
    pub start: Position,
    pub end: Position,
}

impl Range {
    /// The range between the given positions.
    pub fn new(start: Position, end: Position) -> (r: Range)
        ensures
            r.start == start,
            r.end == end,
    {
        Range { start, end }
    }
}

/// A count clamped into a protocol-sized field: wire coordinates saturate
/// rather than wrap or fail.
pub open spec fn sat_u32(n: int) -> u32 {
    if n > u32::MAX {
        u32::MAX
    } else if n < 0 {
        0
    } else {
        n as u32
    }
}

/// Clamps a machine-sized count into a protocol-sized field.
pub fn sat_cast(n: usize) -> (r: u32)
    ensures
        r == sat_u32(n as int),
{
    if n > u32::MAX as usize {
        u32::MAX
    } else {
        n as u32
    }
}

} // verus!
