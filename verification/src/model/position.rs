//! Cursor and selection positions in the text buffer.
//!
//! `Position` deliberately uses grapheme indexes rather than byte offsets. Byte
//! offsets are an implementation detail of `TextBuffer`; exposing them would let
//! callers split a Unicode grapheme cluster and corrupt text.

use vstd::prelude::*;

verus! {

/// A zero-based location in a `TextBuffer`.
#[derive(Debug, Clone, Copy, Default, PartialEq, Eq, Structural, PartialOrd, Ord, Hash)]
pub struct Position {
    pub line: usize,
    pub grapheme: usize,
}

impl Position {
    /// Creates a new zero-based buffer position.
    pub fn new(line: usize, grapheme: usize) -> (res: Self)
        ensures
            res.line == line,
            res.grapheme == grapheme,
    {
        Position { line, grapheme }
    }
}

/// Buffer order on positions: by line, then by grapheme.
pub open spec fn pos_le(a: Position, b: Position) -> bool {
    a.line < b.line || (a.line == b.line && a.grapheme <= b.grapheme)
}

/// Strict buffer order on positions.
pub open spec fn pos_lt(a: Position, b: Position) -> bool {
    a.line < b.line || (a.line == b.line && a.grapheme < b.grapheme)
}

/// Executable `pos_le`, matching the derived `Ord` on `Position`.
pub fn precedes_or_equals(a: Position, b: Position) -> (res: bool)
    ensures
        res == pos_le(a, b),
{
    a.line < b.line || (a.line == b.line && a.grapheme <= b.grapheme)
}

/// Executable `pos_lt`, matching the derived `Ord` on `Position`.
pub fn precedes(a: Position, b: Position) -> (res: bool)
    ensures
        res == pos_lt(a, b),
{
    a.line < b.line || (a.line == b.line && a.grapheme < b.grapheme)
}

} // verus!
