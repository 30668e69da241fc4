//! Selection ranges represented by stable grapheme-indexed positions.

use vstd::prelude::*;

use super::position::{pos_le, precedes_or_equals, Position};

verus! {

/// A single contiguous selection.
#[derive(Debug, Clone, Copy, PartialEq, Eq, Structural)]
pub struct Selection {
    /// Fixed end of an extending selection.
    pub anchor: Position,
    /// Moving end of an extending selection.
    pub head: Position,
}

/// The endpoints of a selection in buffer order.
pub open spec fn sel_range(s: Selection) -> (Position, Position) {
    if pos_le(s.anchor, s.head) {
        (s.anchor, s.head)
    } else {
        (s.head, s.anchor)
    }
}

impl Selection {
    /// Creates a selection from an anchor and a head.
    pub fn new(anchor: Position, head: Position) -> (res: Self)
        ensures
            res.anchor == anchor,
            res.head == head,
    {
        Selection { anchor, head }
    }

    /// Returns true when the anchor and head point at the same buffer location.
    pub fn is_empty(self) -> (res: bool)
        ensures
            res == (self.anchor == self.head),
    {
        self.anchor == self.head
    }

    /// Returns the selection endpoints in buffer order.
    pub fn range(self) -> (res: (Position, Position))
        ensures
            res == sel_range(self),
            pos_le(res.0, res.1),
    {
        if precedes_or_equals(self.anchor, self.head) {
            (self.anchor, self.head)
        } else {
            (self.head, self.anchor)
        }
    }
}

} // verus!
