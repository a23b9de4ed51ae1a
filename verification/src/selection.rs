//! A byte selection between an anchor and a cursor.

use std::ops::Range;
use vstd::prelude::*;

verus! {

/// A selection from `anchor` to `cursor`, both ends included, in either order.
#[derive(Clone, Debug, PartialEq, Eq, Structural)]
pub struct Selection {
    pub anchor: u64,
    pub cursor: u64,
}

impl Selection {
    pub fn new(anchor: u64, cursor: u64) -> (s: Self)
        ensures
            s.anchor == anchor,
            s.cursor == cursor,
    {
        Self { anchor, cursor }
    }

    /// The selected bytes as a half-open range: from the lower end to one past
    /// the higher end.
    pub fn normalized(&self) -> (r: Range<u64>)
        requires
            self.anchor < u64::MAX,
            self.cursor < u64::MAX,
        ensures
            r.start == (if self.anchor <= self.cursor {
                self.anchor
            } else {
                self.cursor
            }),
            r.end == (if self.anchor <= self.cursor {
                self.cursor
            } else {
                self.anchor
            }) + 1,
    {
        if self.anchor <= self.cursor {
            self.anchor..self.cursor + 1
        } else {
            self.cursor..self.anchor + 1
        }
    }
}

} // verus!
