//! Text selections.

use vstd::prelude::*;
use std::ops::Range;

verus! {

/// Text selection.
///
/// `start` is where the selection gesture began and `end` is where the caret
/// is. `start` may be greater than `end` when the selection was made from
/// right to left.
#[derive(Copy, Clone, Debug, Eq, PartialEq, Hash, Structural)]
pub struct Selection {
    pub start: usize,
    /// The end of the selection, and also the position of the caret.
    pub end: usize,
}

impl Selection {
    pub open spec fn spec_min(self) -> usize {
        if self.start <= self.end { self.start } else { self.end }
    }

    pub open spec fn spec_max(self) -> usize {
        if self.start <= self.end { self.end } else { self.start }
    }

    /// The smaller of the two ends.
    pub fn min(&self) -> (r: usize)
        ensures
            r == self.spec_min(),
    {
        if self.start <= self.end { self.start } else { self.end }
    }

    /// The larger of the two ends.
    pub fn max(&self) -> (r: usize)
        ensures
            r == self.spec_max(),
    {
        if self.start <= self.end { self.end } else { self.start }
    }

    /// Whether the selection selects nothing (a bare caret).
    pub fn is_empty(&self) -> (r: bool)
        ensures
            r == (self.start == self.end),
    {
        self.start == self.end
    }

    /// An empty selection with the caret at `at`.
    pub fn empty(at: usize) -> (s: Selection)
        ensures
            s.start == at,
            s.end == at,
    {
        Selection { start: at, end: at }
    }

    /// The selected byte range, from the smaller end to the larger one.
    pub fn byte_range(&self) -> (r: Range<usize>)
        ensures
            r.start == self.spec_min(),
            r.end == self.spec_max(),
    {
        Range { start: self.min(), end: self.max() }
    }

    /// Clamps both ends into `range`.
    pub fn clamp(self, range: Range<usize>) -> (s: Selection)
        requires
            range.start <= range.end,
        ensures
            s.start == clamp_spec(self.start, range.start, range.end),
            s.end == clamp_spec(self.end, range.start, range.end),
    {
        Selection { start: clamp_usize(self.start, range.start, range.end), end: clamp_usize(self.end, range.start, range.end) }
    }
}

impl Default for Selection {
    fn default() -> (s: Selection)
        ensures
            s.start == 0,
            s.end == 0,
    {
        Selection::empty(0)
    }
}

pub open spec fn clamp_spec(v: usize, lo: usize, hi: usize) -> usize {
    if v < lo { lo } else if v > hi { hi } else { v }
}

/// `v` clamped into `[lo, hi]`.
pub fn clamp_usize(v: usize, lo: usize, hi: usize) -> (r: usize)
    requires
        lo <= hi,
    ensures
        r == clamp_spec(v, lo, hi),
{
    if v < lo { lo } else if v > hi { hi } else { v }
}

/// The selection that spans both `this` and `other`, with the caret at its
/// beginning if `other` begins before `this`, at its end otherwise.
pub open spec fn add_selections_spec(this: Selection, other: Selection) -> Selection {
    let lo = if this.spec_min() <= other.spec_min() { this.spec_min() } else { other.spec_min() };
    let hi = if this.spec_max() >= other.spec_max() { this.spec_max() } else { other.spec_max() };
    if other.spec_min() < this.spec_min() {
        Selection { start: hi, end: lo }
    } else {
        Selection { start: lo, end: hi }
    }
}

/// Merges two selections into one that spans both. If `other` begins before
/// `this`, the caret is placed at the beginning of the merged selection.
pub fn add_selections(this: Selection, other: Selection) -> (r: Selection)
    ensures
        r == add_selections_spec(this, other),
{
    let a = this.min();
    let b = other.min();
    let min = if a <= b { a } else { b };
    let c = this.max();
    let d = other.max();
    let max = if c >= d { c } else { d };
    if b < a {
        Selection { start: max, end: min }
    } else {
        Selection { start: min, end: max }
    }
}

} // verus!
