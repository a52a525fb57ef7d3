//! Layout vocabulary: axes, layout modes and alignment.

use vstd::prelude::*;

verus! {

/// Physical axis of a layout.
#[derive(Clone, Copy, Debug, PartialEq, Eq, Hash, Structural)]
pub enum Axis {
    Vertical,
    Horizontal,
}

impl Axis {
    pub open spec fn spec_cross(self) -> Axis {
        match self {
            Axis::Horizontal => Axis::Vertical,
            Axis::Vertical => Axis::Horizontal,
        }
    }

    /// The other axis.
    pub fn cross(&self) -> (r: Axis)
        ensures
            r == self.spec_cross(),
    {
        match self {
            Axis::Horizontal => Axis::Vertical,
            Axis::Vertical => Axis::Horizontal,
        }
    }
}

impl Default for Axis {
    fn default() -> (r: Axis)
        ensures
            r == Axis::Vertical,
    {
        Axis::Vertical
    }
}

/// Crossing twice gives back the axis one started from, and an axis is never
/// its own cross axis.
pub proof fn lemma_cross_involution(a: Axis)
    ensures
        a.spec_cross().spec_cross() == a,
        a.spec_cross() != a,
{
}

/// Whether a layout pass only measures, or also places children.
#[derive(Copy, Clone, Debug, PartialEq, Eq, Structural)]
pub enum LayoutMode {
    Measure,
    Place,
}

/// Slots of a layout cache.
#[derive(Copy, Clone, Debug, Eq, PartialEq, Ord, PartialOrd, Structural)]
pub enum LayoutCacheEntry {
    /// Width and height specified and finite.
    FullySpecified,
    /// Infinite width, any height.
    WidthInfinite,
    /// Number of slots; not a slot itself.
    Count,
}

impl LayoutCacheEntry {
    /// Index of the slot in the cache.
    pub fn index(&self) -> (r: usize)
        ensures
            r == (match self {
                LayoutCacheEntry::FullySpecified => 0usize,
                LayoutCacheEntry::WidthInfinite => 1usize,
                LayoutCacheEntry::Count => 2usize,
            }),
    {
        match self {
            LayoutCacheEntry::FullySpecified => 0,
            LayoutCacheEntry::WidthInfinite => 1,
            LayoutCacheEntry::Count => 2,
        }
    }
}

/// Alignment of flex children along the cross axis.
#[derive(Copy, Clone, Debug, PartialEq, Eq, Hash, Ord, PartialOrd, Structural)]
pub enum CrossAxisAlignment {
    Start,
    End,
    Center,
    Stretch,
    Baseline,
}

impl Default for CrossAxisAlignment {
    fn default() -> (r: CrossAxisAlignment)
        ensures
            r == CrossAxisAlignment::Start,
    {
        CrossAxisAlignment::Start
    }
}

} // verus!
