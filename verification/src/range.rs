//! Ranges of log indices.

use vstd::prelude::*;

verus! {

/// One end of a range of log indices.
#[derive(Clone, Copy, Debug, PartialEq, Eq, Structural)]
pub enum Bound {
    /// The range reaches the index and holds it.
    Included(u64),
    /// The range reaches the index and does not hold it.
    Excluded(u64),
    /// The range has no end on this side.
    Unbounded,
}

/// A contiguous range of log indices.
#[derive(Clone, Copy, Debug, PartialEq, Eq, Structural)]
pub struct LogRange {
    pub start: Bound,
    pub end: Bound,
}

impl LogRange {
    /// Whether `id` lies in the range.
    pub open spec fn spec_contains(&self, id: u64) -> bool {
        &&& match self.start {
            Bound::Included(s) => s <= id,
            Bound::Excluded(s) => s < id,
            Bound::Unbounded => true,
        }
        &&& match self.end {
            Bound::Included(e) => id <= e,
            Bound::Excluded(e) => id < e,
            Bound::Unbounded => true,
        }
    }

    /// The least index that the start of the range admits, if there is one.
    pub open spec fn spec_first(&self) -> Option<u64> {
        match self.start {
            Bound::Included(s) => Some(s),
            Bound::Excluded(s) => if s < u64::MAX {
                Some((s + 1) as u64)
            } else {
                None
            },
            Bound::Unbounded => Some(0u64),
        }
    }

    /// Whether `id` lies in the range.
    #[verifier::when_used_as_spec(spec_contains)]
    pub fn contains(&self, id: u64) -> (b: bool)
        ensures
            b == self.spec_contains(id),
    {
        let above = match self.start {
            Bound::Included(s) => s <= id,
            Bound::Excluded(s) => s < id,
            Bound::Unbounded => true,
        };
        let below = match self.end {
            Bound::Included(e) => id <= e,
            Bound::Excluded(e) => id < e,
            Bound::Unbounded => true,
        };
        above && below
    }

    /// The least index that the start of the range admits, if there is one.
    #[verifier::when_used_as_spec(spec_first)]
    pub fn first(&self) -> (first: Option<u64>)
        ensures
            first == self.spec_first(),
    {
        match self.start {
            Bound::Included(s) => Some(s),
            Bound::Excluded(s) => if s < u64::MAX {
                Some(s + 1)
            } else {
                None
            },
            Bound::Unbounded => Some(0),
        }
    }

    /// The start of a range admits exactly the indices from its first one on.
    pub proof fn lemma_first(self, id: u64)
        ensures
            self.spec_contains(id) ==> self.spec_first() is Some && self.spec_first()->Some_0 <= id,
            self.end is Unbounded && self.spec_first() is Some && self.spec_first()->Some_0 <= id
                ==> self.spec_contains(id),
    {
    }

    /// An index between the first index of a range and an index of the range
    /// lies in the range.
    pub proof fn lemma_below_member(self, mid: u64, high: u64)
        requires
            self.spec_first() is Some,
            self.spec_first()->Some_0 <= mid <= high,
            self.spec_contains(high),
        ensures
            self.spec_contains(mid),
    {
    }

    /// A range is an interval: with two indices it holds every index between them.
    pub proof fn lemma_interval(self, low: u64, mid: u64, high: u64)
        requires
            self.spec_contains(low),
            self.spec_contains(high),
            low <= mid <= high,
        ensures
            self.spec_contains(mid),
    {
    }
}

} // verus!
