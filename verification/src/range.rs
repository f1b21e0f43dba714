//! Half-open ranges `[start, end)`.

use vstd::prelude::*;
use vstd::std_specs::cmp::PartialOrdIs;
use vstd::std_specs::cmp::PartialOrdSpec;

verus! {

/// The half-open range `[start, end)`.
///
/// Nothing ties `start` to `end`: a range whose `end` is not above its
/// `start` simply contains nothing.
#[derive(Copy, Clone, PartialEq, Eq, Hash, Default, Debug)]
pub struct Range<T> {
    pub start: T,
    pub end: T,
}

impl<T> Range<T> {
    pub fn new(start: T, end: T) -> (r: Self)
        ensures
            r.start == start,
            r.end == end,
    {
        Range { start, end }
    }
}

impl<T: PartialOrd<T>> Range<T> {
    /// Whether `start <= i < end`, in the order of `T`.
    pub fn contains(&self, i: T) -> (r: bool)
        ensures
            T::obeys_partial_cmp_spec() ==> r == (self.start.is_le(&i) && i.is_lt(&self.end)),
    {
        self.start <= i && i < self.end
    }
}

impl Range<u64> {
    /// The addresses of the range, as a set.
    pub open spec fn view(&self) -> Set<int> {
        Set::new(|a: int| self.start <= a < self.end)
    }

    /// The range from `start` to the largest `u64`.
    pub fn from(start: u64) -> (r: Self)
        ensures
            r.start == start,
            r.end == u64::MAX,
    {
        Range { start, end: u64::MAX }
    }

    /// The range from zero up to `end`.
    pub fn to(end: u64) -> (r: Self)
        ensures
            r.start == 0,
            r.end == end,
    {
        Range { end, start: 0 }
    }

    /// The number of addresses in the range.
    pub fn len(&self) -> (r: u64)
        requires
            self.start <= self.end,
        ensures
            r == self.end - self.start,
            r == self@.len(),
    {
        proof {
            lemma_interval_len(self.start as int, self.end as int);
        }
        self.end - self.start
    }
}

impl Range<u32> {
    /// The range from `start` to the largest `u32`.
    pub fn from(start: u32) -> (r: Self)
        ensures
            r.start == start,
            r.end == u32::MAX,
    {
        Range { start, end: u32::MAX }
    }

    /// The range from zero up to `end`.
    pub fn to(end: u32) -> (r: Self)
        ensures
            r.start == 0,
            r.end == end,
    {
        Range { end, start: 0 }
    }

    /// The number of values in the range.
    pub fn len(&self) -> (r: u32)
        requires
            self.start <= self.end,
        ensures
            r == self.end - self.start,
    {
        self.end - self.start
    }
}

/// The integers of `[lo, hi)` form a finite set of `hi - lo` elements.
pub proof fn lemma_interval_len(lo: int, hi: int)
    requires
        lo <= hi,
    ensures
        Set::new(|a: int| lo <= a < hi).finite(),
        Set::new(|a: int| lo <= a < hi).len() == hi - lo,
    decreases hi - lo,
{
    let s = Set::new(|a: int| lo <= a < hi);
    if lo == hi {
        assert(s =~= Set::<int>::empty());
    } else {
        lemma_interval_len(lo, hi - 1);
        let t = Set::new(|a: int| lo <= a < hi - 1);
        assert(s =~= t.insert(hi - 1));
    }
}

} // verus!
