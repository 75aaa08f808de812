//! Closed intervals of order keys.

use vstd::prelude::*;
use crate::scalar::{Scalar, INFINITY, NEG_INFINITY};

verus! {

/// A closed interval `[min, max]` of keys: a window of distances along a ray,
/// or the extent of a box along one axis. It holds no key when `min > max`.
#[derive(Debug, Clone, Copy, PartialEq, Eq, Structural)]
pub struct Interval {
    pub min: Scalar,
    pub max: Scalar,
}

impl Interval {
    /// Whether `n` lies in the interval, ends included.
    pub open spec fn spec_contains(self, n: Scalar) -> bool {
        self.min <= n && n <= self.max
    }

    /// Whether the interval holds no key at all.
    pub open spec fn spec_is_empty(self) -> bool {
        self.min > self.max
    }

    /// Whether every key of `other` lies in `self`, stated on the ends: the
    /// lower end of `self` is not above that of `other`, and the upper end not
    /// below.
    pub open spec fn encloses(self, other: Interval) -> bool {
        self.min <= other.min && other.max <= self.max
    }

    /// The smallest interval that encloses both.
    pub open spec fn spec_from_intervals(a: Interval, b: Interval) -> Interval {
        Interval {
            min: if a.min <= b.min { a.min } else { b.min },
            max: if a.max >= b.max { a.max } else { b.max },
        }
    }

    /// The interval with `max` lowered to `bound`.
    pub open spec fn spec_capped(self, bound: Scalar) -> Interval {
        Interval { min: self.min, max: bound }
    }

    /// The interval from negative to positive infinity.
    pub open spec fn spec_universe() -> Interval {
        Interval { min: NEG_INFINITY, max: INFINITY }
    }

    /// The empty interval from positive to negative infinity: the neutral
    /// element of [`Interval::from_intervals`] among intervals of numbers.
    pub open spec fn spec_empty() -> Interval {
        Interval { min: INFINITY, max: NEG_INFINITY }
    }

    pub fn new(min: Scalar, max: Scalar) -> (r: Self)
        ensures
            r.min == min,
            r.max == max,
    {
        Interval { min, max }
    }

    /// The interval of all numbers.
    pub fn universe() -> (r: Self)
        ensures
            r == Self::spec_universe(),
    {
        Interval { min: NEG_INFINITY, max: INFINITY }
    }

    /// The union hull of two intervals.
    pub fn from_intervals(a: Self, b: Self) -> (r: Self)
        ensures
            r == Self::spec_from_intervals(a, b),
            r.encloses(a),
            r.encloses(b),
    {
        Interval {
            min: if a.min <= b.min { a.min } else { b.min },
            max: if a.max >= b.max { a.max } else { b.max },
        }
    }

    pub fn contains(&self, n: Scalar) -> (r: bool)
        ensures
            r == self.spec_contains(n),
    {
        self.min <= n && self.max >= n
    }

    /// The same interval with its upper end replaced.
    pub fn capped(&self, bound: Scalar) -> (r: Self)
        ensures
            r == self.spec_capped(bound),
    {
        Interval { min: self.min, max: bound }
    }
}

impl Default for Interval {
    /// The empty interval.
    fn default() -> (r: Self)
        ensures
            r == Interval::spec_empty(),
    {
        Interval { min: INFINITY, max: NEG_INFINITY }
    }
}

/// The hull of two intervals encloses each of them, and is the least interval
/// that does: whatever encloses both encloses the hull.
pub proof fn lemma_hull_is_least(a: Interval, b: Interval, c: Interval)
    ensures
        Interval::spec_from_intervals(a, b).encloses(a),
        Interval::spec_from_intervals(a, b).encloses(b),
        c.encloses(a) && c.encloses(b) ==> c.encloses(Interval::spec_from_intervals(a, b)),
{
}

} // verus!
