//! Intervals of fixed-point numbers.

use crate::fixed::Fixed;
use vstd::prelude::*;

verus! {

/// The numbers from `min` to `max`. An interval whose `min` exceeds its `max`
/// holds no number.
#[derive(Clone, Copy, Debug, PartialEq, Eq, Structural)]
pub struct Interval {
    pub min: Fixed,
    pub max: Fixed,
}

impl Interval {
    pub open spec fn spec_empty() -> Interval {
        Interval { min: Fixed::spec_max_value(), max: Fixed::spec_min_value() }
    }

    pub open spec fn spec_universe() -> Interval {
        Interval { min: Fixed::spec_min_value(), max: Fixed::spec_max_value() }
    }

    pub open spec fn spec_size(self) -> Fixed {
        self.max.spec_sub(self.min)
    }

    /// Whether `x` lies in the interval, ends included.
    pub open spec fn spec_contains(self, x: Fixed) -> bool {
        self.min@ <= x@ <= self.max@
    }

    /// Whether `x` lies strictly inside the interval.
    pub open spec fn spec_surrounds(self, x: Fixed) -> bool {
        self.min@ < x@ < self.max@
    }

    /// The nearest to `x` of the numbers from `min` to `max`; `min` where the
    /// interval is empty and `x` is below it.
    pub open spec fn spec_clamp(self, x: Fixed) -> Fixed {
        if x@ < self.min@ {
            self.min
        } else if x@ > self.max@ {
            self.max
        } else {
            x
        }
    }

    pub fn new(min: Fixed, max: Fixed) -> (r: Interval)
        ensures
            r == (Interval { min, max }),
    {
        Interval { min, max }
    }

    pub fn size(&self) -> (r: Fixed)
        ensures
            r == self.spec_size(),
    {
        self.max.minus(self.min)
    }

    pub fn contains(&self, x: Fixed) -> (b: bool)
        ensures
            b == self.spec_contains(x),
    {
        self.min.le(x) && x.le(self.max)
    }

    pub fn surrounds(&self, x: Fixed) -> (b: bool)
        ensures
            b == self.spec_surrounds(x),
    {
        self.min.lt(x) && x.lt(self.max)
    }

    pub fn clamp(&self, x: Fixed) -> (r: Fixed)
        ensures
            r == self.spec_clamp(x),
            self.min@ <= self.max@ ==> self.spec_contains(r),
    {
        if x.lt(self.min) {
            return self.min;
        }
        if x.gt(self.max) {
            return self.max;
        }
        x
    }

    /// The interval that holds no number: from the largest number down to the
    /// smallest.
    pub fn empty() -> (r: Interval)
        ensures
            r == Interval::spec_empty(),
            forall|x: Fixed| !r.spec_contains(x),
    {
        proof {
            broadcast use Fixed::lemma_view_range;

        }
        Interval { min: Fixed::max_value(), max: Fixed::min_value() }
    }

    /// The interval that holds every number.
    pub fn universe() -> (r: Interval)
        ensures
            r == Interval::spec_universe(),
            forall|x: Fixed| r.spec_contains(x),
    {
        proof {
            broadcast use Fixed::lemma_view_range;

        }
        Interval { min: Fixed::min_value(), max: Fixed::max_value() }
    }
}

impl Default for Interval {
    /// The empty interval.
    fn default() -> (r: Interval)
        ensures
            r == Interval::spec_empty(),
    {
        Interval::empty()
    }
}

} // verus!
