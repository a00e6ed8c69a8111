//! Closed numeric ranges with inclusive and exclusive containment
//! tests, used to bound valid ray parameters.

use vstd::prelude::*;

use crate::fixed::FP_LIMIT;
use crate::fixed::Fp;
use crate::fixed::fp_sub_s;

verus! {

/// Spec model of an interval: two raw endpoint values.
pub struct IntervalV {
    pub min: int,
    pub max: int,
}

/// Inclusive containment at both ends.
pub open spec fn contains_s(i: IntervalV, x: int) -> bool {
    i.min <= x <= i.max
}

/// Exclusive containment at both ends, used for intersection roots to
/// keep a scattered ray from re-hitting the surface it just left.
pub open spec fn surrounds_s(i: IntervalV, x: int) -> bool {
    i.min < x < i.max
}

/// A range of scalar values.
#[derive(Clone, Copy, Debug, PartialEq, Eq, Structural)]
pub struct Interval {
    pub min: Fp,
    pub max: Fp,
}

impl View for Interval {
    type V = IntervalV;

    open spec fn view(&self) -> IntervalV {
        IntervalV { min: self.min@, max: self.max@ }
    }
}

impl Interval {
    /// Build an interval from its endpoints.
    pub fn new(min: Fp, max: Fp) -> (r: Interval)
        ensures
            r@ == (IntervalV { min: min@, max: max@ }),
    {
        Interval { min, max }
    }

    /// The interval that contains nothing: endpoints at the saturation
    /// extremes, maximum below minimum.
    pub fn empty() -> (r: Interval)
        ensures
            r@.min == FP_LIMIT as int && r@.max == -(FP_LIMIT as int),
    {
        Interval { min: Fp::max_value(), max: Fp::max_value().neg() }
    }

    /// The interval that contains every representable value.
    pub fn universe() -> (r: Interval)
        ensures
            r@.min == -(FP_LIMIT as int) && r@.max == FP_LIMIT as int,
    {
        Interval { min: Fp::max_value().neg(), max: Fp::max_value() }
    }

    /// The length `max - min`.
    pub fn size(&self) -> (r: Fp)
        ensures
            r@ == fp_sub_s(self@.max, self@.min),
    {
        self.max.sub(self.min)
    }

    /// Whether `x` lies within the interval, endpoints included.
    pub fn contains(&self, x: Fp) -> (r: bool)
        ensures
            r == contains_s(self@, x@),
    {
        self.min.le(x) && x.le(self.max)
    }

    /// Whether `x` lies strictly within the interval.
    pub fn surrounds(&self, x: Fp) -> (r: bool)
        ensures
            r == surrounds_s(self@, x@),
    {
        self.min.lt(x) && x.lt(self.max)
    }
}

} // verus!
