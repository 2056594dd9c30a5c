//! Closed numeric ranges over the fixed-point encoding, used for valid hit
//! distances and for colour clamping. `min > max` is a valid state and
//! represents an interval that contains nothing.

use vstd::prelude::*;

verus! {

#[derive(Clone, Copy, PartialEq, Eq, Structural, Debug)]
pub struct Interval {
    pub min: i64,
    pub max: i64,
}

/// Inclusive containment.
pub open spec fn contains_spec(min: int, max: int, x: int) -> bool {
    min <= x <= max
}

/// Strict containment, used for hit distances to avoid self-intersection.
pub open spec fn surrounds_spec(min: int, max: int, x: int) -> bool {
    min < x < max
}

/// Saturating clamp into `[min, max]`, exactly as the method computes it.
pub open spec fn clamp_spec(min: int, max: int, x: int) -> int {
    if x < min {
        min
    } else if x > max {
        max
    } else {
        x
    }
}

impl Interval {
    pub fn new(min: i64, max: i64) -> (r: Interval)
        ensures
            r.min == min,
            r.max == max,
    {
        Interval { min, max }
    }

    /// The sentinel that contains nothing: lower bound above every value,
    /// upper bound below every value.
    pub fn egpty() -> (r: Interval)
        ensures
            r.min == i64::MAX,
            r.max == i64::MIN,
            forall|x: int| !contains_spec(r.min as int, r.max as int, x),
    {
        Interval { min: i64::MAX, max: i64::MIN }
    }

    /// The sentinel that contains every representable value.
    pub fn universe() -> (r: Interval)
        ensures
            r.min == i64::MIN,
            r.max == i64::MAX,
            forall|x: i64| contains_spec(r.min as int, r.max as int, x as int),
    {
        Interval { min: i64::MIN, max: i64::MAX }
    }

    /// The extent `max - min`, negative for an interval that contains nothing.
    pub fn size(&self) -> (r: i128)
        ensures
            r == self.max - self.min,
    {
        (self.max as i128) - (self.min as i128)
    }

    pub fn contains(&self, x: i64) -> (r: bool)
        ensures
            r == contains_spec(self.min as int, self.max as int, x as int),
    {
        self.min <= x && x <= self.max
    }

    pub fn surrounds(&self, x: i64) -> (r: bool)
        ensures
            r == surrounds_spec(self.min as int, self.max as int, x as int),
    {
        self.min < x && x < self.max
    }

    pub fn clamp(&self, x: i64) -> (r: i64)
        ensures
            r == clamp_spec(self.min as int, self.max as int, x as int),
    {
        if x < self.min {
            return self.min;
        }
        if x > self.max {
            return self.max;
        }
        x
    }
}

/// For a well-formed interval, clamping is idempotent and always lands
/// inside `[min, max]`.
pub proof fn lemma_clamp_idempotent(min: int, max: int, x: int)
    requires
        min <= max,
    ensures
        clamp_spec(min, max, clamp_spec(min, max, x)) == clamp_spec(min, max, x),
        min <= clamp_spec(min, max, x) <= max,
{
}

} // verus!
