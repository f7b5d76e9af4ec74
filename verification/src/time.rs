//! Discrete time model: a monotone integer interval index. A checkpoint
//! defines the state at a base interval; transitions advance the state from
//! interval `t` to interval `t + 1`.

use vstd::prelude::*;

verus! {

/// Absolute, monotonically increasing discrete time index.
#[derive(Debug, Clone, Copy, PartialEq, Eq, PartialOrd, Ord, Hash, Default, Structural)]
pub struct Interval(pub u64);

impl Interval {
    /// Interval zero, the origin of every timeline.
    #[allow(non_snake_case)]
    pub fn ZERO() -> (r: Interval)
        ensures
            r.0 == 0,
    {
        Interval(0)
    }

    /// The successor interval.
    pub fn next(self) -> (r: Interval)
        requires
            self.0 < u64::MAX,
        ensures
            r.0 == self.0 + 1,
    {
        Interval(self.0 + 1)
    }

    /// Integer difference `self − other` when `self ≥ other`.
    pub fn checked_sub(self, other: Interval) -> (r: Option<u64>)
        ensures
            r == if self.0 >= other.0 {
                Some((self.0 - other.0) as u64)
            } else {
                None::<u64>
            },
    {
        self.0.checked_sub(other.0)
    }

    /// Value.
    pub fn value(self) -> (r: u64)
        ensures
            r == self.0,
    {
        self.0
    }
}

} // verus!
