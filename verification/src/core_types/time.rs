//! Simulated time spans with nanosecond resolution.

use vstd::prelude::*;

verus! {

/// Largest representable span: `u64::MAX` seconds plus 999 999 999 nanoseconds.
pub open spec fn max_nanos() -> int {
    18_446_744_073_709_551_615_999_999_999int
}

/// A span of simulated time measured in nanoseconds.
#[derive(Clone, Copy, Debug, PartialEq, Eq, Hash, PartialOrd, Ord)]
pub struct Duration {
    nanos: u128,
}

impl Duration {
    #[verifier::type_invariant]
    spec fn well_formed(self) -> bool {
        self.nanos <= max_nanos()
    }

    /// Length of the span in nanoseconds.
    pub closed spec fn spec_nanos(self) -> int {
        self.nanos as int
    }

    /// A span's length is never negative.
    pub proof fn lemma_nanos_nonnegative(&self)
        ensures
            0 <= self.spec_nanos(),
    {
    }

    /// The empty span.
    pub fn zero() -> (d: Self)
        ensures
            d.spec_nanos() == 0,
    {
        Self { nanos: 0 }
    }

    /// A span of whole seconds.
    pub fn from_secs(secs: u64) -> (d: Self)
        ensures
            d.spec_nanos() == secs * 1_000_000_000,
    {
        Self { nanos: secs as u128 * 1_000_000_000 }
    }

    /// A span of whole milliseconds.
    pub fn from_millis(millis: u64) -> (d: Self)
        ensures
            d.spec_nanos() == millis * 1_000_000,
    {
        Self { nanos: millis as u128 * 1_000_000 }
    }

    /// A span of whole microseconds.
    pub fn from_micros(micros: u64) -> (d: Self)
        ensures
            d.spec_nanos() == micros * 1_000,
    {
        Self { nanos: micros as u128 * 1_000 }
    }

    /// A span of nanoseconds.
    pub fn from_nanos(nanos: u64) -> (d: Self)
        ensures
            d.spec_nanos() == nanos,
    {
        Self { nanos: nanos as u128 }
    }

    /// Length of the span in nanoseconds.
    pub fn as_nanos(&self) -> (r: u128)
        ensures
            r == self.spec_nanos(),
    {
        self.nanos
    }

    /// Whole milliseconds contained in the span (rounded down).
    pub fn as_millis(&self) -> (r: u128)
        ensures
            r == self.spec_nanos() / 1_000_000,
    {
        self.nanos / 1_000_000
    }

    /// Reports whether the span is empty.
    pub fn is_zero(&self) -> (b: bool)
        ensures
            b == (self.spec_nanos() == 0),
    {
        self.nanos == 0
    }

    /// Sum of two spans, clamped to the largest representable span.
    pub fn saturating_add(self, other: Self) -> (d: Self)
        ensures
            d.spec_nanos() == if self.spec_nanos() + other.spec_nanos() > max_nanos() {
                max_nanos()
            } else {
                self.spec_nanos() + other.spec_nanos()
            },
    {
        proof {
            use_type_invariant(&self);
            use_type_invariant(&other);
        }
        let limit: u128 = 18_446_744_073_709_551_615u128 * 1_000_000_000u128 + 999_999_999u128;
        if self.nanos > limit - other.nanos {
            Self { nanos: limit }
        } else {
            Self { nanos: self.nanos + other.nanos }
        }
    }

    /// Difference of two spans, clamped at zero.
    pub fn saturating_sub(self, other: Self) -> (d: Self)
        ensures
            d.spec_nanos() == if self.spec_nanos() >= other.spec_nanos() {
                self.spec_nanos() - other.spec_nanos()
            } else {
                0
            },
    {
        proof {
            use_type_invariant(&self);
        }
        if self.nanos >= other.nanos {
            Self { nanos: self.nanos - other.nanos }
        } else {
            Self { nanos: 0 }
        }
    }

    /// Reports whether this span is at least as long as `other`.
    pub fn at_least(&self, other: &Self) -> (b: bool)
        ensures
            b == (self.spec_nanos() >= other.spec_nanos()),
    {
        self.nanos >= other.nanos
    }

    /// The longer of two spans.
    pub fn max(self, other: Self) -> (d: Self)
        ensures
            d.spec_nanos() == if self.spec_nanos() >= other.spec_nanos() {
                self.spec_nanos()
            } else {
                other.spec_nanos()
            },
    {
        if self.nanos >= other.nanos {
            self
        } else {
            other
        }
    }
}

} // verus!
