//! A 64-bit value that is never the all-ones bit pattern.
//!
//! Bucket tables reserve `u64::MAX` as their "empty slot" marker, so every
//! hash summary handed to them must avoid that one bit pattern. The
//! reservation is enforced here, centrally, by the `NonMaximalU64` type
//! itself rather than re-checked by every consumer.

use vstd::prelude::*;

verus! {

/// What `NonMaximalU64::fit` maps an arbitrary 64-bit value to: every value
/// is shifted down by one, saturating at zero. The remapping is stable (the
/// same input always yields the same output) and its range excludes
/// `u64::MAX`.
pub open spec fn fit_to_non_maximal(value: u64) -> u64 {
    if value == 0 {
        0
    } else {
        (value - 1) as u64
    }
}

/// A `u64` that is guaranteed to differ from `u64::MAX`.
#[derive(Clone, Copy, Debug, Hash, PartialEq, Eq, Structural)]
pub struct NonMaximalU64 {
    value: u64,
}

impl NonMaximalU64 {
    /// The reserved sentinel never appears as the payload.
    #[verifier::type_invariant]
    spec fn sentinel_excluded(self) -> bool {
        self.value != u64::MAX
    }

    /// The payload, for use in specifications.
    pub closed spec fn spec_get(self) -> u64 {
        self.value
    }

    /// Wraps `value` exactly when it is not the reserved sentinel.
    pub fn new(value: u64) -> (r: Option<Self>)
        ensures
            value == u64::MAX <==> r is None,
            r matches Some(n) ==> n.spec_get() == value,
    {
        if value == u64::MAX {
            None
        } else {
            Some(NonMaximalU64 { value })
        }
    }

    /// Remaps an arbitrary value into the non-maximal range.
    pub fn fit(value: u64) -> (r: Self)
        ensures
            r.spec_get() == fit_to_non_maximal(value),
    {
        NonMaximalU64 { value: value.saturating_sub(1) }
    }

    /// The wrapped value; never the reserved sentinel.
    pub fn get(&self) -> (r: u64)
        ensures
            r == self.spec_get(),
            r != u64::MAX,
    {
        proof {
            use_type_invariant(self);
        }
        self.value
    }
}

} // verus!
