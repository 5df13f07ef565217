//! Stored policy bookkeeping: the generation number of the policy table and
//! the selection of listed policies.

use vstd::prelude::*;

verus! {

/// The largest generation number that can be stored (the range of `i64`).
pub const MAX_GENERATION: u64 = 9_223_372_036_854_775_807;

/// A generation number: it starts at one and goes up by one at each change
/// of the data it versions, and never exceeds `MAX_GENERATION`.
#[derive(Clone, Copy, Debug, PartialEq, Eq)]
pub struct Generation(pub u64);

impl Generation {
    /// The first generation.
    pub fn new() -> (r: Self)
        ensures
            r.0 == 1,
    {
        Generation(1)
    }

    /// The generation after this one.
    pub fn next(&self) -> (r: Self)
        requires
            self.0 < MAX_GENERATION,
        ensures
            r.0 == self.0 + 1,
    {
        Generation(self.0 + 1)
    }
}

/// The single row that records the generation of the rate limit policies.
#[derive(Clone, Copy, Debug, PartialEq, Eq)]
pub struct RateLimitPolicyGeneration {
    pub singleton: bool,
    pub generation: Generation,
}

/// The generation of the policy table after the built-in policies were
/// stored: a new generation when any policy was inserted, the same one when
/// all of them were already there.
pub fn generation_after_builtin_load(inserted: usize, current: Generation) -> (r: Generation)
    requires
        inserted > 0 ==> current.0 < MAX_GENERATION,
    ensures
        r.0 == (if inserted > 0 {
            current.0 + 1
        } else {
            current.0 as int
        }),
{
    if inserted > 0 {
        current.next()
    } else {
        current
    }
}

/// Which stored policies a listing returns.
#[derive(Clone, Copy, Debug, PartialEq, Eq)]
pub enum RateLimitPolicyFilter {
    /// Every policy that has not been deleted.
    All,
    /// Every enabled policy that has not been deleted.
    EnabledOnly,
}

impl RateLimitPolicyFilter {
    /// Whether a policy that is `enabled` (or not) and `deleted` (or not) is
    /// listed under this filter. Deleted policies are never listed.
    pub fn includes(&self, enabled: bool, deleted: bool) -> (r: bool)
        ensures
            r == (!deleted && (*self == RateLimitPolicyFilter::All || enabled)),
    {
        match self {
            RateLimitPolicyFilter::All => !deleted,
            RateLimitPolicyFilter::EnabledOnly => !deleted && enabled,
        }
    }
}

} // verus!
