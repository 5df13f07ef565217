//! The public shapes of rate limit policy parts, as stored and as shown by
//! the API.

use vstd::prelude::*;

verus! {

/// How a policy selects the requests it applies to.
#[derive(Clone, Debug, PartialEq, Eq)]
pub enum RateLimitMatcher {
    Endpoint { any_of: Vec<String> },
    HttpMethod { any_of: Vec<String> },
    Global,
}

/// A piece of the key that a policy counts a request against.
#[derive(Clone, Debug, PartialEq, Eq)]
pub enum RateLimitKeyPart {
    Literal { value: String },
    Endpoint,
    HttpMethod,
}

/// A policy's quota: `limit` requests per `window_seconds` seconds.
#[derive(Clone, Debug, PartialEq, Eq)]
pub struct RateLimitQuota {
    pub limit: u64,
    pub window_seconds: u64,
}

} // verus!
