//! Fixed-window rate limiting for an HTTP API: the per-key limiter, the
//! policies that decide which keys a request is counted against, and the
//! compilation of stored policy definitions into runtime policies.

pub mod api;
pub mod builtin;
pub mod limiter;
pub mod metrics;
pub mod model;
pub mod policy;

use vstd::prelude::*;

verus! {

} // verus!
