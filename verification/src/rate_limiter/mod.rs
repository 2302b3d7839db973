//! Limiting how many requests a client may make.

pub mod counter;

use vstd::prelude::*;

verus! {

/// The ways of limiting that a user can ask for.
#[derive(Clone, Copy, Debug, PartialEq, Eq)]
pub enum ArgRateLimiter {
    Counter,
}

/// A way of limiting the requests of each client. A client is named by
/// its address, written as a number.
pub trait RateLimiterStrategy {
    /// Takes note of a request of the client at `addr` and says whether it
    /// is within the limit.
    fn register_request(&mut self, addr: u128) -> bool;

    /// Starts a new period: all that was noted is forgotten.
    fn refresh(&mut self);
}

} // verus!
