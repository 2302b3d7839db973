//! Counting the requests of each client in the current period.

use crate::rate_limiter::{ArgRateLimiter, RateLimiterStrategy};
use std::collections::HashMap;
use vstd::prelude::*;
use vstd::std_specs::hash::group_hash_axioms;

verus! {

/// The number of requests noted for `addr`.
pub open spec fn noted(requests: Map<u128, usize>, addr: u128) -> usize {
    if requests.dom().contains(addr) {
        requests[addr]
    } else {
        0
    }
}

/// One more than `n`, as far as the numbers go.
pub open spec fn one_more(n: usize) -> usize {
    if n < usize::MAX {
        (n + 1) as usize
    } else {
        n
    }
}

/// Allows each client a number of requests in a period.
pub struct Counter {
    limit: usize,
    requests: HashMap<u128, usize>,
}

impl View for Counter {
    type V = Map<u128, usize>;

    /// The number of requests noted for each client that made any.
    closed spec fn view(&self) -> Map<u128, usize> {
        self.requests@
    }
}

impl Counter {
    /// The number of requests that a client may make in one period.
    pub closed spec fn limit(&self) -> usize {
        self.limit
    }

    /// A counter that allows `limit` requests and has noted none.
    pub fn new(limit: usize) -> (counter: Counter)
        ensures
            counter.limit() == limit,
            counter@ == Map::<u128, usize>::empty(),
    {
        Counter { limit, requests: HashMap::new() }
    }

    /// Counts one more request of the client at `addr` and says whether
    /// the client is within its limit with it.
    pub fn register_request(&mut self, addr: u128) -> (allowed: bool)
        ensures
            final(self).limit() == old(self).limit(),
            final(self)@ == old(self)@.insert(addr, one_more(noted(old(self)@, addr))),
            allowed == (one_more(noted(old(self)@, addr)) <= old(self).limit()),
    {
        broadcast use group_hash_axioms;

        let before: usize = match self.requests.get(&addr) {
            Some(n) => *n,
            None => 0,
        };
        let count: usize = if before < usize::MAX {
            before + 1
        } else {
            before
        };
        self.requests.insert(addr, count);
        count <= self.limit
    }

    /// Forgets every request.
    pub fn clear(&mut self)
        ensures
            final(self).limit() == old(self).limit(),
            final(self)@ == Map::<u128, usize>::empty(),
    {
        broadcast use group_hash_axioms;

        self.requests.clear()
    }
}

impl RateLimiterStrategy for Counter {
    fn register_request(&mut self, addr: u128) -> (allowed: bool)
        ensures
            final(self).limit() == old(self).limit(),
            final(self)@ == old(self)@.insert(addr, one_more(noted(old(self)@, addr))),
            allowed == (one_more(noted(old(self)@, addr)) <= old(self).limit()),
    {
        Counter::register_request(self, addr)
    }

    fn refresh(&mut self)
        ensures
            final(self).limit() == old(self).limit(),
            final(self)@ == Map::<u128, usize>::empty(),
    {
        self.clear()
    }
}

/// The limiter that `limiter` names, with `max_requests_per_minute` as its
/// limit.
pub fn set_up_rate_limiter(limiter: ArgRateLimiter, max_requests_per_minute: usize) -> (counter:
    Counter)
    ensures
        counter.limit() == max_requests_per_minute,
        counter@ == Map::<u128, usize>::empty(),
{
    match limiter {
        ArgRateLimiter::Counter => Counter::new(max_requests_per_minute),
    }
}

} // verus!
