//! Choosing the server that the next connection goes to.

pub mod random;
pub mod round_robin;
pub mod upstreams;

use crate::load_balance::random::Random;
use crate::load_balance::round_robin::{first_place, next_alive, RoundRobin};
use crate::load_balance::upstreams::UpstreamsStatus;
use vstd::prelude::*;

verus! {

/// The ways of choosing that a user can ask for.
#[derive(Clone, Copy, Debug, PartialEq, Eq)]
pub enum ArgLoadBalance {
    Random,
    RoundRobin,
}

/// A way of choosing a server among those that are alive.
pub trait LoadBalanceStrategy {
    /// The index of a server that is alive, or `None` where none is.
    fn select_backend(&mut self, status: &UpstreamsStatus) -> (chosen: Option<usize>)
        requires
            status.wf(),
        ensures
            chosen is None <==> status.none_alive(),
            chosen matches Some(i) ==> i < status@.len() && status@[i as int],
    ;
}

/// One of the ways of choosing, picked when the program starts.
pub enum LoadBalancer {
    Random(Random),
    RoundRobin(RoundRobin),
}

impl LoadBalancer {
    /// The way of choosing that `arg` names, in its first state.
    pub fn from(arg: ArgLoadBalance) -> (balancer: LoadBalancer)
        ensures
            match arg {
                ArgLoadBalance::Random => balancer is Random,
                ArgLoadBalance::RoundRobin => balancer matches LoadBalancer::RoundRobin(r) && r@
                    == 0,
            },
    {
        match arg {
            ArgLoadBalance::Random => LoadBalancer::Random(Random::new()),
            ArgLoadBalance::RoundRobin => LoadBalancer::RoundRobin(RoundRobin::new()),
        }
    }
}

impl LoadBalanceStrategy for LoadBalancer {
    /// Chooses as the way of choosing that it holds does.
    fn select_backend(&mut self, status: &UpstreamsStatus) -> (chosen: Option<usize>)
        ensures
            *old(self) is Random == *final(self) is Random,
            *old(self) matches LoadBalancer::RoundRobin(before) ==> *final(self)
                matches LoadBalancer::RoundRobin(after) && match chosen {
                Some(i) => after@ == i && next_alive(
                    status@,
                    first_place(before@ as int, status@.len() as int),
                    i as int,
                ),
                None => after@ == before@,
            },
    {
        match self {
            LoadBalancer::Random(r) => r.select_backend(status),
            LoadBalancer::RoundRobin(r) => r.select_backend(status),
        }
    }
}

} // verus!
