//! Choosing in turn.

use crate::load_balance::upstreams::UpstreamsStatus;
use crate::load_balance::LoadBalanceStrategy;
use vstd::prelude::*;

verus! {

/// How far server `k` is behind place `start` when the `n` servers are
/// gone through in a circle.
pub open spec fn turn(start: int, k: int, n: int) -> int {
    if k >= start {
        k - start
    } else {
        k + n - start
    }
}

/// The place at which the search starts: one behind the server that was
/// chosen last.
pub open spec fn first_place(last: int, n: int) -> int {
    (last % n + 1) % n
}

/// Server `i` is the next one alive from `start` on, going in a circle.
pub open spec fn next_alive(status: Seq<bool>, start: int, i: int) -> bool {
    &&& 0 <= i < status.len()
    &&& status[i]
    &&& forall|k: int|
        0 <= k < status.len() && status[k] ==> turn(start, i, status.len() as int) <= turn(
            start,
            k,
            status.len() as int,
        )
}

/// Chooses the servers one after the other.
pub struct RoundRobin {
    rrc: usize,
}

impl View for RoundRobin {
    type V = usize;

    /// The server that was chosen last.
    closed spec fn view(&self) -> usize {
        self.rrc
    }
}

impl RoundRobin {
    /// A chooser in turn that starts behind server 0.
    pub fn new() -> (r: RoundRobin)
        ensures
            r@ == 0,
    {
        RoundRobin { rrc: 0 }
    }

    fn first_from(status: &UpstreamsStatus, from: usize, to: usize) -> (found: Option<usize>)
        requires
            from <= to <= status@.len(),
        ensures
            match found {
                Some(i) => from <= i < to && status@[i as int] && forall|k: int|
                    from <= k < i ==> !status@[k],
                None => forall|k: int| from <= k < to ==> !status@[k],
            },
    {
        let mut i: usize = from;
        while i < to
            invariant
                from <= i <= to <= status@.len(),
                forall|k: int| from <= k < i ==> !status@[k],
            decreases to - i,
        {
            if status.is_alive(i) {
                return Some(i);
            }
            i += 1;
        }
        None
    }
}

impl LoadBalanceStrategy for RoundRobin {
    /// Takes the next server that is alive behind the one that was chosen
    /// last, going through the servers in a circle, and remembers it.
    fn select_backend(&mut self, status: &UpstreamsStatus) -> (chosen: Option<usize>)
        ensures
            chosen is None ==> final(self)@ == old(self)@,
            chosen matches Some(i) ==> final(self)@ == i && next_alive(
                status@,
                first_place(old(self)@ as int, status@.len() as int),
                i as int,
            ),
    {
        if status.all_dead() {
            return None;
        }
        let n: usize = status.len();
        let start: usize = (self.rrc % n + 1) % n;
        let found: Option<usize> = match Self::first_from(status, start, n) {
            Some(i) => Some(i),
            None => Self::first_from(status, 0, start),
        };
        match found {
            Some(i) => {
                self.rrc = i;
            },
            None => {},
        }
        found
    }
}

} // verus!
