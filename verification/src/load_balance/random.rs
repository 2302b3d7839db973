//! Choosing by chance.

use crate::load_balance::upstreams::{lemma_none_alive, UpstreamsStatus};
use crate::load_balance::LoadBalanceStrategy;
use rand::rngs::StdRng;
use rand::{Rng, SeedableRng};
use vstd::prelude::*;

verus! {

/// `StdRng` of the crate `rand`: a generator of random numbers. Nothing is
/// known of what is inside.
#[verifier::external_type_specification]
#[verifier::external_body]
pub struct ExStdRng(StdRng);

/// `StdRng::from_entropy` of the crate `rand`: a generator that is seeded
/// from the operating system. Nothing is claimed of it. (It panics where
/// the operating system has no random bytes to give.)
#[verifier::external_body]
fn seeded() -> (rng: StdRng) {
    StdRng::from_entropy()
}

/// `Rng::gen_range` of the crate `rand`, called with the range from 0 up
/// to, but not including, `n`. It panics on an empty range, so `n` is not
/// 0; what it returns lies in the range. Which number of the range comes
/// is left open.
#[verifier::external_body]
fn draw_below(rng: &mut StdRng, n: usize) -> (k: usize)
    requires
        n > 0,
    ensures
        k < n,
{
    rng.gen_range(0..n)
}

/// Chooses by chance, each server that is alive as likely as the others.
pub struct Random {}

impl Random {
    /// A chooser by chance; it has no state.
    pub fn new() -> Random {
        Random {  }
    }
}

impl LoadBalanceStrategy for Random {
    /// Draws a number below the number of servers that are alive and
    /// takes the server at that place among them.
    fn select_backend(&mut self, status: &UpstreamsStatus) -> (chosen: Option<usize>) {
        if status.all_dead() {
            return None;
        }
        proof {
            lemma_none_alive(status@);
        }
        let mut rng: StdRng = seeded();
        let k: usize = draw_below(&mut rng, status.alive());
        Some(status.nth_alive(k))
    }
}

} // verus!
