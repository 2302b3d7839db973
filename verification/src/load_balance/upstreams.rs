//! Which of the servers are alive.

use vstd::prelude::*;

verus! {

/// How many entries of `s` are true.
pub open spec fn alive_count(s: Seq<bool>) -> nat
    decreases s.len(),
{
    if s.len() == 0 {
        0
    } else {
        alive_count(s.drop_last()) + (if s.last() {
            1nat
        } else {
            0nat
        })
    }
}

/// A count of zero means that no entry is true, and the other way round.
pub proof fn lemma_none_alive(s: Seq<bool>)
    ensures
        alive_count(s) == 0 <==> (forall|i: int| 0 <= i < s.len() ==> !s[i]),
        alive_count(s) <= s.len(),
    decreases s.len(),
{
    if s.len() > 0 {
        lemma_none_alive(s.drop_last());
        if alive_count(s) == 0 {
            assert forall|i: int| 0 <= i < s.len() implies !s[i] by {
                if i < s.len() - 1 {
                    assert(s.drop_last()[i] == s[i]);
                }
            }
        } else if forall|i: int| 0 <= i < s.len() ==> !s[i] {
            assert forall|i: int| 0 <= i < s.drop_last().len() implies !s.drop_last()[i] by {
                assert(s.drop_last()[i] == s[i]);
            }
        }
    }
}

/// Changing one entry changes the count by one, or not at all.
pub proof fn lemma_count_update(s: Seq<bool>, i: int, alive: bool)
    requires
        0 <= i < s.len(),
    ensures
        alive_count(s.update(i, alive)) == alive_count(s) - (if s[i] {
            1int
        } else {
            0int
        }) + (if alive {
            1int
        } else {
            0int
        }),
    decreases s.len(),
{
    let t = s.update(i, alive);
    if i == s.len() - 1 {
        assert(t.drop_last() =~= s.drop_last());
    } else {
        lemma_count_update(s.drop_last(), i, alive);
        assert(t.drop_last() =~= s.drop_last().update(i, alive));
    }
}

/// The count of a longer piece is the count of the piece and of what was
/// added.
pub proof fn lemma_count_step(s: Seq<bool>, i: int)
    requires
        0 <= i < s.len(),
    ensures
        alive_count(s.take(i + 1)) == alive_count(s.take(i)) + (if s[i] {
            1nat
        } else {
            0nat
        }),
{
    assert(s.take(i + 1).drop_last() =~= s.take(i));
}

/// The state of each server, with the number of those that are alive.
pub struct UpstreamsStatus {
    counts: usize,
    status: Vec<bool>,
}

impl View for UpstreamsStatus {
    type V = Seq<bool>;

    closed spec fn view(&self) -> Seq<bool> {
        self.status@
    }
}

impl UpstreamsStatus {
    /// The number that is kept is the number of servers that are alive.
    pub closed spec fn wf(&self) -> bool {
        self.counts == alive_count(self.status@)
    }

    /// No server is alive.
    pub open spec fn none_alive(&self) -> bool {
        forall|i: int| 0 <= i < self@.len() ==> !self@[i]
    }

    /// `counts` servers, all of them alive.
    pub fn new(counts: usize) -> (status: UpstreamsStatus)
        ensures
            status.wf(),
            status@.len() == counts,
            forall|i: int| 0 <= i < counts ==> status@[i],
    {
        let mut status: Vec<bool> = Vec::new();
        let mut i: usize = 0;
        while i < counts
            invariant
                i <= counts,
                status@.len() == i,
                alive_count(status@) == i,
                forall|k: int| 0 <= k < i ==> status@[k],
            decreases counts - i,
        {
            proof {
                assert(status@.push(true).drop_last() =~= status@);
            }
            status.push(true);
            i += 1;
        }
        UpstreamsStatus { counts, status }
    }

    /// The number of servers.
    pub fn len(&self) -> (n: usize)
        ensures
            n == self@.len(),
    {
        self.status.len()
    }

    /// The number of servers that are alive.
    pub fn alive(&self) -> (n: usize)
        requires
            self.wf(),
        ensures
            n == alive_count(self@),
    {
        self.counts
    }

    /// Whether server `idx` is alive.
    pub fn is_alive(&self, idx: usize) -> (alive: bool)
        requires
            idx < self@.len(),
        ensures
            alive == self@[idx as int],
    {
        self.status[idx]
    }

    /// Whether no server is alive.
    pub fn all_dead(&self) -> (dead: bool)
        requires
            self.wf(),
        ensures
            dead == self.none_alive(),
    {
        proof {
            assert(self@ == self.status@);
            lemma_none_alive(self@);
        }
        self.counts == 0
    }

    /// Notes that server `idx` is alive.
    pub fn set_up(&mut self, idx: usize)
        requires
            old(self).wf(),
            idx < old(self)@.len(),
        ensures
            final(self).wf(),
            final(self)@ == old(self)@.update(idx as int, true),
    {
        if !self.is_alive(idx) {
            proof {
                lemma_count_update(self.status@, idx as int, true);
                lemma_none_alive(self.status@.update(idx as int, true));
                assert(self.status@.len() == self.status.len());
            }
            self.counts += 1;
            self.status.set(idx, true);
        } else {
            assert(self.status@ =~= self.status@.update(idx as int, true));
        }
    }

    /// Notes that server `idx` is dead.
    pub fn set_down(&mut self, idx: usize)
        requires
            old(self).wf(),
            idx < old(self)@.len(),
        ensures
            final(self).wf(),
            final(self)@ == old(self)@.update(idx as int, false),
    {
        if self.is_alive(idx) {
            proof {
                lemma_count_update(self.status@, idx as int, false);
            }
            self.counts -= 1;
            self.status.set(idx, false);
        } else {
            assert(self.status@ =~= self.status@.update(idx as int, false));
        }
    }

    /// The index of the server that has exactly `k` servers alive before
    /// it and is alive itself.
    pub fn nth_alive(&self, k: usize) -> (idx: usize)
        requires
            self.wf(),
            k < alive_count(self@),
        ensures
            idx < self@.len(),
            self@[idx as int],
            alive_count(self@.take(idx as int)) == k,
    {
        let mut seen: usize = 0;
        let mut i: usize = 0;
        proof {
            assert(self.status@.take(self.status@.len() as int) =~= self.status@);
        }
        while i < self.status.len()
            invariant
                i <= self.status@.len(),
                seen == alive_count(self.status@.take(i as int)),
                seen <= k,
                k < alive_count(self.status@),
            decreases self.status@.len() - i,
        {
            proof {
                lemma_count_step(self.status@, i as int);
            }
            if self.status[i] {
                if seen == k {
                    return i;
                }
                seen += 1;
            }
            i += 1;
        }
        proof {
            // All servers have been seen and fewer than `k + 1` of them are
            // alive: this cannot be.
            assert(self.status@.take(i as int) =~= self.status@);
        }
        0
    }
}

} // verus!
