//! The table of planted breakpoints and the set of breakpoints that wait for
//! a process to be planted in.

use vstd::prelude::*;

verus! {

/// One planted breakpoint: where the trap byte sits and which byte it
/// replaced.
#[derive(Clone, Copy, Debug, PartialEq, Eq)]
pub struct Breakpoint {
    pub addr: u64,
    pub orig_byte: u8,
}

/// `addr` occurs among the addresses of `s`.
pub open spec fn holds(s: Seq<Breakpoint>, addr: u64) -> bool {
    exists|i: int| 0 <= i < s.len() && (#[trigger] s[i]).addr == addr
}

/// Where `addr` stands in `s` (meaningful when `holds(s, addr)`).
pub open spec fn position(s: Seq<Breakpoint>, addr: u64) -> int {
    choose|i: int| 0 <= i < s.len() && (#[trigger] s[i]).addr == addr
}

/// The byte recorded for `addr` (meaningful when `holds(s, addr)`).
pub open spec fn saved_byte(s: Seq<Breakpoint>, addr: u64) -> u8 {
    s[position(s, addr)].orig_byte
}

/// No address occurs twice.
pub open spec fn distinct(s: Seq<Breakpoint>) -> bool {
    forall|i: int, j: int|
        0 <= i < j < s.len() ==> (#[trigger] s[i]).addr != (#[trigger] s[j]).addr
}

/// `s` with the entry for `addr` taken out, the others in their order.
pub open spec fn without(s: Seq<Breakpoint>, addr: u64) -> Seq<Breakpoint> {
    if holds(s, addr) {
        s.remove(position(s, addr))
    } else {
        s
    }
}

/// `s` with an entry for `addr` at its end, unless it has one already.
pub open spec fn with_entry(s: Seq<Breakpoint>, addr: u64, orig_byte: u8) -> Seq<Breakpoint> {
    if holds(s, addr) {
        s
    } else {
        s.push(Breakpoint { addr, orig_byte })
    }
}

/// The table as a map from address to the byte that the trap replaced.
pub open spec fn as_map(s: Seq<Breakpoint>) -> Map<u64, u8> {
    Map::new(|a: u64| holds(s, a), |a: u64| saved_byte(s, a))
}

/// A table with one more entry has the addresses that it had and the new
/// one.
pub proof fn lemma_holds_push(s: Seq<Breakpoint>, b: Breakpoint, addr: u64)
    ensures
        holds(s.push(b), addr) <==> (holds(s, addr) || b.addr == addr),
{
    let t = s.push(b);
    if holds(s, addr) {
        let i = position(s, addr);
        assert(t[i].addr == addr);
    }
    if b.addr == addr {
        assert(t[s.len() as int].addr == addr);
    }
    if holds(t, addr) {
        let i = position(t, addr);
        if i < s.len() {
            assert(s[i].addr == addr);
        }
    }
}

/// A new entry for an address that has none keeps the addresses apart
/// and the bytes of the other entries as they are.
pub proof fn lemma_distinct_push(s: Seq<Breakpoint>, b: Breakpoint)
    requires
        distinct(s),
        !holds(s, b.addr),
    ensures
        distinct(s.push(b)),
        saved_byte(s.push(b), b.addr) == b.orig_byte,
        forall|a: u64| holds(s, a) ==> saved_byte(s.push(b), a) == saved_byte(s, a),
{
    let t = s.push(b);
    assert forall|i: int, j: int| 0 <= i < j < t.len() implies (#[trigger] t[i]).addr != (
    #[trigger] t[j]).addr by {
        if j == s.len() {
            assert(s[i].addr != b.addr);
        } else {
            assert(s[i].addr != s[j].addr);
        }
    }
    assert(t[s.len() as int].addr == b.addr);
    lemma_position_unique(t, b.addr, s.len() as int);
    assert forall|a: u64| holds(s, a) implies saved_byte(t, a) == saved_byte(s, a) by {
        let i = position(s, a);
        assert(t[i].addr == a);
        lemma_position_unique(t, a, i);
    }
}

/// In a table without duplicates an address stands at one place only.
pub proof fn lemma_position_unique(s: Seq<Breakpoint>, addr: u64, i: int)
    requires
        distinct(s),
        0 <= i < s.len(),
        s[i].addr == addr,
    ensures
        holds(s, addr),
        position(s, addr) == i,
        saved_byte(s, addr) == s[i].orig_byte,
{
    let p = position(s, addr);
    if p < i {
        assert(s[p].addr != s[i].addr);
    } else if i < p {
        assert(s[i].addr != s[p].addr);
    }
}

/// Taking an entry out leaves the other entries as they are.
pub proof fn lemma_without(s: Seq<Breakpoint>, addr: u64)
    requires
        distinct(s),
    ensures
        distinct(without(s, addr)),
        !holds(without(s, addr), addr),
        forall|a: u64| a != addr ==> (holds(without(s, addr), a) <==> holds(s, a)),
        forall|a: u64|
            a != addr && holds(s, a) ==> saved_byte(without(s, addr), a) == saved_byte(s, a),
{
    let t = without(s, addr);
    if holds(s, addr) {
        let p = position(s, addr);
        assert forall|i: int, j: int| 0 <= i < j < t.len() implies (#[trigger] t[i]).addr != (
        #[trigger] t[j]).addr by {
            let si = if i < p { i } else { i + 1 };
            let sj = if j < p { j } else { j + 1 };
            assert(s[si].addr != s[sj].addr);
        }
        if holds(t, addr) {
            let q = position(t, addr);
            let sq = if q < p { q } else { q + 1 };
            assert(s[sq].addr == addr);
            if sq < p {
                assert(s[sq].addr != s[p].addr);
            } else {
                assert(s[p].addr != s[sq].addr);
            }
        }
        assert forall|a: u64| a != addr implies (holds(t, a) <==> holds(s, a)) by {
            if holds(t, a) {
                let q = position(t, a);
                let sq = if q < p { q } else { q + 1 };
                assert(s[sq].addr == a);
            }
            if holds(s, a) {
                let q = position(s, a);
                let tq = if q < p { q } else { q - 1 };
                assert(t[tq].addr == a);
            }
        }
        assert forall|a: u64| a != addr && holds(s, a) implies saved_byte(t, a) == saved_byte(
            s,
            a,
        ) by {
            let q = position(s, a);
            let tq = if q < p { q } else { q - 1 };
            assert(t[tq] == s[q]);
            lemma_position_unique(t, a, tq);
        }
    }
}

/// Taking out the entry that was added last gives the table back.
pub proof fn lemma_without_pushed(s: Seq<Breakpoint>, b: Breakpoint)
    requires
        distinct(s),
        !holds(s, b.addr),
    ensures
        without(s.push(b), b.addr) == s,
{
    let t = s.push(b);
    lemma_distinct_push(s, b);
    assert(t[s.len() as int].addr == b.addr);
    lemma_position_unique(t, b.addr, s.len() as int);
    assert(t.remove(s.len() as int) =~= s);
}

/// The table is a map from addresses to bytes: a new entry adds a key,
/// and taking an entry out removes its key, while the other keys keep their
/// bytes.
pub proof fn law_table_is_a_map(s: Seq<Breakpoint>, addr: u64, orig_byte: u8)
    requires
        distinct(s),
    ensures
        as_map(with_entry(s, addr, orig_byte)) == (if holds(s, addr) {
            as_map(s)
        } else {
            as_map(s).insert(addr, orig_byte)
        }),
        as_map(without(s, addr)) == as_map(s).remove(addr),
{
    let b = Breakpoint { addr, orig_byte };
    if !holds(s, addr) {
        lemma_distinct_push(s, b);
        assert forall|a: u64| holds(s.push(b), a) <==> (holds(s, a) || a == addr) by {
            lemma_holds_push(s, b, a);
        }
        assert(as_map(s.push(b)) =~= as_map(s).insert(addr, orig_byte));
    }
    lemma_without(s, addr);
    assert(as_map(without(s, addr)) =~= as_map(s).remove(addr));
}

/// Active breakpoints, one entry per address, in the order in which they
/// were planted.
pub struct BreakpointTable {
    entries: Vec<Breakpoint>,
}

impl View for BreakpointTable {
    type V = Seq<Breakpoint>;

    closed spec fn view(&self) -> Seq<Breakpoint> {
        self.entries@
    }
}

impl BreakpointTable {
    /// Every address has at most one entry.
    pub open spec fn wf(&self) -> bool {
        distinct(self@)
    }

    /// A table without entries.
    pub fn new() -> (table: BreakpointTable)
        ensures
            table@ == Seq::<Breakpoint>::empty(),
            table.wf(),
    {
        BreakpointTable { entries: Vec::new() }
    }

    /// Number of entries; the next entry gets this number as its index.
    pub fn len(&self) -> (n: usize)
        ensures
            n == self@.len(),
    {
        self.entries.len()
    }

    /// The entry that was planted as number `index`.
    pub fn entry(&self, index: usize) -> (b: Breakpoint)
        requires
            index < self@.len(),
        ensures
            b == self@[index as int],
    {
        self.entries[index]
    }

    fn find(&self, addr: u64) -> (found: Option<usize>)
        ensures
            match found {
                Some(i) => i < self@.len() && self@[i as int].addr == addr,
                None => !holds(self@, addr),
            },
    {
        let mut i: usize = 0;
        while i < self.entries.len()
            invariant
                i <= self.entries.len(),
                forall|k: int| 0 <= k < i ==> (#[trigger] self.entries@[k]).addr != addr,
            decreases self.entries.len() - i,
        {
            if self.entries[i].addr == addr {
                return Some(i);
            }
            i += 1;
        }
        None
    }

    /// Whether `addr` has an entry.
    pub fn contains(&self, addr: u64) -> (present: bool)
        ensures
            present == holds(self@, addr),
    {
        self.find(addr).is_some()
    }

    /// The byte that the trap at `addr` replaced.
    pub fn get(&self, addr: u64) -> (byte: Option<u8>)
        requires
            self.wf(),
        ensures
            byte == (if holds(self@, addr) {
                Some(saved_byte(self@, addr))
            } else {
                None
            }),
    {
        match self.find(addr) {
            Some(i) => {
                proof {
                    lemma_position_unique(self@, addr, i as int);
                }
                Some(self.entries[i].orig_byte)
            },
            None => None,
        }
    }

    /// Records that a trap was planted at `addr` over `orig_byte`. An address
    /// that has an entry keeps it: neither the number of entries nor the
    /// recorded byte changes.
    pub fn insert(&mut self, addr: u64, orig_byte: u8) -> (added: bool)
        requires
            old(self).wf(),
        ensures
            final(self).wf(),
            added == !holds(old(self)@, addr),
            final(self)@ == with_entry(old(self)@, addr, orig_byte),
    {
        if self.contains(addr) {
            false
        } else {
            let b = Breakpoint { addr, orig_byte };
            proof {
                lemma_distinct_push(self@, b);
            }
            self.entries.push(b);
            true
        }
    }

    /// Deletes the entry for `addr` and hands out the byte it recorded.
    pub fn remove(&mut self, addr: u64) -> (byte: Option<u8>)
        requires
            old(self).wf(),
        ensures
            final(self).wf(),
            final(self)@ == without(old(self)@, addr),
            byte == (if holds(old(self)@, addr) {
                Some(saved_byte(old(self)@, addr))
            } else {
                None
            }),
    {
        proof {
            lemma_without(self@, addr);
        }
        match self.find(addr) {
            Some(i) => {
                proof {
                    lemma_position_unique(self@, addr, i as int);
                }
                let b = self.entries.remove(i);
                Some(b.orig_byte)
            },
            None => None,
        }
    }
}

} // verus!
