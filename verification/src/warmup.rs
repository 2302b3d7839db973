//! Small operations on vectors of numbers.

use std::collections::HashSet;
use vstd::prelude::*;
use vstd::std_specs::hash::group_hash_axioms;

verus! {

/// `s` with every element that occurred before taken out: what is left of
/// equal elements is the first of them.
pub open spec fn first_occurrences(s: Seq<i32>) -> Seq<i32>
    decreases s.len(),
{
    if s.len() == 0 {
        Seq::empty()
    } else {
        let before = first_occurrences(s.drop_last());
        if s.drop_last().contains(s.last()) {
            before
        } else {
            before.push(s.last())
        }
    }
}

/// What is left has the elements of `s`, each once.
pub proof fn lemma_first_occurrences(s: Seq<i32>)
    ensures
        first_occurrences(s).no_duplicates(),
        forall|x: i32| first_occurrences(s).contains(x) <==> s.contains(x),
    decreases s.len(),
{
    if s.len() > 0 {
        let head = s.drop_last();
        let last = s.last();
        let before = first_occurrences(head);
        let r = first_occurrences(s);
        lemma_first_occurrences(head);
        assert forall|x: i32| r.contains(x) implies s.contains(x) by {
            let i = choose|i: int| 0 <= i < r.len() && r[i] == x;
            if i < before.len() {
                assert(before[i] == x);
                assert(before.contains(x));
                assert(head.contains(x));
                let j = choose|j: int| 0 <= j < head.len() && head[j] == x;
                assert(s[j] == x);
            } else {
                assert(s[s.len() - 1] == x);
            }
        }
        assert forall|x: i32| s.contains(x) implies r.contains(x) by {
            let i = choose|i: int| 0 <= i < s.len() && s[i] == x;
            if i < head.len() {
                assert(head[i] == x);
                assert(head.contains(x));
                assert(before.contains(x));
                let j = choose|j: int| 0 <= j < before.len() && before[j] == x;
                assert(r[j] == x);
            } else if head.contains(x) {
                assert(before.contains(x));
            } else {
                assert(r[before.len() as int] == x);
            }
        }
        if !head.contains(last) {
            assert(!before.contains(last));
            assert forall|a: int, b: int| 0 <= a < r.len() && 0 <= b < r.len() && a != b implies r[a]
                != r[b] by {
                if a < before.len() && b < before.len() {
                    assert(before[a] != before[b]);
                } else if a < before.len() {
                    assert(before.contains(before[a]));
                } else {
                    assert(before.contains(before[b]));
                }
            }
        }
    }
}

/// A new vector with `n` added to every element of `v`.
pub fn add_n(v: Vec<i32>, n: i32) -> (res: Vec<i32>)
    requires
        forall|i: int| 0 <= i < v@.len() ==> i32::MIN <= #[trigger] v@[i] + n <= i32::MAX,
    ensures
        res@.len() == v@.len(),
        forall|i: int| 0 <= i < v@.len() ==> #[trigger] res@[i] == v@[i] + n,
{
    let mut res: Vec<i32> = Vec::new();
    let mut i: usize = 0;
    while i < v.len()
        invariant
            i <= v@.len(),
            res@.len() == i,
            forall|k: int| 0 <= k < v@.len() ==> i32::MIN <= #[trigger] v@[k] + n <= i32::MAX,
            forall|k: int| 0 <= k < i ==> #[trigger] res@[k] == v@[k] + n,
        decreases v@.len() - i,
    {
        res.push(v[i] + n);
        i += 1;
    }
    res
}

/// Adds `n` to every element of `v`.
pub fn add_n_inplace(v: &mut Vec<i32>, n: i32)
    requires
        forall|i: int|
            0 <= i < old(v)@.len() ==> i32::MIN <= #[trigger] old(v)@[i] + n <= i32::MAX,
    ensures
        final(v)@.len() == old(v)@.len(),
        forall|i: int| 0 <= i < old(v)@.len() ==> #[trigger] final(v)@[i] == old(v)@[i] + n,
{
    let mut i: usize = 0;
    while i < v.len()
        invariant
            i <= v@.len(),
            v@.len() == old(v)@.len(),
            forall|k: int|
                0 <= k < old(v)@.len() ==> i32::MIN <= #[trigger] old(v)@[k] + n <= i32::MAX,
            forall|k: int| 0 <= k < i ==> #[trigger] v@[k] == old(v)@[k] + n,
            forall|k: int| i <= k < v@.len() ==> #[trigger] v@[k] == old(v)@[k],
        decreases v@.len() - i,
    {
        let x: i32 = v[i];
        v.set(i, x + n);
        i += 1;
    }
}

/// Takes out of `v` every element that occurs earlier in it; the elements
/// that stay keep their order.
pub fn dedup(v: &mut Vec<i32>)
    ensures
        final(v)@ == first_occurrences(old(v)@),
{
    broadcast use group_hash_axioms;

    let mut seen: HashSet<i32> = HashSet::new();
    let mut kept: Vec<i32> = Vec::new();
    let mut i: usize = 0;
    while i < v.len()
        invariant
            i <= v@.len(),
            v@ == old(v)@,
            kept@ == first_occurrences(v@.take(i as int)),
            forall|x: i32| seen@.contains(x) <==> v@.take(i as int).contains(x),
        decreases v@.len() - i,
    {
        let x: i32 = v[i];
        let ghost head = v@.take(i as int);
        let ghost more = v@.take(i + 1);
        proof {
            assert(more.drop_last() =~= head);
            assert(more.last() == x);
        }
        if !seen.contains(&x) {
            seen.insert(x);
            kept.push(x);
        }
        proof {
            assert forall|y: i32| seen@.contains(y) <==> more.contains(y) by {
                if more.contains(y) {
                    let k = choose|k: int| 0 <= k < more.len() && more[k] == y;
                    if k < head.len() {
                        assert(head[k] == y);
                    }
                }
                if head.contains(y) {
                    let k = choose|k: int| 0 <= k < head.len() && head[k] == y;
                    assert(more[k] == y);
                }
                assert(more[i as int] == x);
            }
        }
        i += 1;
    }
    proof {
        assert(v@.take(v@.len() as int) =~= v@);
    }
    *v = kept;
}

} // verus!
