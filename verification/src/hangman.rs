//! Uncovering the letters of a hidden word.

use vstd::prelude::*;

verus! {

/// `char::to_string` of the standard library: the text that consists of
/// the one character `c`.
#[verifier::external_body]
fn letter(c: char) -> (s: String)
    ensures
        s@ == seq![c],
{
    c.to_string()
}

/// What stands at place `i` when the letter `matched` has been uncovered:
/// the letter where the word has it there, else what stood there.
pub open spec fn uncovered(word: Seq<char>, shown: Seq<String>, matched: char, i: int) -> Seq<
    char,
> {
    if i < word.len() && word[i] == matched {
        seq![matched]
    } else {
        shown[i]@
    }
}

/// Uncovers the letter `matched` in `b` wherever the word `a` has it, and
/// hands out a copy of `b`. `b` is at least as long as `a`.
pub fn find_all(a: &Vec<char>, b: &mut Vec<String>, matched: &char) -> (copy: Vec<String>)
    requires
        a@.len() <= old(b)@.len(),
    ensures
        final(b)@.len() == old(b)@.len(),
        forall|i: int|
            0 <= i < old(b)@.len() ==> (#[trigger] final(b)@[i])@ == uncovered(
                a@,
                old(b)@,
                *matched,
                i,
            ),
        copy@.len() == final(b)@.len(),
        forall|i: int| 0 <= i < copy@.len() ==> #[trigger] copy@[i] == final(b)@[i],
{
    let mut idx: usize = 0;
    while idx < a.len()
        invariant
            idx <= a@.len() <= b@.len(),
            b@.len() == old(b)@.len(),
            forall|i: int|
                0 <= i < idx ==> (#[trigger] b@[i])@ == uncovered(a@, old(b)@, *matched, i),
            forall|i: int| idx <= i < b@.len() ==> #[trigger] b@[i] == old(b)@[i],
        decreases a@.len() - idx,
    {
        if a[idx] == *matched {
            b.set(idx, letter(a[idx]));
        }
        idx += 1;
    }
    let mut copy: Vec<String> = Vec::new();
    let mut i: usize = 0;
    while i < b.len()
        invariant
            i <= b@.len(),
            copy@.len() == i,
            forall|k: int| 0 <= k < i ==> #[trigger] copy@[k] == b@[k],
        decreases b@.len() - i,
    {
        copy.push(b[i].clone());
        i += 1;
    }
    copy
}

} // verus!
