//! Trial division.

use vstd::prelude::*;

verus! {

/// `num` has a divisor from 2 up to, but not including, the whole part of
/// its square root.
pub open spec fn has_small_divisor(num: u32) -> bool {
    exists|f: int| 2 <= f && (f + 1) * (f + 1) <= num && #[trigger] (num as int % f) == 0
}

proof fn lemma_quotient_smaller(curr: u32, factor: u32)
    requires
        curr > 0,
        factor >= 2,
    ensures
        curr / factor < curr,
{
    assert(curr as int / factor as int <= curr as int / 2) by (nonlinear_arith)
        requires
            curr > 0,
            factor >= 2,
    ;
}

/// What trial division finds of `curr` with the divisors from `factor` up
/// to, but not including, `bound`: each divisor as often as it divides what
/// the smaller ones have left.
pub open spec fn trial(curr: u32, factor: u32, bound: u32) -> Seq<u32>
    decreases bound - factor, curr,
    via trial_terminates
{
    if factor >= bound || factor < 2 || curr == 0 {
        Seq::empty()
    } else if curr % factor == 0 {
        seq![factor] + trial(curr / factor, factor, bound)
    } else {
        trial(curr, (factor + 1) as u32, bound)
    }
}

#[via_fn]
proof fn trial_terminates(curr: u32, factor: u32, bound: u32) {
    if curr > 0 && factor >= 2 {
        lemma_quotient_smaller(curr, factor);
    }
}

#[via_fn]
proof fn leftover_terminates(curr: u32, factor: u32, bound: u32) {
    if curr > 0 && factor >= 2 {
        lemma_quotient_smaller(curr, factor);
    }
}

/// What trial division leaves of `curr`.
pub open spec fn leftover(curr: u32, factor: u32, bound: u32) -> u32
    decreases bound - factor, curr,
    via leftover_terminates
{
    if factor >= bound || factor < 2 || curr == 0 {
        curr
    } else if curr % factor == 0 {
        leftover(curr / factor, factor, bound)
    } else {
        leftover(curr, (factor + 1) as u32, bound)
    }
}

/// The product of the numbers of `s`.
pub open spec fn product(s: Seq<u32>) -> nat
    decreases s.len(),
{
    if s.len() == 0 {
        1
    } else {
        (s[0] as nat) * product(s.drop_first())
    }
}

/// The divisors found, multiplied with each other and with what is left,
/// give the number back.
pub proof fn law_trial_product(curr: u32, factor: u32, bound: u32)
    ensures
        product(trial(curr, factor, bound)) * leftover(curr, factor, bound) == curr,
    decreases bound - factor, curr,
{
    let found = trial(curr, factor, bound);
    let left = leftover(curr, factor, bound);
    if factor >= bound || factor < 2 || curr == 0 {
        assert(found =~= Seq::<u32>::empty());
        assert(product(found) == 1);
        assert(left == curr);
    } else if curr % factor == 0 {
        lemma_quotient_smaller(curr, factor);
        let quotient = (curr / factor) as u32;
        let rest = trial(quotient, factor, bound);
        law_trial_product(quotient, factor, bound);
        assert(found =~= seq![factor] + rest);
        assert(found.drop_first() =~= rest);
        assert(left == leftover(quotient, factor, bound));
        let p = product(rest);
        assert(product(found) == (factor as nat) * p);
        assert((factor as nat) * p * (left as nat) == curr) by (nonlinear_arith)
            requires
                p * (left as nat) == quotient,
                quotient == curr / factor,
                curr % factor == 0,
                factor >= 2,
        ;
    } else {
        law_trial_product(curr, (factor + 1) as u32, bound);
        assert(found =~= trial(curr, (factor + 1) as u32, bound));
        assert(left == leftover(curr, (factor + 1) as u32, bound));
    }
}

/// Every divisor found is at least `factor` and below `bound`, and they
/// come in rising order.
pub proof fn law_trial_sorted(curr: u32, factor: u32, bound: u32)
    ensures
        forall|i: int|
            0 <= i < trial(curr, factor, bound).len() ==> factor <= #[trigger] trial(
                curr,
                factor,
                bound,
            )[i] < bound,
        forall|i: int, j: int|
            0 <= i <= j < trial(curr, factor, bound).len() ==> trial(curr, factor, bound)[i]
                <= trial(curr, factor, bound)[j],
    decreases bound - factor, curr,
{
    let found = trial(curr, factor, bound);
    if factor >= bound || factor < 2 || curr == 0 {
        assert(found =~= Seq::<u32>::empty());
    } else if curr % factor == 0 {
        assert(found =~= seq![factor] + trial((curr / factor) as u32, factor, bound));
        lemma_quotient_smaller(curr, factor);
        let rest = trial(curr / factor, factor, bound);
        law_trial_sorted(curr / factor, factor, bound);
        assert forall|i: int| 0 <= i < found.len() implies factor <= #[trigger] found[i]
            < bound by {
            if i > 0 {
                assert(found[i] == rest[i - 1]);
            }
        }
        assert forall|i: int, j: int| 0 <= i <= j < found.len() implies found[i] <= found[j] by {
            if i > 0 {
                assert(found[i] == rest[i - 1]);
            }
            if j > 0 {
                assert(found[j] == rest[j - 1]);
            }
        }
    } else {
        assert(found =~= trial(curr, (factor + 1) as u32, bound));
        law_trial_sorted(curr, (factor + 1) as u32, bound);
    }
}

/// Whether `num` is greater than 1 and has no divisor from 2 up to, but
/// not including, the whole part of its square root.
pub fn is_prime(num: u32) -> (prime: bool)
    ensures
        prime == (num > 1 && !has_small_divisor(num)),
{
    if num <= 1 {
        return false;
    }
    let n: u64 = num as u64;
    let mut factor: u64 = 2;
    let mut square: u64 = 9;
    while square <= n
        invariant
            2 <= factor <= 65536,
            n == num,
            square == (factor + 1) * (factor + 1),
            forall|f: int| 2 <= f < factor ==> #[trigger] (num as int % f) != 0,
        decreases 65536 - factor,
    {
        assert(factor + 1 < 65536) by (nonlinear_arith)
            requires
                (factor + 1) * (factor + 1) <= n,
                n < 0x1_0000_0000,
        ;
        if n % factor == 0 {
            assert(num as int % (factor as int) == 0);
            return false;
        }
        assert((factor + 2) * (factor + 2) == (factor + 1) * (factor + 1) + 2 * factor + 3)
            by (nonlinear_arith);
        square = square + 2 * factor + 3;
        factor += 1;
    }
    proof {
        assert forall|f: int| 2 <= f && (f + 1) * (f + 1) <= num implies #[trigger] (num as int
            % f) != 0 by {
            if f >= factor {
                assert((f + 1) * (f + 1) >= (factor + 1) * (factor + 1)) by (nonlinear_arith)
                    requires
                        f >= factor,
                        factor >= 2,
                ;
            }
        }
    }
    true
}

/// The numbers that stand on the right of `num = ...` when `num` is split
/// into factors: `num` itself where it is 1 or passes [`is_prime`], else
/// what trial division finds with the divisors from 2 up to, but not
/// including, `num`.
pub fn factor_number(num: u32) -> (factors: Vec<u32>)
    ensures
        factors@ == (if num == 1 || (num > 1 && !has_small_divisor(num)) {
            seq![num]
        } else {
            trial(num, 2, num)
        }),
{
    let mut factors: Vec<u32> = Vec::new();
    if num == 1 || is_prime(num) {
        factors.push(num);
        return factors;
    }
    let mut curr: u32 = num;
    let mut factor: u32 = 2;
    while factor < num && curr != 0
        invariant
            2 <= factor,
            factors@ + trial(curr, factor, num) == trial(num, 2, num),
        decreases num - factor, curr,
    {
        let ghost before = factors@;
        if curr % factor == 0 {
            factors.push(factor);
            curr = curr / factor;
            proof {
                let rest = trial(curr, factor, num);
                assert(before + (seq![factor] + rest) =~= before.push(factor) + rest);
            }
        } else {
            factor += 1;
        }
    }
    proof {
        assert(factors@ + Seq::<u32>::empty() =~= factors@);
    }
    factors
}

} // verus!
