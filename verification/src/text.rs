//! Comparing and reading short pieces of text.

use vstd::prelude::*;
use vstd::string::StrSliceExecFns;
use vstd::string::StringSliceAdditionalSpecFns;
use vstd::utf8::encode_utf8_decode_utf8;

verus! {

/// Whether two strings hold the same characters.
pub fn str_eq(a: &str, b: &str) -> (same: bool)
    ensures
        same == (a@ == b@),
{
    let x = a.as_bytes();
    let y = b.as_bytes();
    proof {
        encode_utf8_decode_utf8(a@);
        encode_utf8_decode_utf8(b@);
    }
    if x.len() != y.len() {
        return false;
    }
    let mut i: usize = 0;
    while i < x.len()
        invariant
            i <= x.len(),
            x.len() == y.len(),
            x@ == a.spec_bytes(),
            y@ == b.spec_bytes(),
            forall|k: int| 0 <= k < i ==> x@[k] == y@[k],
        decreases x.len() - i,
    {
        if x[i] != y[i] {
            return false;
        }
        i += 1;
    }
    proof {
        assert(x@ =~= y@);
    }
    true
}

/// The place of the first line feed at or after `k` in `s`; the length of
/// `s` if there is none.
pub open spec fn break_from(s: Seq<u8>, k: int) -> int
    decreases s.len() - k,
{
    if k < 0 || k >= s.len() {
        s.len() as int
    } else if s[k] == 10 {
        k
    } else {
        break_from(s, k + 1)
    }
}

/// Where line `number`, counted from 1, lies in the text `s` that is read
/// from place `from` on: its first byte and the byte behind its last. A
/// line ends before a line feed, or before a carriage return and a line
/// feed, or at the end of the text; behind the last line feed of a text no
/// empty line follows.
pub open spec fn span_from(s: Seq<u8>, from: int, number: nat) -> Option<(int, int)>
    decreases number,
{
    if number == 0 || from < 0 || from >= s.len() {
        None
    } else {
        let stop = break_from(s, from);
        if number == 1 {
            Some(
                (
                    from,
                    if stop < s.len() && stop > from && s[stop - 1] == 13 {
                        stop - 1
                    } else {
                        stop
                    },
                ),
            )
        } else {
            span_from(s, stop + 1, (number - 1) as nat)
        }
    }
}

/// Finds line `number`, counted from 1, in `text`: the places of its first
/// byte and of the byte behind its last.
pub fn line_span(text: &[u8], number: u64) -> (span: Option<(usize, usize)>)
    ensures
        match span {
            Some((first, end)) => span_from(text@, 0, number as nat) == Some(
                (first as int, end as int),
            ) && first <= end <= text@.len(),
            None => span_from(text@, 0, number as nat) is None,
        },
{
    let mut from: usize = 0;
    let mut left: u64 = number;
    while left > 0 && from < text.len()
        invariant
            from <= text@.len(),
            span_from(text@, from as int, left as nat) == span_from(text@, 0, number as nat),
        decreases left,
    {
        let mut stop: usize = from;
        while stop < text.len() && text[stop] != 10
            invariant
                from <= stop <= text@.len(),
                break_from(text@, stop as int) == break_from(text@, from as int),
            decreases text@.len() - stop,
        {
            stop += 1;
        }
        if left == 1 {
            let end: usize = if stop < text.len() && stop > from && text[stop - 1] == 13 {
                (stop - 1) as usize
            } else {
                stop
            };
            return Some((from, end));
        }
        from = if stop < text.len() {
            stop + 1
        } else {
            stop
        };
        left -= 1;
    }
    None
}

/// The value of `c` as a digit in base `radix`, which is at most 16.
pub open spec fn digit_of(c: char, radix: u64) -> Option<u64> {
    let v: u64 = if '0' <= c <= '9' {
        (c as u64 - '0' as u64) as u64
    } else if 'a' <= c <= 'f' {
        (c as u64 - 'a' as u64 + 10) as u64
    } else if 'A' <= c <= 'F' {
        (c as u64 - 'A' as u64 + 10) as u64
    } else {
        16
    };
    if v < radix {
        Some(v)
    } else {
        None
    }
}

/// Every character of `s` is a digit in base `radix`.
pub open spec fn all_digits(s: Seq<char>, radix: u64) -> bool {
    forall|i: int| 0 <= i < s.len() ==> digit_of(#[trigger] s[i], radix) is Some
}

/// The number that the digits `s` spell in base `radix`, the most
/// significant first (meaningful where `all_digits(s, radix)`).
pub open spec fn number_of(s: Seq<char>, radix: u64) -> nat
    decreases s.len(),
{
    if s.len() == 0 {
        0
    } else {
        number_of(s.drop_last(), radix) * (radix as nat) + (match digit_of(s.last(), radix) {
            Some(v) => v as nat,
            None => 0,
        })
    }
}

/// `s` without the plus sign that may stand in front of a number.
pub open spec fn unsigned_part(s: Seq<char>) -> Seq<char> {
    if s.len() > 0 && s[0] == '+' {
        s.skip(1)
    } else {
        s
    }
}

/// The number that `s` spells in base `radix`: an optional plus sign and
/// then one digit or more, with a value that fits in 64 bits. Anything else
/// is no number.
pub open spec fn parsed(s: Seq<char>, radix: u64) -> Option<u64> {
    let digits = unsigned_part(s);
    if digits.len() > 0 && all_digits(digits, radix) && number_of(digits, radix) <= u64::MAX {
        Some(number_of(digits, radix) as u64)
    } else {
        None
    }
}

/// `s` without the `0x` or `0X` that may stand in front of an address.
pub open spec fn address_digits(s: Seq<char>) -> Seq<char> {
    if s.len() >= 2 && s[0] == '0' && (s[1] == 'x' || s[1] == 'X') {
        s.skip(2)
    } else {
        s
    }
}

/// The address that `s` spells: hexadecimal, with or without `0x` in front.
pub open spec fn parsed_address(s: Seq<char>) -> Option<u64> {
    parsed(address_digits(s), 16)
}

/// A longer run of digits spells no smaller a number.
pub proof fn lemma_number_grows(s: Seq<char>, radix: u64, n: int)
    requires
        0 <= n <= s.len(),
        radix >= 1,
    ensures
        number_of(s.take(n), radix) <= number_of(s, radix),
    decreases s.len(),
{
    if n < s.len() {
        lemma_number_grows(s.drop_last(), radix, n);
        assert(s.drop_last().take(n) =~= s.take(n));
        let shorter = number_of(s.drop_last(), radix);
        assert(shorter <= shorter * (radix as nat)) by (nonlinear_arith)
            requires
                radix >= 1,
        ;
    } else {
        assert(s.take(n) =~= s);
    }
}

fn digit_value(c: char, radix: u64) -> (v: Option<u64>)
    requires
        radix <= 16,
    ensures
        v == digit_of(c, radix),
{
    let code: u32 = c as u32;
    let v: u64 = if '0' <= c && c <= '9' {
        (code - '0' as u32) as u64
    } else if 'a' <= c && c <= 'f' {
        (code - 'a' as u32) as u64 + 10
    } else if 'A' <= c && c <= 'F' {
        (code - 'A' as u32) as u64 + 10
    } else {
        16
    };
    if v < radix {
        Some(v)
    } else {
        None
    }
}

/// Reads a number in base `radix` from the characters of `s` from place
/// `from` on.
fn parse_from(s: &str, from: usize, radix: u64) -> (n: Option<u64>)
    requires
        from <= s@.len(),
        2 <= radix <= 16,
    ensures
        n == parsed(s@.skip(from as int), radix),
{
    let len: usize = s.unicode_len();
    let ghost whole = s@.skip(from as int);
    let mut start: usize = from;
    if start < len && s.get_char(start) == '+' {
        start += 1;
    }
    let ghost digits = s@.skip(start as int);
    proof {
        assert(whole.len() > 0 ==> whole[0] == s@[from as int]);
        assert(digits =~= unsigned_part(whole)) by {
            if start > from {
                assert(whole.skip(1) =~= digits);
            }
        }
    }
    if start >= len {
        return None;
    }
    let mut value: u64 = 0;
    let mut i: usize = start;
    while i < len
        invariant
            start <= i <= len,
            len == s@.len(),
            2 <= radix <= 16,
            digits == s@.skip(start as int),
            digits == unsigned_part(s@.skip(from as int)),
            all_digits(digits.take(i - start), radix),
            value == number_of(digits.take(i - start), radix),
        decreases len - i,
    {
        let c: char = s.get_char(i);
        let ghost seen = digits.take(i - start);
        let ghost more = digits.take(i - start + 1);
        proof {
            assert(more.drop_last() =~= seen);
            assert(more.last() == c);
        }
        match digit_value(c, radix) {
            None => {
                proof {
                    assert(digits[i - start] == c);
                }
                return None;
            },
            Some(d) => {
                let scaled: Option<u64> = value.checked_mul(radix);
                let next: Option<u64> = match scaled {
                    Some(x) => x.checked_add(d),
                    None => None,
                };
                match next {
                    Some(x) => {
                        value = x;
                    },
                    None => {
                        proof {
                            lemma_number_grows(digits, radix, i - start + 1);
                        }
                        return None;
                    },
                }
                proof {
                    assert forall|k: int| 0 <= k < more.len() implies digit_of(
                        #[trigger] more[k],
                        radix,
                    ) is Some by {
                        if k < seen.len() {
                            assert(more[k] == seen[k]);
                        }
                    }
                }
            },
        }
        i += 1;
    }
    proof {
        assert(digits.take(len - start) =~= digits);
    }
    Some(value)
}

/// Reads a decimal number: an optional plus sign and digits.
pub fn parse_decimal(s: &str) -> (n: Option<u64>)
    ensures
        n == parsed(s@, 10),
{
    proof {
        assert(s@.skip(0) =~= s@);
    }
    parse_from(s, 0, 10)
}

/// Reads an address: hexadecimal digits, with or without `0x` in front.
pub fn parse_address(s: &str) -> (addr: Option<u64>)
    ensures
        addr == parsed_address(s@),
{
    let len: usize = s.unicode_len();
    let prefixed: bool = len >= 2 && s.get_char(0) == '0' && (s.get_char(1) == 'x' || s.get_char(1)
        == 'X');
    proof {
        assert(s@.skip(0) =~= s@);
    }
    if prefixed {
        parse_from(s, 2, 16)
    } else {
        parse_from(s, 0, 16)
    }
}

} // verus!
