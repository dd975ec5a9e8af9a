//! Unsigned numbers written in decimal or octal.
//!
//! A number is an optional `+` followed by at least one digit of the radix;
//! leading zeros are fine, anything else is not, and the value has to stay
//! within a limit: 32 bits for most uses, 64 bits for the others.

use vstd::prelude::*;
use vstd::std_specs::iter::IteratorSpec;

verus! {

broadcast use vstd::string::group_string_axioms;

/// The value of the digit `c` in `radix`, where it is one.
pub open spec fn digit(c: char, radix: nat) -> Option<nat> {
    if '0' <= c <= '9' && (c as nat) - ('0' as nat) < radix {
        Some(((c as nat) - ('0' as nat)) as nat)
    } else {
        None
    }
}

/// The value of a run of digits, most significant first; `None` where one of
/// them is no digit of `radix`. The empty run has the value zero.
pub open spec fn value(digits: Seq<char>, radix: nat) -> Option<nat>
    decreases digits.len(),
{
    if digits.len() == 0 {
        Some(0)
    } else {
        match (value(digits.drop_last(), radix), digit(digits.last(), radix)) {
            (Some(high), Some(low)) => Some(high * radix + low),
            _ => None,
        }
    }
}

/// The digits of `text`: what follows a leading `+`, if there is one.
pub open spec fn unsigned(text: Seq<char>) -> Seq<char> {
    if text.len() > 0 && text[0] == '+' {
        text.skip(1)
    } else {
        text
    }
}

/// The number that `text` denotes in `radix`, where it denotes one that is
/// not greater than `limit`.
pub open spec fn within(text: Seq<char>, radix: nat, limit: nat) -> Option<nat> {
    if unsigned(text).len() == 0 {
        None
    } else {
        match value(unsigned(text), radix) {
            Some(v) => if v <= limit {
                Some(v)
            } else {
                None
            },
            None => None,
        }
    }
}

/// The number that `text` denotes in `radix`, where it denotes one that fits
/// in 32 bits.
pub open spec fn number(text: Seq<char>, radix: nat) -> Option<u32> {
    match within(text, radix, u32::MAX as nat) {
        Some(v) => Some(v as u32),
        None => None,
    }
}

/// The number that `text` denotes in `radix`, where it denotes one that fits
/// in 64 bits.
pub open spec fn wide_number(text: Seq<char>, radix: nat) -> Option<u64> {
    match within(text, radix, u64::MAX as nat) {
        Some(v) => Some(v as u64),
        None => None,
    }
}

/// A longer run of digits has no smaller value, and none at all where a
/// shorter one has none.
pub proof fn lemma_value_grows(digits: Seq<char>, radix: nat, n: int)
    requires
        0 <= n <= digits.len(),
        radix >= 1,
    ensures
        value(digits.take(n), radix) is None ==> value(digits, radix) is None,
        value(digits, radix) matches Some(whole) ==> value(digits.take(n), radix).unwrap() <= whole,
    decreases digits.len() - n,
{
    if n < digits.len() {
        lemma_value_grows(digits, radix, n + 1);
        assert(digits.take(n + 1).drop_last() =~= digits.take(n));
        match (value(digits.take(n), radix), digit(digits[n], radix)) {
            (Some(high), Some(low)) => {
                assert(high <= high * radix + low) by (nonlinear_arith)
                    requires
                        radix >= 1,
                        low >= 0,
                        high >= 0,
                ;
            },
            _ => {},
        }
    } else {
        assert(digits.take(n) =~= digits);
    }
}

/// Reads a number in `radix`, which is 8 or 10, that is not greater than
/// `limit`.
pub fn parse_within(text: &str, radix: u32, limit: u64) -> (parsed: Option<u64>)
    requires
        radix == 8 || radix == 10,
    ensures
        match parsed {
            Some(v) => within(text@, radix as nat, limit as nat) == Some(v as nat),
            None => within(text@, radix as nat, limit as nat) is None,
        },
{
    let ghost all = text@;
    let mut first = true;
    let mut any = false;
    let mut total: u64 = 0;
    let ghost mut digits: int = 0;
    for c in it: text.chars()
        invariant
            it.seq() == all,
            all == text@,
            radix == 8 || radix == 10,
            first == (it.index() == 0),
            any == (digits > 0),
            0 <= digits <= it.index(),
            it.index() - digits <= 1,
            it.index() - digits == 1 ==> all[0] == '+',
            it.index() > 0 && it.index() == digits ==> all[0] != '+',
            it.index() > 0 ==> unsigned(all).take(digits) == all.subrange(
                it.index() - digits,
                it.index() as int,
            ),
            it.index() > 0 ==> unsigned(all).len() == all.len() - (it.index() - digits),
            value(unsigned(all).take(digits), radix as nat) == Some(total as nat),
            total <= limit,
    {
        if first && c == '+' {
            assert(unsigned(all).take(0) =~= all.subrange(1, 1));
        } else {
            let d: u32 = if '0' <= c && c <= '9' {
                c as u32 - '0' as u32
            } else {
                radix
            };
            proof {
                let run = unsigned(all).take(digits + 1);
                assert(run.drop_last() =~= unsigned(all).take(digits));
                assert(run.last() == c);
                assert(run =~= all.subrange(it.index() - digits, it.index() + 1));
                lemma_value_grows(unsigned(all), radix as nat, digits + 1);
            }
            if d >= radix {
                return None;
            }
            let next: u128 = (total as u128) * (radix as u128) + (d as u128);
            if next > limit as u128 {
                return None;
            }
            total = next as u64;
            any = true;
            proof {
                digits = digits + 1;
            }
        }
        first = false;
    }
    proof {
        if digits > 0 {
            assert(unsigned(all).take(digits) =~= unsigned(all));
        } else {
            assert(unsigned(all).len() == 0);
        }
    }
    if any {
        Some(total)
    } else {
        None
    }
}

/// Reads a number in `radix`, which is 8 or 10, that fits in 32 bits.
pub fn parse(text: &str, radix: u32) -> (parsed: Option<u32>)
    requires
        radix == 8 || radix == 10,
    ensures
        parsed == number(text@, radix as nat),
{
    match parse_within(text, radix, u32::MAX as u64) {
        Some(v) => Some(v as u32),
        None => None,
    }
}

/// Reads a number in `radix`, which is 8 or 10, that fits in 64 bits.
pub fn parse_wide(text: &str, radix: u32) -> (parsed: Option<u64>)
    requires
        radix == 8 || radix == 10,
    ensures
        parsed == wide_number(text@, radix as nat),
{
    parse_within(text, radix, u64::MAX)
}

} // verus!
