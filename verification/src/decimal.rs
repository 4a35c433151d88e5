//! Decimal numerals: the number that a run of digits writes, and natural
//! numbers of any size, held as their digits.

use vstd::prelude::*;
use vstd::arithmetic::div_mod::{lemma_basic_div, lemma_div_denominator};
use crate::chars::{all_digits, digit_value, to_digit};

verus! {

/// The number that a sequence of decimal digits writes, most significant
/// digit first. Leading zeros count for nothing, and no digits write zero.
pub open spec fn decimal(digits: Seq<char>) -> nat
    decreases digits.len(),
{
    if digits.len() == 0 {
        0
    } else {
        10 * decimal(digits.drop_last()) + digit_value(digits.last())
    }
}

/// The number that a sequence of digit values writes, most significant digit
/// first.
pub open spec fn digits_value(digits: Seq<u8>) -> nat
    decreases digits.len(),
{
    if digits.len() == 0 {
        0
    } else {
        10 * digits_value(digits.drop_last()) + digits.last() as nat
    }
}

/// Every value is a decimal digit, and the first one is not zero: a number
/// has one such sequence, and zero has the empty one.
pub open spec fn canonical(digits: Seq<u8>) -> bool {
    &&& forall|i: int| 0 <= i < digits.len() ==> #[trigger] digits[i] <= 9
    &&& digits.len() > 0 ==> digits[0] != 0
}

/// More digits never write a smaller number.
pub proof fn lemma_digits_value_grows(digits: Seq<u8>, n: int)
    requires
        0 <= n <= digits.len(),
    ensures
        digits_value(digits.take(n)) <= digits_value(digits),
    decreases digits.len(),
{
    if n == digits.len() {
        assert(digits.take(n) == digits);
    } else {
        lemma_digits_value_grows(digits.drop_last(), n);
        assert(digits.drop_last().take(n) == digits.take(n));
    }
}

/// The power of ten with `k` zeros.
pub open spec fn power_of_ten(k: nat) -> nat
    decreases k,
{
    if k == 0 {
        1
    } else {
        10 * power_of_ten((k - 1) as nat)
    }
}

/// A power of ten is positive.
proof fn lemma_power_of_ten_positive(k: nat)
    ensures
        power_of_ten(k) > 0,
    decreases k,
{
    if k > 0 {
        lemma_power_of_ten_positive((k - 1) as nat);
    }
}

/// The digit of `n` at a power of ten comes after the digits above it.
proof fn lemma_next_digit(n: int, p: int)
    requires
        0 <= n,
        0 < p,
    ensures
        n / p == 10 * (n / (10 * p)) + (n / p) % 10,
{
    lemma_div_denominator(n, p, 10);
}

/// A natural number of any size.
#[derive(Debug, PartialEq, Eq)]
pub struct Natural {
    /// The decimal digits, most significant first, without leading zeros.
    digits: Vec<u8>,
}

impl View for Natural {
    type V = nat;

    closed spec fn view(&self) -> nat {
        digits_value(self.digits@)
    }
}

impl Natural {
    #[verifier::type_invariant]
    spec fn is_canonical(self) -> bool {
        canonical(self.digits@)
    }

    /// Reads a number written in decimal digits, however many. `None` for
    /// text that is empty or holds anything but decimal digits.
    pub fn from_digits(text: &[char]) -> (number: Option<Natural>)
        ensures
            number is Some <==> text@.len() > 0 && all_digits(text@, 0, text@.len() as int),
            number matches Some(n) ==> n@ == decimal(text@),
    {
        if text.len() == 0 {
            return None;
        }
        let mut digits: Vec<u8> = Vec::new();
        let mut i: usize = 0;
        while i < text.len()
            invariant
                i <= text@.len(),
                all_digits(text@, 0, i as int),
                canonical(digits@),
                digits_value(digits@) == decimal(text@.take(i as int)),
            decreases text@.len() - i,
        {
            let digit = match to_digit(text[i]) {
                Some(digit) => digit,
                None => {
                    return None;
                },
            };
            assert(text@.take(i + 1).drop_last() == text@.take(i as int));
            if digit != 0 || digits.len() > 0 {
                let ghost before = digits@;
                digits.push(digit);
                assert(digits@.drop_last() == before);
            }
            i += 1;
        }
        assert(text@.take(i as int) == text@);
        Some(Natural { digits })
    }

    /// The number `n`.
    pub fn from_u64(n: u64) -> (number: Natural)
        ensures
            number@ == n,
    {
        let mut digits: Vec<u8> = Vec::new();
        let mut p: u64 = 10_000_000_000_000_000_000;
        let mut k: u32 = 20;
        proof {
            reveal_with_fuel(power_of_ten, 21);
            lemma_basic_div(n as int, power_of_ten(20) as int);
        }
        while k > 0
            invariant
                k <= 20,
                k > 0 ==> p == power_of_ten((k - 1) as nat),
                canonical(digits@),
                digits_value(digits@) == (n as int) / (power_of_ten(k as nat) as int),
            decreases k,
        {
            proof {
                lemma_power_of_ten_positive((k - 1) as nat);
                lemma_next_digit(n as int, p as int);
            }
            let digit = ((n / p) % 10) as u8;
            if digit != 0 || digits.len() > 0 {
                let ghost before = digits@;
                digits.push(digit);
                assert(digits@.drop_last() == before);
            }
            k -= 1;
            if k > 0 {
                p = p / 10;
            }
        }
        Natural { digits }
    }

    /// The number as a 128-bit integer, if it is small enough for one.
    pub fn to_i128(&self) -> (value: Option<i128>)
        ensures
            value == (if self@ <= i128::MAX {
                Some(self@ as i128)
            } else {
                None
            }),
    {
        proof {
            use_type_invariant(self);
        }
        let mut value: i128 = 0;
        let mut i: usize = 0;
        while i < self.digits.len()
            invariant
                i <= self.digits@.len(),
                canonical(self.digits@),
                value == digits_value(self.digits@.take(i as int)),
            decreases self.digits@.len() - i,
        {
            let digit = self.digits[i] as i128;
            assert(self.digits@.take(i + 1).drop_last() == self.digits@.take(i as int));
            if value > (i128::MAX - digit) / 10 {
                proof {
                    lemma_digits_value_grows(self.digits@, i + 1);
                }
                return None;
            }
            value = 10 * value + digit;
            i += 1;
        }
        assert(self.digits@.take(i as int) == self.digits@);
        Some(value)
    }
}

} // verus!
