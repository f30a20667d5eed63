//! The count typed before a command: digits are appended one at a time, as
//! on a calculator.

use crate::gutter::digits;
use vstd::arithmetic::power::pow;
use vstd::prelude::*;

verus! {

/// The number whose decimal digits are those of `n` followed by those of `d`.
pub open spec fn append_digits(n: nat, d: nat) -> nat {
    (n * pow(10, digits(d)) + d) as nat
}

/// A count that is either unset or a positive number.
pub struct CommandMultiplier {
    multiplier: Option<u32>,
}

impl CommandMultiplier {
    #[verifier::type_invariant]
    closed spec fn positive(self) -> bool {
        self.multiplier matches Some(m) ==> m > 0
    }

    /// The count, if one is set.
    pub closed spec fn value(&self) -> Option<u32> {
        self.multiplier
    }

    /// No count.
    pub fn new() -> (c: CommandMultiplier)
        ensures
            c.value().is_none(),
    {
        CommandMultiplier { multiplier: None }
    }

    /// Sets the count to `multiplier`, which is positive.
    pub fn set(&mut self, multiplier: u32)
        requires
            multiplier > 0,
        ensures
            final(self).value() == Some(multiplier),
    {
        self.multiplier = Some(multiplier);
    }

    /// Unsets the count.
    pub fn clear(&mut self)
        ensures
            final(self).value().is_none(),
    {
        self.multiplier = None;
    }

    /// The count, if one is set; it is positive.
    pub fn get(&self) -> (r: Option<u32>)
        ensures
            r == self.value(),
            r matches Some(m) ==> m > 0,
    {
        proof {
            use_type_invariant(self);
        }
        self.multiplier
    }

    /// The count, or one where none is set.
    pub fn unwrap_or_one(&self) -> (r: u32)
        ensures
            r == match self.value() {
                Some(m) => m,
                None => 1u32,
            },
            r > 0,
    {
        proof {
            use_type_invariant(self);
        }
        match self.multiplier {
            Some(multiplier) => multiplier,
            None => 1,
        }
    }

    /// Appends the decimal digits of `digit` to the count (an unset count
    /// counts as zero). The result must fit in a `u32`.
    pub fn push_digit(&mut self, digit: u32)
        requires
            digit > 0,
            append_digits(
                match old(self).value() {
                    Some(m) => m as nat,
                    None => 0,
                },
                digit as nat,
            ) <= u32::MAX,
        ensures
            final(self).value() == Some(
                append_digits(
                    match old(self).value() {
                        Some(m) => m as nat,
                        None => 0,
                    },
                    digit as nat,
                ) as u32,
            ),
    {
        let old_value: u32 = match self.multiplier {
            Some(m) => m,
            None => 0,
        };
        let ghost target = append_digits(old_value as nat, digit as nat);
        let mut scaled: u64 = old_value as u64;
        let mut rest: u32 = digit;
        proof {
            vstd::arithmetic::power::lemma_pow0(10);
            assert(scaled * pow(10, 0) == scaled) by (nonlinear_arith)
                requires
                    pow(10, 0) == 1;
            vstd::arithmetic::power::lemma_pow_positive(10, digits(digit as nat));
            assert(old_value * pow(10, digits(digit as nat)) >= 0) by (nonlinear_arith)
                requires
                    pow(10, digits(digit as nat)) > 0;
        }
        let ghost mut shifts: nat = 0;
        // Multiply by ten once per digit of `digit`.
        while rest >= 10
            invariant
                scaled == old_value * pow(10, shifts),
                shifts + digits(rest as nat) == digits(digit as nat),
                target == old_value * pow(10, digits(digit as nat)) + digit,
                target <= u32::MAX,
                rest > 0,
            decreases rest,
        {
            proof {
                lemma_scaled_bound(old_value as nat, shifts, digits(digit as nat));
                vstd::arithmetic::power::lemma_pow_adds(10, shifts, 1);
                vstd::arithmetic::power::lemma_pow1(10);
                assert(old_value * pow(10, shifts + 1) == old_value * pow(10, shifts) * 10) by (nonlinear_arith)
                    requires
                        pow(10, shifts + 1) == pow(10, shifts) * 10;
            }
            scaled = scaled * 10;
            rest = rest / 10;
            proof {
                shifts = shifts + 1;
            }
        }
        proof {
            lemma_scaled_bound(old_value as nat, shifts, digits(digit as nat));
            vstd::arithmetic::power::lemma_pow_adds(10, shifts, 1);
            vstd::arithmetic::power::lemma_pow1(10);
            assert(old_value * pow(10, shifts + 1) == old_value * pow(10, shifts) * 10) by (nonlinear_arith)
                requires
                    pow(10, shifts + 1) == pow(10, shifts) * 10;
        }
        scaled = scaled * 10;
        let v = (scaled + digit as u64) as u32;
        proof {
            use_type_invariant(&*self);
        }
        self.multiplier = Some(v);
    }
}

/// Scaling by fewer powers of ten than the digits of a number keeps the
/// scaled value within its bound.
proof fn lemma_scaled_bound(n: nat, k: nat, d: nat)
    requires
        k <= d,
    ensures
        n * pow(10, k) <= n * pow(10, d),
{
    vstd::arithmetic::power::lemma_pow_increases(10, k, d);
    vstd::arithmetic::mul::lemma_mul_inequality(pow(10, k) as int, pow(10, d) as int, n as int);
    assert(n * pow(10, k) == pow(10, k) * n) by (nonlinear_arith);
    assert(n * pow(10, d) == pow(10, d) * n) by (nonlinear_arith);
}

/// Typing two digits makes the count their two-digit number: pushing `d1`
/// and then `d2` onto no count gives `10 * d1 + d2`.
pub proof fn lemma_two_digits(d1: nat, d2: nat)
    requires
        1 <= d1 <= 9,
        1 <= d2 <= 9,
    ensures
        append_digits(append_digits(0, d1), d2) == 10 * d1 + d2,
{
    vstd::arithmetic::power::lemma_pow1(10);
    assert(digits(d1) == 1);
    assert(digits(d2) == 1);
    assert(0 * pow(10, 1) == 0);
}

} // verus!
