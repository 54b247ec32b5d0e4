//! Positional notation: the number that a sequence of digits writes to a
//! base, the digits of a number, and the facts that make the two inverse.
//!
//! Digits are `u8` values, so bases run from 2 to 256. A sequence is read
//! most significant digit first.

use vstd::arithmetic::div_mod::{
    lemma_div_denominator, lemma_fundamental_div_mod_converse, lemma_mod_breakdown,
    lemma_small_mod,
};
use vstd::arithmetic::mul::{lemma_mul_inequality, lemma_mul_is_commutative};
use vstd::arithmetic::power::{lemma_pow_positive, pow};
use vstd::prelude::*;

verus! {

/// The number that `digits` writes to `base`, most significant digit first.
pub open spec fn radix_value(digits: Seq<u8>, base: nat) -> nat
    decreases digits.len(),
{
    if digits.len() == 0 {
        0
    } else {
        radix_value(digits.drop_last(), base) * base + digits.last() as nat
    }
}

/// The `len` least significant digits of `n` to `base`, most significant
/// first. They write `n` itself where `n < base^len`.
pub open spec fn radix_digits(n: nat, base: nat, len: nat) -> Seq<u8>
    decreases len,
{
    if len == 0 {
        Seq::empty()
    } else {
        radix_digits(n / base, base, (len - 1) as nat).push((n % base) as u8)
    }
}

/// Every element of `digits` is a digit of `base`.
pub open spec fn digits_below(digits: Seq<u8>, base: nat) -> bool {
    forall|i: int| 0 <= i < digits.len() ==> digits[i] < base
}

/// A base whose digits fit a `u8`.
pub open spec fn byte_base(base: nat) -> bool {
    2 <= base <= 256
}

/// `radix_digits` gives as many digits as it is asked for, each below the base.
pub proof fn lemma_radix_digits_shape(n: nat, base: nat, len: nat)
    requires
        byte_base(base),
    ensures
        radix_digits(n, base, len).len() == len,
        digits_below(radix_digits(n, base, len), base),
    decreases len,
{
    if len > 0 {
        lemma_radix_digits_shape(n / base, base, (len - 1) as nat);
    }
}

/// Digits below the base write a number below `base^len`.
pub proof fn lemma_radix_value_bound(digits: Seq<u8>, base: nat)
    requires
        byte_base(base),
        digits_below(digits, base),
    ensures
        radix_value(digits, base) < pow(base as int, digits.len()),
    decreases digits.len(),
{
    if digits.len() == 0 {
        assert(pow(base as int, 0) == 1) by {
            reveal_with_fuel(pow, 1);
        }
    } else {
        let init = digits.drop_last();
        lemma_radix_value_bound(init, base);
        let high = radix_value(init, base) as int;
        let limit = pow(base as int, init.len());
        assert(pow(base as int, digits.len()) == base * limit) by {
            reveal_with_fuel(pow, 1);
        }
        assert((high + 1) * base <= limit * base) by {
            lemma_mul_inequality(high + 1, limit, base as int);
        }
        assert((high + 1) * base == high * base + base) by (nonlinear_arith);
        assert(limit * base == base * limit) by {
            lemma_mul_is_commutative(limit, base as int);
        }
    }
}

/// A sequence whose first digit is not zero writes a number of at least
/// `base^(len - 1)`.
pub proof fn lemma_radix_value_lower_bound(digits: Seq<u8>, base: nat)
    requires
        byte_base(base),
        digits.len() > 0,
        digits[0] != 0,
    ensures
        radix_value(digits, base) >= pow(base as int, (digits.len() - 1) as nat),
    decreases digits.len(),
{
    let init = digits.drop_last();
    if digits.len() == 1 {
        assert(radix_value(init, base) == 0);
        assert(pow(base as int, 0) == 1) by {
            reveal_with_fuel(pow, 1);
        }
    } else {
        lemma_radix_value_lower_bound(init, base);
        let high = radix_value(init, base) as int;
        let limit = pow(base as int, (init.len() - 1) as nat);
        assert(pow(base as int, (digits.len() - 1) as nat) == base * limit) by {
            reveal_with_fuel(pow, 1);
        }
        assert(limit * base <= high * base) by {
            lemma_mul_inequality(limit, high, base as int);
        }
        assert(limit * base == base * limit) by {
            lemma_mul_is_commutative(limit, base as int);
        }
    }
}

/// The digits of the number that `digits` writes are `digits` again.
pub proof fn lemma_digits_of_value(digits: Seq<u8>, base: nat)
    requires
        byte_base(base),
        digits_below(digits, base),
    ensures
        radix_digits(radix_value(digits, base), base, digits.len()) == digits,
    decreases digits.len(),
{
    if digits.len() == 0 {
        assert(radix_digits(radix_value(digits, base), base, 0) =~= digits);
    } else {
        let init = digits.drop_last();
        let high = radix_value(init, base);
        let n = radix_value(digits, base);
        lemma_digits_of_value(init, base);
        lemma_fundamental_div_mod_converse(
            n as int,
            base as int,
            high as int,
            digits.last() as int,
        );
        assert(radix_digits(n, base, digits.len()) =~= digits);
    }
}

/// The `len` least significant digits of `n` write `n` reduced modulo
/// `base^len`.
pub proof fn lemma_value_of_digits(n: nat, base: nat, len: nat)
    requires
        byte_base(base),
    ensures
        radix_value(radix_digits(n, base, len), base) == n % (pow(base as int, len) as nat),
        pow(base as int, len) > 0,
    decreases len,
{
    lemma_pow_positive(base as int, len);
    if len == 0 {
        assert(pow(base as int, 0) == 1) by {
            reveal_with_fuel(pow, 1);
        }
    } else {
        let rest = (len - 1) as nat;
        let limit = pow(base as int, rest);
        lemma_value_of_digits(n / base, base, rest);
        lemma_radix_digits_shape(n / base, base, rest);
        let digits = radix_digits(n, base, len);
        assert(digits.drop_last() =~= radix_digits(n / base, base, rest));
        assert(pow(base as int, len) == base * limit) by {
            reveal_with_fuel(pow, 1);
        }
        lemma_mod_breakdown(n as int, base as int, limit);
        assert(base * ((n as int / base as int) % limit) == ((n as int / base as int) % limit)
            * base) by (nonlinear_arith);
    }
}

/// Where `n < base^len`, the `len` digits of `n` write `n`.
pub proof fn lemma_value_of_digits_exact(n: nat, base: nat, len: nat)
    requires
        byte_base(base),
        n < pow(base as int, len),
    ensures
        radix_value(radix_digits(n, base, len), base) == n,
{
    lemma_value_of_digits(n, base, len);
    lemma_small_mod(n, pow(base as int, len) as nat);
}

/// What a concatenation writes: the first part shifted by the length of the
/// second, plus the second.
pub proof fn lemma_radix_value_concat(high: Seq<u8>, low: Seq<u8>, base: nat)
    ensures
        radix_value(high + low, base) == radix_value(high, base) * pow(base as int, low.len())
            + radix_value(low, base),
    decreases low.len(),
{
    if low.len() == 0 {
        assert(high + low =~= high);
        assert(pow(base as int, 0) == 1) by {
            reveal_with_fuel(pow, 1);
        }
    } else {
        let init = low.drop_last();
        lemma_radix_value_concat(high, init, base);
        assert((high + low).drop_last() =~= high + init);
        let shift = pow(base as int, init.len());
        let h = radix_value(high, base) as int;
        let l = radix_value(init, base) as int;
        assert(pow(base as int, low.len()) == base * shift) by {
            reveal_with_fuel(pow, 1);
        }
        assert((h * shift + l) * base == h * (base * shift) + l * base) by (nonlinear_arith);
    }
}

/// Zeros write zero.
pub proof fn lemma_radix_value_zeros(digits: Seq<u8>, base: nat)
    requires
        forall|i: int| 0 <= i < digits.len() ==> digits[i] == 0,
    ensures
        radix_value(digits, base) == 0,
    decreases digits.len(),
{
    if digits.len() > 0 {
        lemma_radix_value_zeros(digits.drop_last(), base);
        assert(0 * base == 0) by (nonlinear_arith);
    }
}

/// Zeros in front change nothing.
pub proof fn lemma_radix_value_leading_zeros(zeros: Seq<u8>, digits: Seq<u8>, base: nat)
    requires
        forall|i: int| 0 <= i < zeros.len() ==> zeros[i] == 0,
    ensures
        radix_value(zeros + digits, base) == radix_value(digits, base),
{
    lemma_radix_value_concat(zeros, digits, base);
    lemma_radix_value_zeros(zeros, base);
}

/// Dividing by `base^len` and then by `base` divides by `base^(len + 1)`.
pub proof fn lemma_div_pow_step(n: nat, base: nat, len: nat)
    requires
        byte_base(base),
    ensures
        pow(base as int, len) > 0,
        (n as int / pow(base as int, len)) / (base as int) == n as int / pow(
            base as int,
            len + 1,
        ),
{
    lemma_pow_positive(base as int, len);
    let shift = pow(base as int, len);
    assert(pow(base as int, len + 1) == base * shift) by {
        reveal_with_fuel(pow, 1);
    }
    lemma_div_denominator(n as int, shift, base as int);
    lemma_mul_is_commutative(shift, base as int);
}

/// One digit more is the digit of the next higher place, in front of the
/// digits there were.
pub proof fn lemma_radix_digits_prepend(n: nat, base: nat, len: nat)
    requires
        byte_base(base),
    ensures
        radix_digits(n, base, len + 1) == seq![
            ((n as int / pow(base as int, len)) % (base as int)) as u8,
        ] + radix_digits(n, base, len),
    decreases len,
{
    if len == 0 {
        assert(pow(base as int, 0) == 1) by {
            reveal_with_fuel(pow, 1);
        }
        assert(radix_digits(n, base, 1) =~= seq![(n % base) as u8] + radix_digits(n, base, 0)) by {
            reveal_with_fuel(radix_digits, 2);
        }
    } else {
        let rest = (len - 1) as nat;
        lemma_radix_digits_prepend(n / base, base, rest);
        lemma_pow_positive(base as int, rest);
        let shift = pow(base as int, rest);
        assert(pow(base as int, len) == base * shift) by {
            reveal_with_fuel(pow, 1);
        }
        lemma_div_denominator(n as int, base as int, shift);
        let top = ((n as int / pow(base as int, len)) % (base as int)) as u8;
        assert(radix_digits(n / base, base, len) == seq![top] + radix_digits(n / base, base, rest));
        assert(radix_digits(n, base, len + 1) =~= seq![top] + radix_digits(n, base, len));
    }
}

} // verus!
