//! Natural numbers of any size.
//!
//! A `Natural` holds its number as bytes, most significant first. Its
//! arithmetic is that of `num_bigint::BigUint`: the five functions at the
//! head of the impl hand the bytes to `BigUint`, let it compute, and take
//! the bytes of the result. Their contracts are taken on trust; everything
//! else here is proved from them.

use crate::radix::{
    lemma_div_pow_step, lemma_radix_digits_prepend, lemma_radix_value_leading_zeros,
    radix_digits, radix_value,
};
use num_bigint::BigUint;
use num_traits::Zero;
use vstd::arithmetic::power::pow;
use vstd::prelude::*;
use vstd::slice::slice_to_vec;

verus! {

/// A natural number, held as the bytes that write it to base 256.
pub struct Natural {
    bytes: Vec<u8>,
}

impl View for Natural {
    type V = nat;

    /// The number itself.
    closed spec fn view(&self) -> nat {
        radix_value(self.bytes@, 256)
    }
}

impl Natural {
    /// Zero, as `BigUint::zero()` of `num_traits::Zero` gives it.
    ///
    /// Trusted: `to_bytes_be` of that value writes the number 0.
    #[verifier::external_body]
    pub(crate) fn zero() -> (r: Natural)
        ensures
            r@ == 0,
    {
        Natural { bytes: BigUint::zero().to_bytes_be() }
    }

    /// The product, by `BigUint`'s `*`.
    ///
    /// Trusted: `BigUint::from_bytes_be` reads bytes most significant first,
    /// `*` is multiplication of natural numbers, and `to_bytes_be` writes the
    /// product most significant byte first.
    #[verifier::external_body]
    pub(crate) fn product(&self, other: &Natural) -> (r: Natural)
        ensures
            r@ == self@ * other@,
    {
        let product = BigUint::from_bytes_be(&self.bytes) * BigUint::from_bytes_be(&other.bytes);
        Natural { bytes: product.to_bytes_be() }
    }

    /// The sum, by `BigUint`'s `+`.
    ///
    /// Trusted: `BigUint::from_bytes_be` reads bytes most significant first,
    /// `+` is addition of natural numbers, and `to_bytes_be` writes the sum
    /// most significant byte first.
    #[verifier::external_body]
    pub(crate) fn sum(&self, other: &Natural) -> (r: Natural)
        ensures
            r@ == self@ + other@,
    {
        let sum = BigUint::from_bytes_be(&self.bytes) + BigUint::from_bytes_be(&other.bytes);
        Natural { bytes: sum.to_bytes_be() }
    }

    /// The quotient rounded down, by `BigUint`'s `/`, which panics on a zero
    /// divisor.
    ///
    /// Trusted: `BigUint::from_bytes_be` reads bytes most significant first,
    /// `/` is division of natural numbers without the remainder, and
    /// `to_bytes_be` writes the quotient most significant byte first.
    #[verifier::external_body]
    pub(crate) fn quotient(&self, divisor: &Natural) -> (r: Natural)
        requires
            divisor@ != 0,
        ensures
            r@ == self@ / divisor@,
    {
        let quotient = BigUint::from_bytes_be(&self.bytes) / BigUint::from_bytes_be(&divisor.bytes);
        Natural { bytes: quotient.to_bytes_be() }
    }

    /// The remainder, by `BigUint`'s `%`, which panics on a zero divisor.
    ///
    /// Trusted: `BigUint::from_bytes_be` reads bytes most significant first,
    /// `%` is the remainder of the division of natural numbers, and
    /// `to_bytes_be` writes it most significant byte first.
    #[verifier::external_body]
    pub(crate) fn remainder(&self, divisor: &Natural) -> (r: Natural)
        requires
            divisor@ != 0,
        ensures
            r@ == self@ % divisor@,
    {
        let remainder = BigUint::from_bytes_be(&self.bytes) % BigUint::from_bytes_be(
            &divisor.bytes,
        );
        Natural { bytes: remainder.to_bytes_be() }
    }

    /// The number that `bytes` writes to base 256, most significant byte
    /// first. No bytes write zero.
    pub fn from_bytes_be(bytes: &[u8]) -> (r: Natural)
        ensures
            r@ == radix_value(bytes@, 256),
    {
        Natural { bytes: slice_to_vec(bytes) }
    }

    /// The number of one byte.
    pub fn from_u8(value: u8) -> (r: Natural)
        ensures
            r@ == value,
    {
        let mut bytes: Vec<u8> = Vec::new();
        bytes.push(value);
        proof {
            assert(bytes@.drop_last() =~= Seq::<u8>::empty());
            assert(radix_value(bytes@.drop_last(), 256) == 0);
        }
        Natural { bytes }
    }

    /// The least significant byte: the number modulo 256.
    pub fn low_byte(&self) -> (r: u8)
        ensures
            r == self@ % 256,
    {
        let len = self.bytes.len();
        if len == 0 {
            0
        } else {
            self.bytes[len - 1]
        }
    }

    /// The bytes that write the number to base 256, most significant first,
    /// with zeros in front up to `width` bytes. A number that needs more
    /// than `width` bytes gets as many as it needs, and no zero in front.
    pub fn to_bytes_be(&self, width: usize) -> (r: Vec<u8>)
        ensures
            radix_value(r@, 256) == self@,
            r.len() >= width,
            r.len() > width ==> r[0] != 0,
    {
        let len = self.bytes.len();
        let mut start: usize = 0;
        while start < len && self.bytes[start] == 0
            invariant
                start <= len,
                len == self.bytes.len(),
                forall|i: int| 0 <= i < start ==> self.bytes[i] == 0,
            decreases len - start,
        {
            start = start + 1;
        }
        let ghost significant = self.bytes@.skip(start as int);
        proof {
            assert(self.bytes@ =~= self.bytes@.take(start as int) + significant);
            lemma_radix_value_leading_zeros(self.bytes@.take(start as int), significant, 256);
        }
        let mut out: Vec<u8> = Vec::new();
        let mut filled: usize = len - start;
        while filled < width
            invariant
                len - start <= filled,
                filled <= width || out.len() == 0,
                out.len() == filled - (len - start),
                forall|i: int| 0 <= i < out.len() ==> out[i] == 0,
            decreases width - filled,
        {
            out.push(0);
            filled = filled + 1;
        }
        let ghost zeros = out@;
        let mut next: usize = start;
        while next < len
            invariant
                start <= next <= len,
                len == self.bytes.len(),
                out@ == zeros + self.bytes@.subrange(start as int, next as int),
            decreases len - next,
        {
            out.push(self.bytes[next]);
            next = next + 1;
            proof {
                assert(self.bytes@.subrange(start as int, next as int) =~= self.bytes@.subrange(
                    start as int,
                    next - 1,
                ).push(self.bytes[next - 1]));
            }
        }
        proof {
            assert(self.bytes@.subrange(start as int, len as int) =~= significant);
            lemma_radix_value_leading_zeros(zeros, significant, 256);
        }
        out
    }

    /// The number that `digits` writes to `base`, most significant digit
    /// first: from zero, each digit in turn is added to `base` times what
    /// came before.
    pub fn from_digits(digits: &[u8], base: u8) -> (r: Natural)
        ensures
            r@ == radix_value(digits@, base as nat),
    {
        let radix = Natural::from_u8(base);
        let mut acc = Natural::zero();
        let mut i: usize = 0;
        while i < digits.len()
            invariant
                i <= digits.len(),
                radix@ == base,
                acc@ == radix_value(digits@.take(i as int), base as nat),
            decreases digits.len() - i,
        {
            let digit = Natural::from_u8(digits[i]);
            acc = acc.product(&radix).sum(&digit);
            i = i + 1;
            proof {
                assert(digits@.take(i as int).drop_last() =~= digits@.take(i - 1));
            }
        }
        proof {
            assert(digits@.take(i as int) =~= digits@);
        }
        acc
    }

    /// The `len` least significant digits of the number to `base`, most
    /// significant first: the remainder by `base` is the last digit, and the
    /// quotient goes on to give the one before it.
    pub fn to_digits(&self, base: u8, len: usize) -> (r: Vec<u8>)
        requires
            base >= 2,
        ensures
            r@ == radix_digits(self@, base as nat, len as nat),
    {
        let radix = Natural::from_u8(base);
        let mut out: Vec<u8> = Vec::new();
        let mut filled: usize = 0;
        while filled < len
            invariant
                filled <= len,
                out.len() == filled,
            decreases len - filled,
        {
            out.push(0);
            filled = filled + 1;
        }
        let mut rest = Natural::from_bytes_be(self.bytes.as_slice());
        let mut done: usize = 0;
        proof {
            assert(pow(base as int, 0) == 1) by {
                reveal_with_fuel(pow, 1);
            }
            assert(out@.skip(len as int) =~= radix_digits(self@, base as nat, 0));
        }
        while done < len
            invariant
                done <= len,
                out.len() == len,
                base >= 2,
                radix@ == base,
                pow(base as int, done as nat) > 0,
                rest@ == self@ as int / pow(base as int, done as nat),
                out@.skip(len - done) == radix_digits(self@, base as nat, done as nat),
            decreases len - done,
        {
            let digit = rest.remainder(&radix).low_byte();
            rest = rest.quotient(&radix);
            out.set(len - done - 1, digit);
            proof {
                lemma_div_pow_step(self@, base as nat, done as nat);
                lemma_radix_digits_prepend(self@, base as nat, done as nat);
                assert(out@.skip(len - done - 1) =~= seq![digit] + radix_digits(
                    self@,
                    base as nat,
                    done as nat,
                ));
            }
            done = done + 1;
            proof {
                lemma_div_pow_step(self@, base as nat, (done - 1) as nat);
                vstd::arithmetic::power::lemma_pow_positive(base as int, done as nat);
            }
        }
        proof {
            assert(out@.skip(0) =~= out@);
        }
        out
    }
}

} // verus!
