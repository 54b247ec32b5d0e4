//! Between symbols, numbers and bytes: a run of symbols is a number written
//! to base 57, and a payload is the same number written to base 256.

use crate::alphabet::{
    digit_symbol, is_symbol, lemma_symbol_digit, symbol_digit, symbol_value, ALPHABET, BASE,
};
use crate::error::DecodeError;
use crate::natural::Natural;
use crate::radix::{
    digits_below, lemma_digits_of_value, lemma_radix_digits_shape, lemma_value_of_digits_exact,
    radix_digits, radix_value,
};
use vstd::arithmetic::power::pow;
use vstd::prelude::*;

verus! {

/// How many symbols a share code carries.
pub const CODE_SYMBOLS: usize = 25;

/// Every character of `chars` is a symbol of the alphabet.
pub open spec fn all_symbols(chars: Seq<char>) -> bool {
    forall|i: int| 0 <= i < chars.len() ==> is_symbol(#[trigger] chars[i])
}

/// The digits that the symbols stand for.
pub open spec fn digits_of(chars: Seq<char>) -> Seq<u8> {
    chars.map_values(|c: char| symbol_digit(c))
}

/// The symbols that stand for the digits.
pub open spec fn symbols_of(digits: Seq<u8>) -> Seq<char> {
    digits.map_values(|d: u8| ALPHABET[d as int])
}

/// The number that a run of symbols writes: the first symbol is the most
/// significant digit.
pub open spec fn symbols_value(chars: Seq<char>) -> nat {
    radix_value(digits_of(chars), 57)
}

/// The 25 symbols that write `n`, or its 25 least significant digits where
/// it has more.
pub open spec fn value_symbols(n: nat) -> Seq<char> {
    symbols_of(radix_digits(n, 57, 25))
}

/// The symbols of digits stand for those digits.
pub proof fn lemma_digits_of_symbols(digits: Seq<u8>)
    requires
        digits_below(digits, 57),
    ensures
        all_symbols(symbols_of(digits)),
        digits_of(symbols_of(digits)) == digits,
{
    assert forall|i: int| 0 <= i < digits.len() implies is_symbol(symbols_of(digits)[i])
        && symbol_digit(symbols_of(digits)[i]) == digits[i] by {
        lemma_symbol_digit(digits[i]);
    }
    assert(digits_of(symbols_of(digits)) =~= digits);
}

/// Symbols are the symbols of their digits, and their digits are below 57.
pub proof fn lemma_symbols_of_digits(chars: Seq<char>)
    requires
        all_symbols(chars),
    ensures
        digits_below(digits_of(chars), 57),
        symbols_of(digits_of(chars)) == chars,
{
    assert forall|i: int| 0 <= i < chars.len() implies symbol_digit(chars[i]) < 57
        && ALPHABET[symbol_digit(chars[i]) as int] == chars[i] by {
        let c = chars[i];
        assert(is_symbol(c));
        let d = choose|d: int| 0 <= d < 57 && ALPHABET[d] == c;
        assert((d as u8) < 57 && ALPHABET[d as u8 as int] == c);
    }
    assert(symbols_of(digits_of(chars)) =~= chars);
}

/// Writing a number below `57^25` and reading the symbols gives the number.
pub proof fn lemma_value_of_value_symbols(n: nat)
    requires
        n < pow(57, 25),
    ensures
        symbols_value(value_symbols(n)) == n,
{
    lemma_radix_digits_shape(n, 57, 25);
    lemma_digits_of_symbols(radix_digits(n, 57, 25));
    lemma_value_of_digits_exact(n, 57, 25);
}

/// Reading 25 symbols and writing the number gives the symbols.
pub proof fn lemma_value_symbols_of_value(chars: Seq<char>)
    requires
        chars.len() == 25,
        all_symbols(chars),
    ensures
        value_symbols(symbols_value(chars)) == chars,
{
    lemma_symbols_of_digits(chars);
    lemma_digits_of_value(digits_of(chars), 57);
}

/// Reads a run of symbols as a number to base 57, the first symbol being the
/// most significant digit.
///
/// The characters are looked up from the last to the first, so of several
/// that are no symbols the last is reported.
pub fn chars_to_int(chars: &[char]) -> (r: Result<Natural, DecodeError>)
    ensures
        r is Ok <==> all_symbols(chars@),
        r matches Ok(n) ==> n@ == symbols_value(chars@),
        r matches Err(e) ==> e matches DecodeError::InvalidDigit { character, position }
            && position < chars@.len() && character == chars@[position as int] && !is_symbol(
            character,
        ) && forall|j: int| position < j < chars@.len() ==> is_symbol(#[trigger] chars@[j]),
{
    let len = chars.len();
    let mut digits: Vec<u8> = Vec::new();
    let mut filled: usize = 0;
    while filled < len
        invariant
            filled <= len,
            digits.len() == filled,
        decreases len - filled,
    {
        digits.push(0);
        filled = filled + 1;
    }
    let mut left: usize = len;
    while left > 0
        invariant
            left <= len,
            len == chars@.len(),
            digits.len() == len,
            forall|j: int|
                left <= j < len ==> is_symbol(#[trigger] chars@[j]) && digits@[j] == symbol_digit(
                    chars@[j],
                ),
        decreases left,
    {
        left = left - 1;
        let c = chars[left];
        match symbol_value(c) {
            Some(d) => {
                digits.set(left, d);
            },
            None => {
                return Err(DecodeError::InvalidDigit { character: c, position: left });
            },
        }
    }
    proof {
        assert(digits@ =~= digits_of(chars@));
    }
    Ok(Natural::from_digits(digits.as_slice(), BASE))
}

/// Writes a number as 25 symbols to base 57, the most significant digit
/// first. Of a number of `57^25` or more the 25 least significant digits are
/// written.
pub fn int_to_chars(n: &Natural) -> (r: Vec<char>)
    ensures
        r@ == value_symbols(n@),
        r@.len() == 25,
        all_symbols(r@),
{
    let digits = n.to_digits(BASE, CODE_SYMBOLS);
    proof {
        lemma_radix_digits_shape(n@, 57, 25);
        lemma_digits_of_symbols(digits@);
    }
    let mut out: Vec<char> = Vec::new();
    let mut i: usize = 0;
    while i < digits.len()
        invariant
            i <= digits.len(),
            digits_below(digits@, 57),
            out@ == symbols_of(digits@.take(i as int)),
        decreases digits.len() - i,
    {
        out.push(digit_symbol(digits[i]));
        i = i + 1;
        proof {
            assert(out@ =~= symbols_of(digits@.take(i as int)));
        }
    }
    proof {
        assert(digits@.take(i as int) =~= digits@);
    }
    out
}

/// The number that bytes write to base 256, most significant byte first.
pub fn bytes_to_int(bytes: &[u8]) -> (r: Natural)
    ensures
        r@ == radix_value(bytes@, 256),
{
    Natural::from_bytes_be(bytes)
}

/// The bytes that write a number to base 256, most significant first, with
/// zeros in front up to `width` bytes. A number of `256^width` or more gets
/// as many bytes as it needs, and then the first is not zero.
pub fn int_to_bytes(n: &Natural, width: usize) -> (r: Vec<u8>)
    ensures
        radix_value(r@, 256) == n@,
        r@.len() >= width,
        r@.len() > width ==> r@[0] != 0,
{
    n.to_bytes_be(width)
}

} // verus!
