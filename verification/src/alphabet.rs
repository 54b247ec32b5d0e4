//! The digit alphabet of share codes: 57 symbols, each standing for the digit
//! that is its place in the alphabet.

use vstd::prelude::*;

verus! {

/// How many symbols the alphabet has; the base of the digits of a share code.
pub const BASE: u8 = 57;

/// The symbols in the order of their digit values: the capital and small
/// letters without `I`, `g` and `l`, then the digits `2` to `9`.
pub const ALPHABET: [char; 57] = [
    'A', 'B', 'C', 'D', 'E', 'F', 'G', 'H', 'J', 'K', 'L', 'M', 'N', 'O', 'P', 'Q', 'R', 'S', 'T',
    'U', 'V', 'W', 'X', 'Y', 'Z', 'a', 'b', 'c', 'd', 'e', 'f', 'h', 'i', 'j', 'k', 'm', 'n', 'o',
    'p', 'q', 'r', 's', 't', 'u', 'v', 'w', 'x', 'y', 'z', '2', '3', '4', '5', '6', '7', '8', '9',
];

/// Whether `c` is one of the 57 symbols.
pub open spec fn is_symbol(c: char) -> bool {
    exists|d: int| 0 <= d < 57 && ALPHABET[d] == c
}

/// The digit that the symbol `c` stands for: its place in the alphabet.
/// Meaningful only where `is_symbol(c)`.
pub open spec fn symbol_digit(c: char) -> u8 {
    choose|d: u8| d < 57 && ALPHABET[d as int] == c
}

/// The place that a character has in the alphabet when the alphabet is
/// described by its six runs of consecutive characters, and 57 for a
/// character outside it.
spec fn rank(c: char) -> int {
    if 'A' <= c <= 'H' {
        c as int - 'A' as int
    } else if 'J' <= c <= 'Z' {
        c as int - 'J' as int + 8
    } else if 'a' <= c <= 'f' {
        c as int - 'a' as int + 25
    } else if 'h' <= c <= 'k' {
        c as int - 'h' as int + 31
    } else if 'm' <= c <= 'z' {
        c as int - 'm' as int + 35
    } else if '2' <= c <= '9' {
        c as int - '2' as int + 49
    } else {
        57
    }
}

proof fn lemma_rank_of_symbol(d: int)
    requires
        0 <= d < 57,
    ensures
        rank(ALPHABET[d]) == d,
{
}

/// No symbol occurs twice in the alphabet.
pub proof fn lemma_alphabet_distinct()
    ensures
        forall|i: int, j: int| 0 <= i < 57 && 0 <= j < 57 && ALPHABET[i] == ALPHABET[j] ==> i == j,
{
    assert forall|i: int, j: int| 0 <= i < 57 && 0 <= j < 57 && ALPHABET[i] == ALPHABET[j] implies i
        == j by {
        lemma_rank_of_symbol(i);
        lemma_rank_of_symbol(j);
    }
}

/// A symbol's digit is its place, and the symbol at a digit's place stands for that digit.
pub proof fn lemma_symbol_digit(d: u8)
    requires
        d < 57,
    ensures
        is_symbol(ALPHABET[d as int]),
        symbol_digit(ALPHABET[d as int]) == d,
{
    lemma_alphabet_distinct();
    let c = ALPHABET[d as int];
    assert(d < 57 && ALPHABET[d as int] == c);
}

/// The symbol that stands for the digit `d`.
pub fn digit_symbol(d: u8) -> (c: char)
    requires
        d < BASE,
    ensures
        c == ALPHABET[d as int],
        is_symbol(c),
        symbol_digit(c) == d,
{
    proof {
        lemma_symbol_digit(d);
    }
    ALPHABET[d as usize]
}

/// Looks a character up in the alphabet: its digit, or `None` for a
/// character that is no symbol.
pub fn symbol_value(c: char) -> (r: Option<u8>)
    ensures
        r is Some <==> is_symbol(c),
        r matches Some(d) ==> d < BASE && ALPHABET[d as int] == c && d == symbol_digit(c),
{
    let mut d: u8 = 0;
    while d < BASE
        invariant
            d <= BASE,
            forall|k: int| 0 <= k < d ==> ALPHABET[k] != c,
        decreases BASE - d,
    {
        if ALPHABET[d as usize] == c {
            proof {
                lemma_symbol_digit(d);
            }
            return Some(d);
        }
        d = d + 1;
    }
    None
}

} // verus!
