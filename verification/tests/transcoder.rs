use crosshair_code::alphabet::symbol_value;
use crosshair_code::error::DecodeError;
use crosshair_code::natural::Natural;
use crosshair_code::transcoder::{bytes_to_int, chars_to_int, int_to_bytes, int_to_chars};

fn chars(text: &str) -> Vec<char> {
    text.chars().collect()
}

fn text(chars: &[char]) -> String {
    chars.iter().collect()
}

#[test]
fn bytes_are_read_most_significant_first() {
    let n = bytes_to_int(&[1, 0]);
    assert_eq!(int_to_bytes(&n, 4), vec![0, 0, 1, 0]);
    assert_eq!(n.low_byte(), 0);
    assert_eq!(bytes_to_int(&[1, 2]).low_byte(), 2);
}

#[test]
fn bytes_are_padded_on_the_left_and_never_cut() {
    let n = bytes_to_int(&[0, 0, 1, 2, 3]);
    assert_eq!(int_to_bytes(&n, 3), vec![1, 2, 3]);
    assert_eq!(int_to_bytes(&n, 5), vec![0, 0, 1, 2, 3]);
    assert_eq!(int_to_bytes(&n, 2), vec![1, 2, 3]);
    assert_eq!(int_to_bytes(&n, 0), vec![1, 2, 3]);
}

#[test]
fn zero_has_no_bytes_of_its_own() {
    let zero = bytes_to_int(&[]);
    assert_eq!(int_to_bytes(&zero, 0), Vec::<u8>::new());
    assert_eq!(int_to_bytes(&zero, 2), vec![0, 0]);
    assert_eq!(int_to_bytes(&bytes_to_int(&[0, 0, 0]), 1), vec![0]);
}

#[test]
fn digits_to_a_base_multiply_and_add() {
    let n = Natural::from_digits(&[1, 2, 3, 4], 10);
    assert_eq!(n.to_bytes_be(0), vec![4, 210]);
    let big = Natural::from_digits(&[254, 254, 254, 254, 254, 254, 254, 254, 254], 255);
    assert_eq!(big.to_digits(255, 9), vec![254, 254, 254, 254, 254, 254, 254, 254, 254]);
    let carried = Natural::from_digits(&[255, 255], 255);
    assert_eq!(carried.to_digits(255, 3), vec![1, 1, 0]);
    assert_eq!(Natural::from_digits(&[], 57).to_bytes_be(1), vec![0]);
}

#[test]
fn digits_of_a_number_divide_and_take_remainders() {
    let n = Natural::from_bytes_be(&[4, 210]);
    assert_eq!(n.to_digits(10, 4), vec![1, 2, 3, 4]);
    assert_eq!(n.to_digits(10, 6), vec![0, 0, 1, 2, 3, 4]);
    assert_eq!(n.to_digits(10, 2), vec![3, 4]);
    assert_eq!(n.to_digits(10, 0), Vec::<u8>::new());
    assert_eq!(Natural::from_u8(200).to_digits(2, 8), vec![1, 1, 0, 0, 1, 0, 0, 0]);
}

#[test]
fn first_symbol_is_the_most_significant_digit() {
    let n = chars_to_int(&chars("BA")).unwrap();
    assert_eq!(int_to_bytes(&n, 1), vec![57]);
    let n = chars_to_int(&chars("BCD")).unwrap();
    assert_eq!(int_to_bytes(&n, 2), vec![13, 38]);
    let n = chars_to_int(&chars("AAAAAAAAAAAAAAAAAAAAAAAAB")).unwrap();
    assert_eq!(int_to_bytes(&n, 18), [vec![0u8; 17], vec![1u8]].concat());
}

#[test]
fn numbers_are_written_as_25_symbols() {
    assert_eq!(text(&int_to_chars(&bytes_to_int(&[13, 38]))), "AAAAAAAAAAAAAAAAAAAAAABCD");
    assert_eq!(text(&int_to_chars(&bytes_to_int(&[57]))), "AAAAAAAAAAAAAAAAAAAAAAABA");
    assert_eq!(text(&int_to_chars(&bytes_to_int(&[56]))), "AAAAAAAAAAAAAAAAAAAAAAAA9");
}

#[test]
fn zero_is_written_with_the_first_symbol() {
    assert_eq!(text(&int_to_chars(&bytes_to_int(&[]))), "AAAAAAAAAAAAAAAAAAAAAAAAA");
    assert_eq!(text(&int_to_chars(&bytes_to_int(&[0; 18]))), "AAAAAAAAAAAAAAAAAAAAAAAAA");
}

#[test]
fn every_payload_is_written_within_the_alphabet() {
    for fill in [0u8, 1, 57, 128, 255] {
        let symbols = int_to_chars(&bytes_to_int(&[fill; 18]));
        assert_eq!(symbols.len(), 25);
        for c in symbols {
            assert!(symbol_value(c).is_some());
        }
    }
    assert_eq!(text(&int_to_chars(&bytes_to_int(&[255; 18]))), "RGtwGJiBL7onMmHNai3883ccA");
}

#[test]
fn reading_inverts_writing() {
    let written = int_to_chars(&bytes_to_int(&[255; 18]));
    let read = chars_to_int(&written).unwrap();
    assert_eq!(int_to_bytes(&read, 18), vec![255; 18]);
    let symbols = chars("CSGOabcdefhijkmnopq234567");
    assert_eq!(int_to_chars(&chars_to_int(&symbols).unwrap()), symbols);
}

#[test]
fn numbers_beyond_25_digits_keep_their_last_25() {
    let n = chars_to_int(&chars("9BAAAAAAAAAAAAAAAAAAAAAAAAC")).unwrap();
    assert_eq!(text(&int_to_chars(&n)), "AAAAAAAAAAAAAAAAAAAAAAAAC");
}

#[test]
fn the_last_foreign_character_is_reported() {
    let r = chars_to_int(&chars("A!B?C"));
    assert_eq!(r.err(), Some(DecodeError::InvalidDigit { character: '?', position: 3 }));
    let r = chars_to_int(&chars("lAAAA"));
    assert_eq!(r.err(), Some(DecodeError::InvalidDigit { character: 'l', position: 0 }));
    assert!(chars_to_int(&[]).is_ok());
}
