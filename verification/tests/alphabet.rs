use crosshair_code::alphabet::{digit_symbol, symbol_value, ALPHABET, BASE};

#[test]
fn alphabet_has_57_distinct_symbols() {
    assert_eq!(BASE, 57);
    assert_eq!(ALPHABET.len(), 57);
    for i in 0..57 {
        for j in (i + 1)..57 {
            assert_ne!(ALPHABET[i], ALPHABET[j]);
        }
    }
}

#[test]
fn symbols_stand_for_their_place() {
    assert_eq!(symbol_value('A'), Some(0));
    assert_eq!(symbol_value('H'), Some(7));
    assert_eq!(symbol_value('J'), Some(8));
    assert_eq!(symbol_value('Z'), Some(24));
    assert_eq!(symbol_value('a'), Some(25));
    assert_eq!(symbol_value('f'), Some(30));
    assert_eq!(symbol_value('h'), Some(31));
    assert_eq!(symbol_value('k'), Some(34));
    assert_eq!(symbol_value('m'), Some(35));
    assert_eq!(symbol_value('z'), Some(48));
    assert_eq!(symbol_value('2'), Some(49));
    assert_eq!(symbol_value('9'), Some(56));
}

#[test]
fn ambiguous_glyphs_are_no_symbols() {
    for c in ['I', 'g', 'l', '0', '1', '-', ' ', '_', 'é', '\u{1F3AF}'] {
        assert_eq!(symbol_value(c), None);
    }
}

#[test]
fn digit_and_symbol_are_inverse() {
    for d in 0..57u8 {
        assert_eq!(symbol_value(digit_symbol(d)), Some(d));
    }
    assert_eq!(digit_symbol(0), 'A');
    assert_eq!(digit_symbol(25), 'a');
    assert_eq!(digit_symbol(56), '9');
}
