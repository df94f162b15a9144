use std::str::FromStr;

use zwnbsp::{decode_binary, Binary, Error};

#[test]
fn converts_to_binary() {
    let ascii = "Rustaceans";
    let binary = "01010010 01110101 01110011 01110100 01100001 01100011 01100101 01100001 01101110 01110011";

    assert_eq!(binary, Binary::from_str(ascii).unwrap().to_string());
}

#[test]
fn binary_get_the_string_representation() {
    let binary_raw = "01010010 01110101 01110011 01110100 01100001 01100011 01100101 01100001 01101110 01110011";
    let binary_string = Binary::from_str("Rustaceans").unwrap();

    assert_eq!(binary_raw, binary_string.to_string());
}

#[test]
fn binary_converts_to_ascii() {
    let original = "Rustaceans";
    let decoded = Binary::from_str(original).unwrap();
    let decoded = decoded.decode().unwrap();

    assert_eq!(original.to_string(), decoded);
}

#[test]
fn single_letter_is_one_group() {
    assert_eq!(Binary::from_text("A").to_string(), "01000001");
}

#[test]
fn empty_text_has_empty_binary() {
    let binary = Binary::from_text("");
    assert_eq!(binary.to_string(), "");
    assert_eq!(binary.decode(), Ok(String::new()));
}

#[test]
fn small_bytes_are_zero_padded() {
    assert_eq!(Binary::from_text(" !").to_string(), "00100000 00100001");
    assert_eq!(Binary::from_text("\u{0}").to_string(), "00000000");
}

#[test]
fn multi_byte_characters_give_one_group_per_byte() {
    let binary = Binary::from_text("\u{e9}");
    assert_eq!(binary.to_string(), "11000011 10101001");
    assert_eq!(binary.decode(), Ok("\u{e9}".to_string()));
}

#[test]
fn every_group_has_eight_digits() {
    let text = "Hello, zero width world! \u{263a}";
    let binary = Binary::from_text(text).to_string();
    assert_eq!(binary.len(), 9 * text.len() - 1);
    for group in binary.split(' ') {
        assert_eq!(group.len(), 8);
        assert!(group.chars().all(|c| c == '0' || c == '1'));
    }
}

#[test]
fn short_group_is_invalid_digits() {
    assert_eq!(decode_binary("0110000"), Err(Error::InvalidDigits));
}

#[test]
fn long_group_is_invalid_digits() {
    assert_eq!(decode_binary("010000010"), Err(Error::InvalidDigits));
}

#[test]
fn non_binary_character_is_invalid_digits() {
    assert_eq!(decode_binary("0100000x"), Err(Error::InvalidDigits));
    assert_eq!(decode_binary("01000001-01000010"), Err(Error::InvalidDigits));
}

#[test]
fn trailing_or_double_separator_is_invalid_digits() {
    assert_eq!(decode_binary("01000001 "), Err(Error::InvalidDigits));
    assert_eq!(decode_binary("01000001  01000010"), Err(Error::InvalidDigits));
    assert_eq!(decode_binary(" 01000001"), Err(Error::InvalidDigits));
}

#[test]
fn invalid_utf8_is_invalid_text() {
    assert_eq!(decode_binary("11111111"), Err(Error::InvalidText));
    assert_eq!(decode_binary("11000011"), Err(Error::InvalidText));
}

#[test]
fn binary_decodes_groups_in_order() {
    assert_eq!(decode_binary("01000001 01000010"), Ok("AB".to_string()));
    assert_eq!(decode_binary(""), Ok(String::new()));
}

#[test]
fn from_str_pads_every_byte_to_eight_digits() {
    assert_eq!(Binary::from_str("A").unwrap().to_string(), "01000001");
    assert_eq!(Binary::from_str("").unwrap().to_string(), "");
    assert_eq!(Binary::from_str(" ").unwrap().to_string(), "00100000");
    assert_eq!(Binary::from_str("\u{e9}").unwrap().to_string(), "11000011 10101001");
}
