use std::str::FromStr;

use zwnbsp::{Binary, BinaryUnit, Error, ZeroWidth, ZeroWidthChar};

const RUSTACEANS_ZW_UNICODE: &str = "\u{200b}\u{200c}\u{200b}\u{200c}\u{200b}\u{200b}\u{200c}\u{200b}\u{200d}\u{200b}\u{200c}\u{200c}\u{200c}\u{200b}\u{200c}\u{200b}\u{200c}\u{200d}\u{200b}\u{200c}\u{200c}\u{200c}\u{200b}\u{200b}\u{200c}\u{200c}\u{200d}\u{200b}\u{200c}\u{200c}\u{200c}\u{200b}\u{200c}\u{200b}\u{200b}\u{200d}\u{200b}\u{200c}\u{200c}\u{200b}\u{200b}\u{200b}\u{200b}\u{200c}\u{200d}\u{200b}\u{200c}\u{200c}\u{200b}\u{200b}\u{200b}\u{200c}\u{200c}\u{200d}\u{200b}\u{200c}\u{200c}\u{200b}\u{200b}\u{200c}\u{200b}\u{200c}\u{200d}\u{200b}\u{200c}\u{200c}\u{200b}\u{200b}\u{200b}\u{200b}\u{200c}\u{200d}\u{200b}\u{200c}\u{200c}\u{200b}\u{200c}\u{200c}\u{200c}\u{200b}\u{200d}\u{200b}\u{200c}\u{200c}\u{200c}\u{200b}\u{200b}\u{200c}\u{200c}";
const RUSTACEANS_ZW_HTML: &str = "&#8203;&#8204;&#8203;&#8204;&#8203;&#8203;&#8204;&#8203;&#8205;&#8203;&#8204;&#8204;&#8204;&#8203;&#8204;&#8203;&#8204;&#8205;&#8203;&#8204;&#8204;&#8204;&#8203;&#8203;&#8204;&#8204;&#8205;&#8203;&#8204;&#8204;&#8204;&#8203;&#8204;&#8203;&#8203;&#8205;&#8203;&#8204;&#8204;&#8203;&#8203;&#8203;&#8203;&#8204;&#8205;&#8203;&#8204;&#8204;&#8203;&#8203;&#8203;&#8204;&#8204;&#8205;&#8203;&#8204;&#8204;&#8203;&#8203;&#8204;&#8203;&#8204;&#8205;&#8203;&#8204;&#8204;&#8203;&#8203;&#8203;&#8203;&#8204;&#8205;&#8203;&#8204;&#8204;&#8203;&#8204;&#8204;&#8204;&#8203;&#8205;&#8203;&#8204;&#8204;&#8204;&#8203;&#8203;&#8204;&#8204;";

#[test]
fn it_uses_custom_config() {
    let mut zw = ZeroWidth::new("Rustaceans").unwrap();

    zw.set_config(&[
        ZeroWidthChar::NonJoiner,
        ZeroWidthChar::Joiner,
        ZeroWidthChar::NoBreakSpace,
    ]);

    let have = zw.to_html();
    let want = "&#8204;&#8205;&#8204;&#8205;&#8204;&#8204;&#8205;&#8204;&#65279;&#8204;&#8205;&#8205;&#8205;&#8204;&#8205;&#8204;&#8205;&#65279;&#8204;&#8205;&#8205;&#8205;&#8204;&#8204;&#8205;&#8205;&#65279;&#8204;&#8205;&#8205;&#8205;&#8204;&#8205;&#8204;&#8204;&#65279;&#8204;&#8205;&#8205;&#8204;&#8204;&#8204;&#8204;&#8205;&#65279;&#8204;&#8205;&#8205;&#8204;&#8204;&#8204;&#8205;&#8205;&#65279;&#8204;&#8205;&#8205;&#8204;&#8204;&#8205;&#8204;&#8205;&#65279;&#8204;&#8205;&#8205;&#8204;&#8204;&#8204;&#8204;&#8205;&#65279;&#8204;&#8205;&#8205;&#8204;&#8205;&#8205;&#8205;&#8204;&#65279;&#8204;&#8205;&#8205;&#8205;&#8204;&#8204;&#8205;&#8205;";

    assert_eq!(have, want);
}

#[test]
fn it_zw_into_unicode() {
    let have = ZeroWidth::new("Rustaceans").unwrap().to_unicode();
    let want = RUSTACEANS_ZW_UNICODE.to_string();

    assert_eq!(have, want);
}

#[test]
fn it_zw_into_html() {
    let have = ZeroWidth::new("Rustaceans").unwrap().to_html();
    let want = RUSTACEANS_ZW_HTML.to_string();

    assert_eq!(have, want);
}

#[test]
fn lib_get_the_string_representation() {
    let binary_raw = "01010010 01110101 01110011 01110100 01100001 01100011 01100101 01100001 01101110 01110011";
    let binary_string = Binary::from_str("Rustaceans").unwrap();

    assert_eq!(binary_raw, binary_string.to_string());
}

#[test]
fn lib_converts_to_ascii() {
    let original = "Rustaceans";
    let decoded = Binary::from_str(original).unwrap();
    let decoded = decoded.decode().unwrap();

    assert_eq!(original.to_string(), decoded);
}

#[test]
fn it_sets_custom_config() {
    let conf: [ZeroWidthChar; 3] = [
        ZeroWidthChar::NonJoiner,
        ZeroWidthChar::Joiner,
        ZeroWidthChar::NoBreakSpace,
    ];

    let mut zw = ZeroWidth::new("Rustaceans").unwrap();

    zw.set_config(&conf);

    assert_eq!(zw.config().get(0).unwrap(), conf.get(0).unwrap());
    assert_eq!(zw.config().get(1).unwrap(), conf.get(1).unwrap());
    assert_eq!(zw.config().get(2).unwrap(), conf.get(2).unwrap());
}

#[test]
fn single_letter_streams() {
    let zw = ZeroWidth::new("A").unwrap();
    assert_eq!(zw.get_binary_string(), "01000001");
    assert_eq!(
        zw.to_unicode(),
        "\u{200b}\u{200c}\u{200b}\u{200b}\u{200b}\u{200b}\u{200b}\u{200c}"
    );
    assert_eq!(zw.to_unicode().chars().count(), 8);
    assert_eq!(
        zw.to_html(),
        "&#8203;&#8204;&#8203;&#8203;&#8203;&#8203;&#8203;&#8204;"
    );
}

#[test]
fn empty_text_gives_empty_streams() {
    let zw = ZeroWidth::new("").unwrap();
    assert_eq!(zw.get_binary_string(), "");
    assert_eq!(zw.to_unicode(), "");
    assert_eq!(zw.to_html(), "");
    assert_eq!(zw.decode(""), Ok(String::new()));
}

#[test]
fn round_trip_unicode_default() {
    for text in ["Rustaceans", "A", "Hello, World!", " ~\u{7f}", "caf\u{e9} \u{263a}"] {
        let zw = ZeroWidth::new(text).unwrap();
        assert_eq!(zw.decode(&zw.to_unicode()), Ok(text.to_string()));
        assert_eq!(zw.from_unicode(&zw.to_unicode()), Ok(text.to_string()));
    }
}

#[test]
fn round_trip_html_default() {
    for text in ["Rustaceans", "A", "Hello, World!", " ~\u{7f}", "caf\u{e9} \u{263a}"] {
        let zw = ZeroWidth::new(text).unwrap();
        assert_eq!(zw.decode(&zw.to_html()), Ok(text.to_string()));
        assert_eq!(zw.from_html(&zw.to_html()), Ok(text.to_string()));
    }
}

#[test]
fn round_trip_with_custom_config() {
    let mut zw = ZeroWidth::new("Rustaceans").unwrap();
    zw.set_config(&[
        ZeroWidthChar::WordJoiner,
        ZeroWidthChar::NoBreakSpace,
        ZeroWidthChar::Space,
    ]);
    assert_eq!(zw.decode(&zw.to_unicode()), Ok("Rustaceans".to_string()));
    assert_eq!(zw.decode(&zw.to_html()), Ok("Rustaceans".to_string()));
}

#[test]
fn stream_never_ends_with_separator() {
    let zw = ZeroWidth::new("Rustaceans").unwrap();
    assert!(!zw.to_unicode().ends_with('\u{200d}'));
    assert!(!zw.to_html().ends_with("&#8205;"));
    assert!(zw.to_html().ends_with("&#8204;"));
}

#[test]
fn mapping_changes_symbols_not_structure() {
    let mut zw = ZeroWidth::new("Rustaceans").unwrap();
    let default_unicode = zw.to_unicode();
    let default_html = zw.to_html();
    zw.set_config(&[
        ZeroWidthChar::NonJoiner,
        ZeroWidthChar::Joiner,
        ZeroWidthChar::NoBreakSpace,
    ]);
    let custom_unicode = zw.to_unicode();
    let custom_html = zw.to_html();
    assert_ne!(default_unicode, custom_unicode);
    assert_eq!(default_unicode.chars().count(), 89);
    assert_eq!(custom_unicode.chars().count(), 89);
    assert_eq!(default_html.matches('&').count(), 89);
    assert_eq!(custom_html.matches('&').count(), 89);
    assert_eq!(default_html.matches(';').count(), 89);
    assert_eq!(custom_html.matches(';').count(), 89);
    assert_ne!(default_html.len(), custom_html.len());
    assert_eq!(default_unicode.matches('\u{200d}').count(), 9);
    assert_eq!(custom_unicode.matches('\u{feff}').count(), 9);
    assert_eq!(custom_html.matches("&#65279;").count(), 9);
}

#[test]
fn three_entities_without_separator_are_invalid_digits() {
    let zw = ZeroWidth::new("").unwrap();
    assert_eq!(zw.decode("&#8204;&#8203;&#8204;"), Err(Error::InvalidDigits));
}

#[test]
fn unknown_symbol_is_ambiguous() {
    let zw = ZeroWidth::new("").unwrap();
    assert_eq!(zw.decode("\u{200b}\u{2060}"), Err(Error::AmbiguousSymbol));
    assert_eq!(zw.decode("&#8203;&#8288;"), Err(Error::AmbiguousSymbol));
    assert_eq!(zw.decode("&#8203;x"), Err(Error::AmbiguousSymbol));
}

#[test]
fn stream_from_other_mapping_is_ambiguous() {
    let mut zw = ZeroWidth::new("A").unwrap();
    zw.set_config(&[
        ZeroWidthChar::WordJoiner,
        ZeroWidthChar::NoBreakSpace,
        ZeroWidthChar::Joiner,
    ]);
    let stream = zw.to_unicode();
    let fresh = ZeroWidth::new("").unwrap();
    assert_eq!(fresh.decode(&stream), Err(Error::AmbiguousSymbol));
}

#[test]
fn plain_text_is_undetermined() {
    let zw = ZeroWidth::new("").unwrap();
    assert_eq!(zw.decode("Lorem Ipsum"), Err(Error::UndeterminedFormat));
}

#[test]
fn decoded_bytes_must_be_utf8() {
    let zw = ZeroWidth::new("").unwrap();
    // eight ones: the byte 0xFF
    let stream = "\u{200c}".repeat(8);
    assert_eq!(zw.decode(&stream), Err(Error::InvalidText));
}

#[test]
fn duplicate_roles_are_accepted_but_ambiguous_to_decode() {
    let mut zw = ZeroWidth::new("A").unwrap();
    zw.set_config(&[ZeroWidthChar::Space, ZeroWidthChar::Space, ZeroWidthChar::Space]);
    assert_eq!(zw.to_unicode(), "\u{200b}".repeat(8));
    assert_eq!(zw.decode(&zw.to_unicode()), Err(Error::AmbiguousSymbol));
    assert_eq!(zw.decode(&zw.to_html()), Err(Error::AmbiguousSymbol));

    zw.set_config(&[ZeroWidthChar::Space, ZeroWidthChar::Space, ZeroWidthChar::Joiner]);
    assert_eq!(zw.decode(&zw.to_unicode()), Err(Error::AmbiguousSymbol));
    assert_eq!(zw.decode(&zw.to_html()), Err(Error::AmbiguousSymbol));
}

#[test]
fn symbol_with_one_role_decodes_beside_shared_one() {
    let mut zw = ZeroWidth::new("").unwrap();
    zw.set_config(&[ZeroWidthChar::Space, ZeroWidthChar::Space, ZeroWidthChar::Joiner]);
    assert_eq!(zw.decode("\u{200d}"), Err(Error::InvalidDigits));
}

#[test]
fn symbol_lookups_follow_config() {
    let zw = ZeroWidth::new("A").unwrap();
    assert_eq!(zw.get_from_binary(BinaryUnit::Zero), ZeroWidthChar::Space);
    assert_eq!(zw.get_from_binary(BinaryUnit::One), ZeroWidthChar::NonJoiner);
    assert_eq!(zw.get_from_binary(BinaryUnit::Space), ZeroWidthChar::Joiner);
    assert_eq!(zw.get_unicode_from_binary(BinaryUnit::One), '\u{200c}');
    assert_eq!(zw.get_html_from_binary(BinaryUnit::Space), "&#8205;");
}

#[test]
fn symbol_table_representations() {
    assert_eq!(ZeroWidthChar::Space.as_unicode(), '\u{200b}');
    assert_eq!(ZeroWidthChar::NonJoiner.as_unicode(), '\u{200c}');
    assert_eq!(ZeroWidthChar::Joiner.as_unicode(), '\u{200d}');
    assert_eq!(ZeroWidthChar::WordJoiner.as_unicode(), '\u{2060}');
    assert_eq!(ZeroWidthChar::NoBreakSpace.as_unicode(), '\u{feff}');
    assert_eq!(ZeroWidthChar::Space.as_html(), "&#8203;");
    assert_eq!(ZeroWidthChar::NonJoiner.as_html(), "&#8204;");
    assert_eq!(ZeroWidthChar::Joiner.as_html(), "&#8205;");
    assert_eq!(ZeroWidthChar::WordJoiner.as_html(), "&#8288;");
    assert_eq!(ZeroWidthChar::NoBreakSpace.as_html(), "&#65279;");
}

#[test]
fn from_binary_uses_default_config() {
    let zw = ZeroWidth::from(Binary::from_text("A"));
    assert_eq!(
        zw.config(),
        [ZeroWidthChar::Space, ZeroWidthChar::NonJoiner, ZeroWidthChar::Joiner]
    );
    assert_eq!(zw.get_binary_string(), "01000001");
}
