use std::str::FromStr;

use zwnbsp::{Input, NotSupportedText, Output};

#[test]
fn input_it_checks_raw_for_html() {
    let raw = "&#8204;&#8203;&#8204;";
    let found = Input::from_str(raw);

    assert_eq!(Input::HTML, found.unwrap());
}

#[test]
fn it_checks_raw_for_unicode() {
    let raw = " \u{200b}\u{200b}\u{200b}\u{200b}\u{200b}\u{200b}\u{200c}\u{200d}\u{200b}\u{200b}\u{200b}\u{200b}\u{200c}\u{200d}";
    let found = Input::from_str(raw);

    assert_eq!(Input::Unicode, found.unwrap());
}

#[test]
fn it_breaks_if_no_supported_text() {
    let raw = "Lorem Ipsum";
    let found = Input::from_str(raw);

    assert_eq!(Err(NotSupportedText), found);
}

#[test]
fn output_it_checks_raw_for_html() {
    let raw = "&#8204;&#8203;&#8204;";
    let found = Output::from_raw(raw);

    assert_eq!(Output::HTML, found.unwrap());
}

#[test]
fn output_is_none_for_short_or_plain_text() {
    assert_eq!(Output::from_raw("&#"), None);
    assert_eq!(Output::from_raw("Lorem"), None);
    assert_eq!(Output::from_raw(""), None);
    assert_eq!(Output::from_raw("&#8"), Some(Output::HTML));
}

#[test]
fn each_code_point_alone_is_unicode() {
    for c in ['\u{200b}', '\u{200c}', '\u{200d}', '\u{2060}', '\u{feff}'] {
        assert_eq!(Input::detect(&c.to_string()), Ok(Input::Unicode));
    }
}

#[test]
fn each_entity_alone_is_html() {
    for e in ["&#8203;", "&#8204;", "&#8205;", "&#8288;", "&#65279;"] {
        assert_eq!(Input::detect(e), Ok(Input::HTML));
    }
}

#[test]
fn code_point_is_looked_for_before_entity_of_same_symbol() {
    assert_eq!(Input::detect("&#8288;\u{2060}"), Ok(Input::Unicode));
    assert_eq!(Input::detect("&#8205;\u{200d}"), Ok(Input::Unicode));
}

#[test]
fn earlier_symbol_in_scan_order_decides() {
    assert_eq!(Input::detect("\u{200b}&#8288;"), Ok(Input::HTML));
    assert_eq!(Input::detect("&#8205;\u{200b}"), Ok(Input::HTML));
    assert_eq!(Input::detect("&#8203;\u{2060}"), Ok(Input::Unicode));
}

#[test]
fn empty_or_plain_text_is_undetermined() {
    assert_eq!(Input::detect(""), Err(NotSupportedText));
    assert_eq!(Input::detect("&#8206; plain"), Err(NotSupportedText));
}

#[test]
fn from_str_follows_scan_order() {
    assert_eq!(Input::from_str("&#8205;\u{200b}"), Ok(Input::HTML));
    assert_eq!(Input::from_str("\u{2060}&#8288;"), Ok(Input::Unicode));
    assert_eq!(Input::from_str(""), Err(NotSupportedText));
}
