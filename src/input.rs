use vstd::prelude::*;

use crate::text::{chars_of, contains_char, contains_seq, find_seq};
use crate::zero_width_char::{entity_text, ZeroWidthChar};

verus! {

/// The two forms in which a stream of invisible symbols can be written.
#[derive(Debug, Clone, Copy, PartialEq, Eq, Structural)]
pub enum Input {
    /// HTML numeric character references.
    HTML,
    /// Raw Unicode code points.
    Unicode,
}

/// The error of a stream that holds none of the known symbols.
#[derive(Debug, Clone, Copy, PartialEq, Eq, Structural)]
pub struct NotSupportedText;

/// The order in which the symbols are looked for.
pub open spec fn scan_symbol(k: int) -> ZeroWidthChar {
    if k == 0 {
        ZeroWidthChar::WordJoiner
    } else if k == 1 {
        ZeroWidthChar::Joiner
    } else if k == 2 {
        ZeroWidthChar::NoBreakSpace
    } else if k == 3 {
        ZeroWidthChar::NonJoiner
    } else {
        ZeroWidthChar::Space
    }
}

/// The form of `s` found by looking for the symbols from position `k` of
/// the scan order on: first the code point, then the entity of each.
pub open spec fn detect_from(s: Seq<char>, k: nat) -> Option<Input>
    decreases 5 - k,
{
    if k >= 5 {
        None
    } else if s.contains(scan_symbol(k as int).code_point()) {
        Some(Input::Unicode)
    } else if contains_seq(s, scan_symbol(k as int).entity()) {
        Some(Input::HTML)
    } else {
        detect_from(s, k + 1)
    }
}

/// The form of a stream; `None` when it holds none of the ten markers.
pub open spec fn detected_format(s: Seq<char>) -> Option<Input> {
    detect_from(s, 0)
}

/// One of the code points of the symbols.
pub open spec fn is_symbol_code_point(c: char) -> bool {
    ||| c == '\u{200B}'
    ||| c == '\u{200C}'
    ||| c == '\u{200D}'
    ||| c == '\u{2060}'
    ||| c == '\u{FEFF}'
}

/// The characters that the entities of the symbols are written with.
pub open spec fn is_entity_char(c: char) -> bool {
    c == '&' || c == '#' || c == ';' || ('0' <= c && c <= '9')
}

proof fn lemma_no_entity_without_ampersand(s: Seq<char>, z: ZeroWidthChar)
    requires
        !s.contains('&'),
    ensures
        !contains_seq(s, z.entity()),
{
    if contains_seq(s, z.entity()) {
        let i = choose|i: int|
            0 <= i && i + z.entity().len() <= s.len() && #[trigger] s.subrange(
                i,
                i + z.entity().len(),
            ) == z.entity();
        assert(s.subrange(i, i + z.entity().len())[0] == s[i]);
    }
}

/// A stream that is not empty and is written only in code points of the
/// symbols is detected as Unicode.
pub proof fn lemma_detect_unicode(s: Seq<char>)
    requires
        s.len() > 0,
        forall|i: int| 0 <= i < s.len() ==> is_symbol_code_point(#[trigger] s[i]),
    ensures
        detected_format(s) == Some(Input::Unicode),
{
    assert(!s.contains('&')) by {
        if s.contains('&') {
            let i = choose|i: int| 0 <= i < s.len() && s[i] == '&';
            assert(is_symbol_code_point(s[i]));
        }
    }
    assert forall|k: int| 0 <= k < 5 implies !contains_seq(s, #[trigger] scan_symbol(k).entity()) by {
        lemma_no_entity_without_ampersand(s, scan_symbol(k));
    }
    assert(s.contains(s[0]));
    assert(is_symbol_code_point(s[0]));
    assert(!contains_seq(s, scan_symbol(0).entity()));
    assert(!contains_seq(s, scan_symbol(1).entity()));
    assert(!contains_seq(s, scan_symbol(2).entity()));
    assert(!contains_seq(s, scan_symbol(3).entity()));
    assert(!contains_seq(s, scan_symbol(4).entity()));
    reveal_with_fuel(detect_from, 6);
}

proof fn lemma_entity_chars(z: ZeroWidthChar)
    ensures
        forall|i: int| 0 <= i < z.entity().len() ==> is_entity_char(#[trigger] z.entity()[i]),
{
}

proof fn lemma_entities_chars(zs: Seq<ZeroWidthChar>)
    ensures
        forall|i: int|
            0 <= i < entity_text(zs).len() ==> is_entity_char(#[trigger] entity_text(zs)[i]),
    decreases zs.len(),
{
    let es = zs.map_values(|z: ZeroWidthChar| z.entity());
    if zs.len() > 0 {
        let rest = zs.drop_first();
        lemma_entities_chars(rest);
        assert(es.drop_first() =~= rest.map_values(|z: ZeroWidthChar| z.entity()));
        let e = zs[0].entity();
        assert(es.flatten() == e + es.drop_first().flatten());
        lemma_entity_chars(zs[0]);
        assert forall|i: int| 0 <= i < es.flatten().len() implies is_entity_char(
            #[trigger] es.flatten()[i],
        ) by {
            if i >= e.len() {
                assert(es.drop_first().flatten() == entity_text(rest));
                assert(es.flatten()[i] == entity_text(rest)[i - e.len()]);
            } else {
                assert(es.flatten()[i] == e[i]);
            }
        }
    }
}

/// A stream that is not empty and is written only in entities of the
/// symbols is detected as HTML.
pub proof fn lemma_detect_html(zs: Seq<ZeroWidthChar>)
    requires
        zs.len() > 0,
    ensures
        detected_format(entity_text(zs)) == Some(Input::HTML),
{
    let es = zs.map_values(|z: ZeroWidthChar| z.entity());
    let s = es.flatten();
    lemma_entities_chars(zs);
    assert forall|k: int| 0 <= k < 5 implies !s.contains(
        #[trigger] scan_symbol(k).code_point(),
    ) by {
        if s.contains(scan_symbol(k).code_point()) {
            let i = choose|i: int| 0 <= i < s.len() && s[i] == scan_symbol(k).code_point();
            assert(is_entity_char(s[i]));
        }
    }
    let e = zs[0].entity();
    assert(s == e + es.drop_first().flatten());
    assert(s.subrange(0, 0 + e.len() as int) =~= e);
    assert(contains_seq(s, zs[0].entity()));
    assert(!s.contains(scan_symbol(0).code_point()));
    assert(!s.contains(scan_symbol(1).code_point()));
    assert(!s.contains(scan_symbol(2).code_point()));
    assert(!s.contains(scan_symbol(3).code_point()));
    assert(!s.contains(scan_symbol(4).code_point()));
    reveal_with_fuel(detect_from, 6);
}

/// A stream that holds none of the code points and none of the entities
/// of the symbols cannot be classified.
pub proof fn lemma_detect_none(s: Seq<char>)
    requires
        forall|z: ZeroWidthChar|
            !(#[trigger] s.contains(z.code_point())) && !contains_seq(s, z.entity()),
    ensures
        detected_format(s) is None,
{
    assert forall|k: int| 0 <= k < 5 implies !s.contains(#[trigger] scan_symbol(k).code_point())
        && !contains_seq(s, scan_symbol(k).entity()) by {
        let z = scan_symbol(k);
        assert(!s.contains(z.code_point()) && !contains_seq(s, z.entity()));
    }
    reveal_with_fuel(detect_from, 6);
}

/// The symbol at position `k` of the scan order.
fn scan_order(k: usize) -> (r: ZeroWidthChar)
    ensures
        r == scan_symbol(k as int),
{
    match k {
        0 => ZeroWidthChar::WordJoiner,
        1 => ZeroWidthChar::Joiner,
        2 => ZeroWidthChar::NoBreakSpace,
        3 => ZeroWidthChar::NonJoiner,
        _ => ZeroWidthChar::Space,
    }
}

impl Input {
    /// Tells whether `s` is written in Unicode code points or in HTML
    /// entities, by the first marker found in the scan order.
    pub fn detect(s: &str) -> (r: Result<Input, NotSupportedText>)
        ensures
            r == match detected_format(s@) {
                Some(f) => Ok::<Input, NotSupportedText>(f),
                None => Err(NotSupportedText),
            },
    {
        let chars = chars_of(s);
        let mut k: usize = 0;
        while k < 5
            invariant
                k <= 5,
                chars@ == s@,
                detected_format(s@) == detect_from(s@, k as nat),
            decreases 5 - k,
        {
            let symbol = scan_order(k);
            if contains_char(&chars, symbol.as_unicode()) {
                return Ok(Input::Unicode);
            }
            let entity = chars_of(symbol.as_html());
            if find_seq(&chars, &entity) {
                return Ok(Input::HTML);
            }
            k = k + 1;
        }
        Err(NotSupportedText)
    }
}

impl std::str::FromStr for Input {
    type Err = NotSupportedText;

    /// The form of `s`, as [`Input::detect`] finds it.
    fn from_str(s: &str) -> (r: Result<Input, NotSupportedText>)
        ensures
            r == match detected_format(s@) {
                Some(f) => Ok::<Input, NotSupportedText>(f),
                None => Err(NotSupportedText),
            },
    {
        Input::detect(s)
    }
}

} // verus!
