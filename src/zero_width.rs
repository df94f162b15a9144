use vstd::prelude::*;
use vstd::string::StringExecFns;
use vstd::utf8::encode_utf8;

use crate::binary::{
    binary_of, byte_digits, decode_binary, is_digit_group, lemma_binary_chars, lemma_fixed_width,
    lemma_prefixed_concat, lemma_text_round_trip, prefixed, text_of_binary, Binary, BinaryUnit,
};
use crate::error::{text_result, Error};
use crate::input::{
    detected_format, is_symbol_code_point, lemma_detect_html, lemma_detect_unicode, Input,
};
use crate::text::{chars_of, matches_at, push_char};
use crate::zero_width_char::{
    entity_text, lemma_code_point_injective, lemma_entity_len, lemma_entity_prefix_free,
    lemma_entity_suffix_free, lemma_entity_text_semicolons, semicolon_count, ZeroWidthChar,
};

verus! {

/// Character replacement configuration: the symbols that stand for the
/// binary characters `0`, `1` and the space between groups, in this order.
///
/// The default is `[Space, NonJoiner, Joiner]`.
pub type ReplacementConfig = [ZeroWidthChar; 3];

/// Zero width characters builder: the binary representation of a text and
/// the configuration that turns it into invisible symbols.
pub struct ZeroWidth {
    binary: Binary,
    config: ReplacementConfig,
}

/// The default configuration.
pub open spec fn default_config() -> Seq<ZeroWidthChar> {
    seq![ZeroWidthChar::Space, ZeroWidthChar::NonJoiner, ZeroWidthChar::Joiner]
}

/// The slot of a configuration that governs a binary character.
pub open spec fn unit_index(u: BinaryUnit) -> int {
    match u {
        BinaryUnit::Zero => 0,
        BinaryUnit::One => 1,
        BinaryUnit::Space => 2,
    }
}

/// The role of a character of a binary representation.
pub open spec fn unit_of(c: char) -> BinaryUnit {
    if c == '0' {
        BinaryUnit::Zero
    } else if c == ' ' {
        BinaryUnit::Space
    } else {
        BinaryUnit::One
    }
}

/// The symbol that stands for each character of `bin` under `cfg`.
pub open spec fn symbols_of(bin: Seq<char>, cfg: Seq<ZeroWidthChar>) -> Seq<ZeroWidthChar> {
    bin.map_values(|c: char| cfg[unit_index(unit_of(c))])
}

/// The Unicode stream of `bin` under `cfg`: one code point per character.
pub open spec fn unicode_stream(bin: Seq<char>, cfg: Seq<ZeroWidthChar>) -> Seq<char> {
    symbols_of(bin, cfg).map_values(|z: ZeroWidthChar| z.code_point())
}

/// The HTML stream of `bin` under `cfg`: the entities of its symbols, with
/// nothing between them.
pub open spec fn html_stream(bin: Seq<char>, cfg: Seq<ZeroWidthChar>) -> Seq<char> {
    entity_text(symbols_of(bin, cfg))
}

/// The binary character that a code point stands for under `cfg`: the
/// role whose symbol it is, when exactly one role has it; `None` when no
/// role or more than one has it.
pub open spec fn unicode_digit(cfg: Seq<ZeroWidthChar>, c: char) -> Option<char> {
    let is_sep = c == cfg[2].code_point();
    let is_zero = c == cfg[0].code_point();
    let is_one = c == cfg[1].code_point();
    if is_sep && !is_zero && !is_one {
        Some(' ')
    } else if is_zero && !is_sep && !is_one {
        Some('0')
    } else if is_one && !is_sep && !is_zero {
        Some('1')
    } else {
        None
    }
}

/// The binary representation that a Unicode stream stands for under `cfg`;
/// `None` when one of its code points has no role.
pub open spec fn unicode_binary(raw: Seq<char>, cfg: Seq<ZeroWidthChar>) -> Option<Seq<char>> {
    if forall|i: int| 0 <= i < raw.len() ==> #[trigger] unicode_digit(cfg, raw[i]) is Some {
        Some(raw.map_values(|c: char| unicode_digit(cfg, c)->0))
    } else {
        None
    }
}

/// The binary representation that an HTML stream stands for under `cfg`,
/// read one entity at a time from the front. The stream must start with the
/// entity of exactly one role; `None` when it starts with none, or with an
/// entity that more than one role has.
pub open spec fn html_binary(raw: Seq<char>, cfg: Seq<ZeroWidthChar>) -> Option<Seq<char>>
    decreases raw.len(),
{
    let is_sep = cfg[2].entity().is_prefix_of(raw);
    let is_zero = cfg[0].entity().is_prefix_of(raw);
    let is_one = cfg[1].entity().is_prefix_of(raw);
    if raw.len() == 0 {
        Some(seq![])
    } else if is_sep && !is_zero && !is_one {
        prefixed(seq![' '], html_binary(raw.skip(cfg[2].entity().len() as int), cfg))
    } else if is_zero && !is_sep && !is_one {
        prefixed(seq!['0'], html_binary(raw.skip(cfg[0].entity().len() as int), cfg))
    } else if is_one && !is_sep && !is_zero {
        prefixed(seq!['1'], html_binary(raw.skip(cfg[1].entity().len() as int), cfg))
    } else {
        None
    }
}

/// The binary representation of a stream written in `format`.
pub open spec fn stream_binary(raw: Seq<char>, cfg: Seq<ZeroWidthChar>, format: Input) -> Option<
    Seq<char>,
> {
    match format {
        Input::Unicode => unicode_binary(raw, cfg),
        Input::HTML => html_binary(raw, cfg),
    }
}

/// What decoding a stream written in `format` gives.
pub open spec fn stream_text(raw: Seq<char>, cfg: Seq<ZeroWidthChar>, format: Input) -> Result<
    Seq<char>,
    Error,
> {
    match stream_binary(raw, cfg, format) {
        None => Err(Error::AmbiguousSymbol),
        Some(d) => text_of_binary(d),
    }
}

/// What decoding a stream of unknown form gives: the empty stream is the
/// empty text, and any other is read in the form that is detected.
pub open spec fn decode_stream(raw: Seq<char>, cfg: Seq<ZeroWidthChar>) -> Result<
    Seq<char>,
    Error,
> {
    if raw.len() == 0 {
        Ok(seq![])
    } else {
        match detected_format(raw) {
            None => Err(Error::UndeterminedFormat),
            Some(f) => stream_text(raw, cfg, f),
        }
    }
}

/// A configuration with a different symbol for each role.
pub open spec fn is_unambiguous(cfg: Seq<ZeroWidthChar>) -> bool {
    &&& cfg.len() == 3
    &&& cfg[0] != cfg[1]
    &&& cfg[0] != cfg[2]
    &&& cfg[1] != cfg[2]
}

/// Only `0`, `1` and spaces.
pub open spec fn is_binary_text(bin: Seq<char>) -> bool {
    forall|i: int| 0 <= i < bin.len() ==> #[trigger] bin[i] == '0' || bin[i] == '1' || bin[i] == ' '
}

proof fn lemma_unicode_binary_of_stream(bin: Seq<char>, cfg: Seq<ZeroWidthChar>)
    requires
        is_unambiguous(cfg),
        is_binary_text(bin),
    ensures
        unicode_binary(unicode_stream(bin, cfg), cfg) == Some(bin),
{
    let u = unicode_stream(bin, cfg);
    lemma_code_point_injective(cfg[0], cfg[1]);
    lemma_code_point_injective(cfg[0], cfg[2]);
    lemma_code_point_injective(cfg[1], cfg[2]);
    assert forall|i: int| 0 <= i < u.len() implies #[trigger] unicode_digit(cfg, u[i]) == Some(
        bin[i],
    ) by {
        assert(bin[i] == '0' || bin[i] == '1' || bin[i] == ' ');
    }
    assert(u.map_values(|c: char| unicode_digit(cfg, c)->0) =~= bin);
}

proof fn lemma_html_binary_of_stream(bin: Seq<char>, cfg: Seq<ZeroWidthChar>)
    requires
        is_unambiguous(cfg),
        is_binary_text(bin),
    ensures
        html_binary(html_stream(bin, cfg), cfg) == Some(bin),
    decreases bin.len(),
{
    let h = html_stream(bin, cfg);
    let zs = symbols_of(bin, cfg);
    let es = zs.map_values(|z: ZeroWidthChar| z.entity());
    if bin.len() == 0 {
        assert(h =~= Seq::<char>::empty());
        assert(bin =~= Seq::<char>::empty());
    } else {
        let rest = bin.drop_first();
        assert(is_binary_text(rest)) by {
            assert forall|i: int| 0 <= i < rest.len() implies #[trigger] rest[i] == '0' || rest[i]
                == '1' || rest[i] == ' ' by {
                assert(rest[i] == bin[i + 1]);
            }
        }
        lemma_html_binary_of_stream(rest, cfg);
        let r = html_stream(rest, cfg);
        assert(es.drop_first() =~= symbols_of(rest, cfg).map_values(
            |z: ZeroWidthChar| z.entity(),
        ));
        let z0 = zs[0];
        let e0 = z0.entity();
        assert(h == e0 + r);
        assert((e0 + r).skip(e0.len() as int) =~= r);
        assert((e0 + r).subrange(0, e0.len() as int) =~= e0);
        assert(bin[0] == '0' || bin[0] == '1' || bin[0] == ' ');
        if bin[0] == ' ' {
            lemma_entity_prefix_free(z0, cfg[0], r);
            lemma_entity_prefix_free(z0, cfg[1], r);
            assert(seq![' '] + rest =~= bin);
        } else if bin[0] == '0' {
            lemma_entity_prefix_free(z0, cfg[2], r);
            lemma_entity_prefix_free(z0, cfg[1], r);
            assert(seq!['0'] + rest =~= bin);
        } else {
            lemma_entity_prefix_free(z0, cfg[2], r);
            lemma_entity_prefix_free(z0, cfg[0], r);
            assert(seq!['1'] + rest =~= bin);
        }
    }
}

/// Under a configuration with a different symbol for each role, decoding
/// the Unicode stream or the HTML stream of a text gives the text back.
pub proof fn lemma_round_trip_with(text: Seq<char>, cfg: Seq<ZeroWidthChar>)
    requires
        is_unambiguous(cfg),
    ensures
        decode_stream(unicode_stream(binary_of(encode_utf8(text)), cfg), cfg) == Ok::<
            Seq<char>,
            Error,
        >(text),
        decode_stream(html_stream(binary_of(encode_utf8(text)), cfg), cfg) == Ok::<
            Seq<char>,
            Error,
        >(text),
{
    let bin = binary_of(encode_utf8(text));
    let zs = symbols_of(bin, cfg);
    let u = unicode_stream(bin, cfg);
    let h = html_stream(bin, cfg);
    lemma_text_round_trip(text);
    lemma_binary_chars(encode_utf8(text));
    lemma_unicode_binary_of_stream(bin, cfg);
    lemma_html_binary_of_stream(bin, cfg);
    if text.len() == 0 {
        assert(u =~= Seq::<char>::empty());
        assert(h =~= Seq::<char>::empty());
        assert(text =~= Seq::<char>::empty());
    } else {
        assert forall|i: int| 0 <= i < u.len() implies is_symbol_code_point(#[trigger] u[i]) by {
            assert(u[i] == zs[i].code_point());
        }
        lemma_detect_unicode(u);
        lemma_detect_html(zs);
        let es = zs.map_values(|z: ZeroWidthChar| z.entity());
        assert(h == es[0] + es.drop_first().flatten());
        lemma_entity_len(zs[0]);
    }
}

/// Under the default configuration, decoding the Unicode stream or the HTML
/// stream of a text gives the text back.
pub proof fn lemma_round_trip(text: Seq<char>)
    ensures
        decode_stream(unicode_stream(binary_of(encode_utf8(text)), default_config()), default_config())
            == Ok::<Seq<char>, Error>(text),
        decode_stream(html_stream(binary_of(encode_utf8(text)), default_config()), default_config())
            == Ok::<Seq<char>, Error>(text),
{
    lemma_round_trip_with(text, default_config());
}

/// The stream of a text that is not empty never ends with the separator's
/// symbol, in either form, when the separator's symbol is not also the
/// symbol of a digit.
pub proof fn lemma_no_trailing_separator(text: Seq<char>, cfg: Seq<ZeroWidthChar>)
    requires
        text.len() > 0,
        cfg.len() == 3,
        cfg[2] != cfg[0],
        cfg[2] != cfg[1],
    ensures
        unicode_stream(binary_of(encode_utf8(text)), cfg).last() != cfg[2].code_point(),
        !cfg[2].entity().is_suffix_of(html_stream(binary_of(encode_utf8(text)), cfg)),
{
    let b = encode_utf8(text);
    let bin = binary_of(b);
    let n = b.len() as int;
    lemma_text_round_trip(text);
    lemma_fixed_width(b);
    assert(n > 0);
    let g = bin.subrange(9 * (n - 1), 9 * (n - 1) + 8);
    assert(g == byte_digits(b[n - 1]) && is_digit_group(g)) by {
        let last = b[n - 1];
    }
    assert(bin[bin.len() - 1] == g[7]);
    let zs = symbols_of(bin, cfg);
    let z = zs[zs.len() - 1];
    assert(z == cfg[0] || z == cfg[1]);
    lemma_code_point_injective(z, cfg[2]);
    let es = zs.map_values(|z: ZeroWidthChar| z.entity());
    es.drop_last().lemma_flatten_push(es.last());
    assert(es.drop_last().push(es.last()) =~= es);
    lemma_entity_suffix_free(z, cfg[2], es.drop_last().flatten());
}

/// Changing the configuration changes which symbols a stream is written
/// with, not its structure: under any two configurations the stream of a
/// text has the same number of symbols, nine per byte less one, in either
/// form (an HTML stream holds one `;` per entity), and the symbols at each
/// position stand for the same binary character.
pub proof fn lemma_mapping_independence(
    text: Seq<char>,
    c1: Seq<ZeroWidthChar>,
    c2: Seq<ZeroWidthChar>,
)
    requires
        c1.len() == 3,
        c2.len() == 3,
    ensures
        ({
            let b = encode_utf8(text);
            let bin = binary_of(b);
            &&& symbols_of(bin, c1).len() == symbols_of(bin, c2).len()
            &&& unicode_stream(bin, c1).len() == unicode_stream(bin, c2).len()
            &&& unicode_stream(bin, c1).len() == if b.len() == 0 {
                0
            } else {
                9 * b.len() - 1
            }
            &&& semicolon_count(html_stream(bin, c1)) == unicode_stream(bin, c1).len()
            &&& semicolon_count(html_stream(bin, c2)) == unicode_stream(bin, c2).len()
            &&& forall|i: int|
                0 <= i < bin.len() ==> exists|k: int|
                    0 <= k < 3 && #[trigger] symbols_of(bin, c1)[i] == c1[k] && symbols_of(
                        bin,
                        c2,
                    )[i] == c2[k]
        }),
{
    let b = encode_utf8(text);
    let bin = binary_of(b);
    lemma_fixed_width(b);
    lemma_entity_text_semicolons(symbols_of(bin, c1));
    lemma_entity_text_semicolons(symbols_of(bin, c2));
    assert forall|i: int| 0 <= i < bin.len() implies exists|k: int|
        0 <= k < 3 && #[trigger] symbols_of(bin, c1)[i] == c1[k] && symbols_of(bin, c2)[i]
            == c2[k] by {
        let k = unit_index(unit_of(bin[i]));
        assert(symbols_of(bin, c1)[i] == c1[k] && symbols_of(bin, c2)[i] == c2[k]);
    }
}

fn unit_of_char(c: char) -> (r: BinaryUnit)
    ensures
        r == unit_of(c),
{
    if c == '0' {
        BinaryUnit::Zero
    } else if c == ' ' {
        BinaryUnit::Space
    } else {
        BinaryUnit::One
    }
}

impl From<Binary> for ZeroWidth {
    fn from(binary: Binary) -> (r: ZeroWidth)
        ensures
            r.digits() == binary@,
            r.mapping() == default_config(),
    {
        let config: ReplacementConfig = [
            ZeroWidthChar::Space,
            ZeroWidthChar::NonJoiner,
            ZeroWidthChar::Joiner,
        ];
        let r = ZeroWidth { binary, config };
        assert(r.mapping() =~= default_config());
        r
    }
}

impl vstd::std_specs::convert::FromSpecImpl<Binary> for ZeroWidth {
    open spec fn obeys_from_spec() -> bool {
        true
    }

    closed spec fn from_spec(v: Binary) -> ZeroWidth {
        ZeroWidth {
            binary: v,
            config: [ZeroWidthChar::Space, ZeroWidthChar::NonJoiner, ZeroWidthChar::Joiner],
        }
    }
}

impl ZeroWidth {
    /// The binary representation held.
    pub closed spec fn digits(&self) -> Seq<char> {
        self.binary@
    }

    /// The configuration in use, slot by slot.
    pub closed spec fn mapping(&self) -> Seq<ZeroWidthChar> {
        self.config@
    }

    /// Creates a new `ZeroWidth` instance for a text, with the default
    /// configuration.
    pub fn new(string: &str) -> (r: Result<ZeroWidth, Error>)
        ensures
            r is Ok,
            r matches Ok(z) ==> z.digits() == binary_of(encode_utf8(string@)) && z.mapping()
                == default_config(),
    {
        let binary = Binary::from_text(string);
        Ok(ZeroWidth::from(binary))
    }

    /// Sets the replacement characters configuration, as it is: there is no
    /// validation. A configuration that gives one symbol to two roles is
    /// accepted; streams that use that symbol then fail to decode with
    /// `AmbiguousSymbol`.
    pub fn set_config(&mut self, config: &ReplacementConfig)
        ensures
            final(self).mapping() == config@,
            final(self).digits() == old(self).digits(),
    {
        self.config = *config;
    }

    /// The configuration in use.
    pub fn config(&self) -> (r: ReplacementConfig)
        ensures
            r@ == self.mapping(),
    {
        self.config
    }

    /// Retrieves the binary representation of the text.
    pub fn get_binary_string(&self) -> (r: String)
        ensures
            r@ == self.digits(),
    {
        self.binary.to_string()
    }

    /// The symbol that stands for `unit`.
    pub fn get_from_binary(&self, unit: BinaryUnit) -> (r: ZeroWidthChar)
        ensures
            r == self.mapping()[unit_index(unit)],
    {
        match unit {
            BinaryUnit::Zero => self.config[0],
            BinaryUnit::One => self.config[1],
            BinaryUnit::Space => self.config[2],
        }
    }

    /// The **Unicode** code point that stands for `unit`.
    pub fn get_unicode_from_binary(&self, unit: BinaryUnit) -> (r: char)
        ensures
            r == self.mapping()[unit_index(unit)].code_point(),
    {
        self.get_from_binary(unit).as_unicode()
    }

    /// The **HTML** entity that stands for `unit`.
    pub fn get_html_from_binary(&self, unit: BinaryUnit) -> (r: String)
        ensures
            r@ == self.mapping()[unit_index(unit)].entity(),
    {
        String::from_str(self.get_from_binary(unit).as_html())
    }

    /// The Unicode stream of the text: one code point per binary character.
    pub fn to_unicode(&self) -> (r: String)
        ensures
            r@ == unicode_stream(self.digits(), self.mapping()),
    {
        let bin = chars_of(self.get_binary_string().as_str());
        let mut out = String::new();
        for c in it: bin
            invariant
                bin@ == self.digits(),
                out@ == unicode_stream(self.digits(), self.mapping()).take(it.index() as int),
        {
            push_char(&mut out, self.get_unicode_from_binary(unit_of_char(c)));
            assert(out@ =~= unicode_stream(self.digits(), self.mapping()).take(it.index() + 1));
        }
        assert(out@ =~= unicode_stream(self.digits(), self.mapping()));
        out
    }

    /// The HTML stream of the text: one entity per binary character.
    pub fn to_html(&self) -> (r: String)
        ensures
            r@ == html_stream(self.digits(), self.mapping()),
    {
        let bin = chars_of(self.get_binary_string().as_str());
        let ghost entities = symbols_of(self.digits(), self.mapping()).map_values(
            |z: ZeroWidthChar| z.entity(),
        );
        let mut out = String::new();
        for c in it: bin
            invariant
                bin@ == self.digits(),
                entities == symbols_of(self.digits(), self.mapping()).map_values(
                    |z: ZeroWidthChar| z.entity(),
                ),
                out@ == entities.take(it.index() as int).flatten(),
        {
            let entity = self.get_html_from_binary(unit_of_char(c));
            out.append(entity.as_str());
            proof {
                entities.take(it.index() as int).lemma_flatten_push(entities[it.index() as int]);
                assert(entities.take(it.index() as int).push(entities[it.index() as int])
                    =~= entities.take(it.index() + 1));
            }
        }
        assert(entities.take(bin@.len() as int) =~= entities);
        out
    }

    /// The separator's symbol, written in `raw_type`.
    fn get_separator(&self, raw_type: Input) -> (r: String)
        ensures
            r@ == match raw_type {
                Input::HTML => self.mapping()[2].entity(),
                Input::Unicode => seq![self.mapping()[2].code_point()],
            },
    {
        let separator = self.config[2];
        match raw_type {
            Input::HTML => String::from_str(separator.as_html()),
            Input::Unicode => {
                let mut s = String::new();
                push_char(&mut s, separator.as_unicode());
                assert(s@ =~= seq![separator.code_point()]);
                s
            },
        }
    }

    /// Decodes a stream of unknown form: the empty stream gives the empty
    /// text; any other is detected as Unicode or HTML and read in that form.
    ///
    /// Fails with `UndeterminedFormat` when no marker is found, with
    /// `AmbiguousSymbol` when a symbol belongs to no role or to more than one
    /// role of the configuration, and with the errors of [`decode_binary`]
    /// on the binary representation read. A stream shorter than one group,
    /// such as the three entities `&#8204;&#8203;&#8204;`, reads as the
    /// binary `101` and fails with `InvalidDigits`.
    pub fn decode(&self, raw: &str) -> (r: Result<String, Error>)
        ensures
            text_result(r) == decode_stream(raw@, self.mapping()),
    {
        if raw.is_empty() {
            return Ok(String::new());
        }
        match Input::detect(raw) {
            Ok(Input::HTML) => self.from_html(raw),
            Ok(Input::Unicode) => self.from_unicode(raw),
            Err(e) => Err(Error::from(e)),
        }
    }

    /// Decodes a stream of HTML entities.
    pub fn from_html(&self, raw: &str) -> (r: Result<String, Error>)
        ensures
            text_result(r) == stream_text(raw@, self.mapping(), Input::HTML),
    {
        let chars = chars_of(raw);
        let sep = chars_of(self.get_separator(Input::HTML).as_str());
        let zero = chars_of(self.get_html_from_binary(BinaryUnit::Zero).as_str());
        let one = chars_of(self.get_html_from_binary(BinaryUnit::One).as_str());
        let ghost cfg = self.mapping();
        proof {
            lemma_entity_len(cfg[0]);
            lemma_entity_len(cfg[1]);
            lemma_entity_len(cfg[2]);
        }
        let mut digits = String::new();
        let mut pos: usize = 0;
        assert(raw@.skip(0) =~= raw@);
        proof {
            lemma_prefixed_concat(seq![], seq![], html_binary(raw@, cfg));
            assert(seq![] + seq![] =~= Seq::<char>::empty());
        }
        while pos < chars.len()
            invariant
                pos <= chars.len(),
                chars@ == raw@,
                cfg == self.mapping(),
                cfg.len() == 3,
                sep@ == cfg[2].entity(),
                zero@ == cfg[0].entity(),
                one@ == cfg[1].entity(),
                sep.len() > 0,
                zero.len() > 0,
                one.len() > 0,
                html_binary(raw@, cfg) == prefixed(
                    digits@,
                    html_binary(raw@.skip(pos as int), cfg),
                ),
            decreases chars.len() - pos,
        {
            let ghost rest = raw@.skip(pos as int);
            let ghost before = digits@;
            let is_sep = matches_at(&chars, pos, &sep);
            let is_zero = matches_at(&chars, pos, &zero);
            let is_one = matches_at(&chars, pos, &one);
            if is_sep && !is_zero && !is_one {
                push_char(&mut digits, ' ');
                proof {
                    assert(rest.skip(sep.len() as int) =~= raw@.skip(pos + sep.len()));
                    lemma_prefixed_concat(
                        before,
                        seq![' '],
                        html_binary(raw@.skip(pos + sep.len()), cfg),
                    );
                    assert(before + seq![' '] =~= digits@);
                }
                pos = pos + sep.len();
            } else if is_zero && !is_sep && !is_one {
                push_char(&mut digits, '0');
                proof {
                    assert(rest.skip(zero.len() as int) =~= raw@.skip(pos + zero.len()));
                    lemma_prefixed_concat(
                        before,
                        seq!['0'],
                        html_binary(raw@.skip(pos + zero.len()), cfg),
                    );
                    assert(before + seq!['0'] =~= digits@);
                }
                pos = pos + zero.len();
            } else if is_one && !is_sep && !is_zero {
                push_char(&mut digits, '1');
                proof {
                    assert(rest.skip(one.len() as int) =~= raw@.skip(pos + one.len()));
                    lemma_prefixed_concat(
                        before,
                        seq!['1'],
                        html_binary(raw@.skip(pos + one.len()), cfg),
                    );
                    assert(before + seq!['1'] =~= digits@);
                }
                pos = pos + one.len();
            } else {
                return Err(Error::AmbiguousSymbol);
            }
        }
        assert(raw@.skip(pos as int) =~= Seq::<char>::empty());
        assert(digits@ + seq![] =~= digits@);
        decode_binary(digits.as_str())
    }

    /// Decodes a stream of Unicode code points.
    pub fn from_unicode(&self, raw: &str) -> (r: Result<String, Error>)
        ensures
            text_result(r) == stream_text(raw@, self.mapping(), Input::Unicode),
    {
        let chars = chars_of(raw);
        let sep = chars_of(self.get_separator(Input::Unicode).as_str());
        let separator = sep[0];
        let zero = self.get_unicode_from_binary(BinaryUnit::Zero);
        let one = self.get_unicode_from_binary(BinaryUnit::One);
        let ghost cfg = self.mapping();
        let mut digits = String::new();
        for c in it: chars
            invariant
                chars@ == raw@,
                cfg == self.mapping(),
                cfg.len() == 3,
                separator == cfg[2].code_point(),
                zero == cfg[0].code_point(),
                one == cfg[1].code_point(),
                forall|j: int| 0 <= j < it.index() ==> #[trigger] unicode_digit(cfg, raw@[j]) is Some,
                digits@ == raw@.take(it.index() as int).map_values(
                    |c: char| unicode_digit(cfg, c)->0,
                ),
        {
            let is_sep = c == separator;
            let is_zero = c == zero;
            let is_one = c == one;
            if is_sep && !is_zero && !is_one {
                push_char(&mut digits, ' ');
            } else if is_zero && !is_sep && !is_one {
                push_char(&mut digits, '0');
            } else if is_one && !is_sep && !is_zero {
                push_char(&mut digits, '1');
            } else {
                assert(unicode_digit(cfg, raw@[it.index() as int]) is None);
                return Err(Error::AmbiguousSymbol);
            }
            assert(digits@ =~= raw@.take(it.index() + 1).map_values(
                |c: char| unicode_digit(cfg, c)->0,
            ));
        }
        assert(raw@.take(raw@.len() as int) =~= raw@);
        decode_binary(digits.as_str())
    }
}

} // verus!
