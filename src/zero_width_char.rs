use vstd::prelude::*;

verus! {

/// The closed set of invisible symbols that streams are built from.
///
/// Each symbol has a Unicode code point and an HTML numeric character
/// reference.
#[derive(Debug, Clone, Copy, PartialEq, Eq, Structural)]
pub enum ZeroWidthChar {
    /// Zero-width space (ZWSP): `U+200B`, `&#8203;`.
    Space,
    /// Zero-width non-joiner (ZWNJ): `U+200C`, `&#8204;`.
    NonJoiner,
    /// Zero-width joiner (ZWJ): `U+200D`, `&#8205;`.
    Joiner,
    /// Word joiner (WJ): `U+2060`, `&#8288;`.
    WordJoiner,
    /// Zero-width no-break space (ZWNBSP): `U+FEFF`, `&#65279;`.
    NoBreakSpace,
}

/// The entities of a sequence of symbols, with nothing between them.
pub open spec fn entity_text(zs: Seq<ZeroWidthChar>) -> Seq<char> {
    zs.map_values(|z: ZeroWidthChar| z.entity()).flatten()
}

impl ZeroWidthChar {
    /// The Unicode code point of the symbol.
    pub open spec fn code_point(self) -> char {
        match self {
            ZeroWidthChar::Space => '\u{200B}',
            ZeroWidthChar::NonJoiner => '\u{200C}',
            ZeroWidthChar::Joiner => '\u{200D}',
            ZeroWidthChar::WordJoiner => '\u{2060}',
            ZeroWidthChar::NoBreakSpace => '\u{FEFF}',
        }
    }

    /// The HTML numeric character reference of the symbol.
    pub open spec fn entity(self) -> Seq<char> {
        match self {
            ZeroWidthChar::Space => seq!['&', '#', '8', '2', '0', '3', ';'],
            ZeroWidthChar::NonJoiner => seq!['&', '#', '8', '2', '0', '4', ';'],
            ZeroWidthChar::Joiner => seq!['&', '#', '8', '2', '0', '5', ';'],
            ZeroWidthChar::WordJoiner => seq!['&', '#', '8', '2', '8', '8', ';'],
            ZeroWidthChar::NoBreakSpace => seq!['&', '#', '6', '5', '2', '7', '9', ';'],
        }
    }

    /// Retrieves the **HTML** representation of `self`.
    pub fn as_html(&self) -> (r: &'static str)
        ensures
            r@ == self.entity(),
    {
        match self {
            ZeroWidthChar::Space => {
                proof {
                    reveal_strlit("&#8203;");
                }
                "&#8203;"
            },
            ZeroWidthChar::NonJoiner => {
                proof {
                    reveal_strlit("&#8204;");
                }
                "&#8204;"
            },
            ZeroWidthChar::Joiner => {
                proof {
                    reveal_strlit("&#8205;");
                }
                "&#8205;"
            },
            ZeroWidthChar::WordJoiner => {
                proof {
                    reveal_strlit("&#8288;");
                }
                "&#8288;"
            },
            ZeroWidthChar::NoBreakSpace => {
                proof {
                    reveal_strlit("&#65279;");
                }
                "&#65279;"
            },
        }
    }

    /// Retrieves the **Unicode** representation of `self`.
    pub fn as_unicode(&self) -> (r: char)
        ensures
            r == self.code_point(),
    {
        match self {
            ZeroWidthChar::Space => '\u{200B}',
            ZeroWidthChar::NonJoiner => '\u{200C}',
            ZeroWidthChar::Joiner => '\u{200D}',
            ZeroWidthChar::WordJoiner => '\u{2060}',
            ZeroWidthChar::NoBreakSpace => '\u{FEFF}',
        }
    }
}

/// How many `;` characters `s` holds; each entity ends with exactly one.
pub open spec fn semicolon_count(s: Seq<char>) -> nat
    decreases s.len(),
{
    if s.len() == 0 {
        0
    } else {
        (if s[0] == ';' {
            1nat
        } else {
            0nat
        }) + semicolon_count(s.drop_first())
    }
}

proof fn lemma_semicolon_count_concat(a: Seq<char>, b: Seq<char>)
    ensures
        semicolon_count(a + b) == semicolon_count(a) + semicolon_count(b),
    decreases a.len(),
{
    if a.len() == 0 {
        assert(a + b =~= b);
    } else {
        lemma_semicolon_count_concat(a.drop_first(), b);
        assert((a + b).drop_first() =~= a.drop_first() + b);
    }
}

proof fn lemma_entity_semicolons(z: ZeroWidthChar)
    ensures
        semicolon_count(z.entity()) == 1,
{
    let e = z.entity();
    let n = e.len() as int;
    lemma_semicolon_count_concat(e.subrange(0, n - 1), seq![';']);
    assert(e =~= e.subrange(0, n - 1) + seq![';']);
    assert(seq![';'].drop_first() =~= Seq::<char>::empty());
    assert(semicolon_count(Seq::<char>::empty()) == 0);
    assert(semicolon_count(seq![';']) == 1);
    assert(semicolon_count(e.subrange(0, n - 1)) == 0) by {
        lemma_no_semicolon(e.subrange(0, n - 1));
    }
}

proof fn lemma_no_semicolon(s: Seq<char>)
    requires
        forall|i: int| 0 <= i < s.len() ==> s[i] != ';',
    ensures
        semicolon_count(s) == 0,
    decreases s.len(),
{
    if s.len() > 0 {
        assert(s[0] != ';');
        assert forall|i: int| 0 <= i < s.drop_first().len() implies s.drop_first()[i] != ';' by {
            assert(s.drop_first()[i] == s[i + 1]);
        }
        lemma_no_semicolon(s.drop_first());
    }
}

/// The text of a sequence of symbols holds one `;` per symbol.
pub proof fn lemma_entity_text_semicolons(zs: Seq<ZeroWidthChar>)
    ensures
        semicolon_count(entity_text(zs)) == zs.len(),
    decreases zs.len(),
{
    let es = zs.map_values(|z: ZeroWidthChar| z.entity());
    if zs.len() == 0 {
        assert(entity_text(zs) =~= Seq::<char>::empty());
    } else {
        let rest = zs.drop_first();
        lemma_entity_text_semicolons(rest);
        assert(es.drop_first() =~= rest.map_values(|z: ZeroWidthChar| z.entity()));
        assert(entity_text(zs) == zs[0].entity() + entity_text(rest));
        lemma_semicolon_count_concat(zs[0].entity(), entity_text(rest));
        lemma_entity_semicolons(zs[0]);
    }
}

/// Every entity is seven or eight characters long.
pub proof fn lemma_entity_len(z: ZeroWidthChar)
    ensures
        7 <= z.entity().len() <= 8,
{
}

/// Distinct symbols have distinct code points.
pub proof fn lemma_code_point_injective(a: ZeroWidthChar, b: ZeroWidthChar)
    requires
        a != b,
    ensures
        a.code_point() != b.code_point(),
{
}

/// The entity of a symbol never starts with the entity of another symbol.
pub proof fn lemma_entity_prefix_free(a: ZeroWidthChar, b: ZeroWidthChar, rest: Seq<char>)
    requires
        a != b,
    ensures
        !b.entity().is_prefix_of(a.entity() + rest),
{
    let t = a.entity() + rest;
    let k: int = if a == ZeroWidthChar::NoBreakSpace || b == ZeroWidthChar::NoBreakSpace {
        2
    } else {
        5
    };
    assert(a.entity()[k] != b.entity()[k]);
    assert(t[k] == a.entity()[k]);
    if b.entity().is_prefix_of(t) {
        assert(b.entity()[k] == t.subrange(0, b.entity().len() as int)[k]);
    }
}

/// The entity of a symbol never ends with the entity of another symbol.
pub proof fn lemma_entity_suffix_free(a: ZeroWidthChar, b: ZeroWidthChar, front: Seq<char>)
    requires
        a != b,
    ensures
        !b.entity().is_suffix_of(front + a.entity()),
{
    let t = front + a.entity();
    let la = a.entity().len() as int;
    let lb = b.entity().len() as int;
    assert(t[t.len() - 2] == a.entity()[la - 2]);
    assert(a.entity()[la - 2] != b.entity()[lb - 2]);
    if b.entity().is_suffix_of(t) {
        assert(b.entity()[lb - 2] == t.subrange(t.len() - lb, t.len() as int)[lb - 2]);
    }
}

} // verus!
