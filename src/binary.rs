use vstd::prelude::*;
use vstd::utf8::{
    decode_utf8, encode_utf8, encode_utf8_decode_utf8, encode_utf8_valid_utf8, valid_utf8,
};

use crate::error::{text_result, Error};
use crate::text::{chars_of, push_char, string_from_utf8};

verus! {

/// Binary representation of a text: one group of eight binary digits per
/// byte, most significant bit first, groups separated by a single space.
pub struct Binary(String);

/// The characters of a binary representation: `0`, `1` and the space that
/// separates groups.
#[derive(Debug, Clone, Copy, PartialEq, Eq, Structural)]
pub enum BinaryUnit {
    Zero,
    One,
    Space,
}

impl View for Binary {
    type V = Seq<char>;

    closed spec fn view(&self) -> Seq<char> {
        self.0@
    }
}

/// The digit character of the lowest bit of `v`.
pub open spec fn bit_char(v: nat) -> char {
    if v % 2 == 1 {
        '1'
    } else {
        '0'
    }
}

/// The lowest `n` bits of `v` as digit characters, most significant first.
pub open spec fn bits_of(v: nat, n: nat) -> Seq<char>
    decreases n,
{
    if n == 0 {
        seq![]
    } else {
        bits_of(v / 2, (n - 1) as nat).push(bit_char(v))
    }
}

/// The eight digits of a byte, zero padded, most significant bit first.
pub open spec fn byte_digits(b: u8) -> Seq<char> {
    bits_of(b as nat, 8)
}

/// The binary representation of a byte sequence.
pub open spec fn binary_of(bytes: Seq<u8>) -> Seq<char>
    decreases bytes.len(),
{
    if bytes.len() == 0 {
        seq![]
    } else if bytes.len() == 1 {
        byte_digits(bytes[0])
    } else {
        byte_digits(bytes[0]) + seq![' '] + binary_of(bytes.drop_first())
    }
}

/// Exactly eight characters, each `0` or `1`.
pub open spec fn is_digit_group(g: Seq<char>) -> bool {
    &&& g.len() == 8
    &&& forall|i: int| 0 <= i < 8 ==> g[i] == '0' || g[i] == '1'
}

/// The number that a string of binary digits denotes.
pub open spec fn digits_value(d: Seq<char>) -> nat
    decreases d.len(),
{
    if d.len() == 0 {
        0
    } else {
        2 * digits_value(d.drop_last()) + if d.last() == '1' {
            1nat
        } else {
            0nat
        }
    }
}

/// The bytes of one or more space-separated groups; `None` when `d` is not
/// such a sequence of groups.
pub open spec fn groups_bytes(d: Seq<char>) -> Option<Seq<u8>>
    decreases d.len(),
{
    if d.len() < 8 || !is_digit_group(d.take(8)) {
        None
    } else if d.len() == 8 {
        Some(seq![digits_value(d.take(8)) as u8])
    } else if d.len() == 9 || d[8] != ' ' {
        None
    } else {
        match groups_bytes(d.skip(9)) {
            Some(rest) => Some(seq![digits_value(d.take(8)) as u8] + rest),
            None => None,
        }
    }
}

/// The bytes that a binary representation stands for; `None` when it is
/// malformed.
pub open spec fn bytes_of_binary(d: Seq<char>) -> Option<Seq<u8>> {
    if d.len() == 0 {
        Some(seq![])
    } else {
        groups_bytes(d)
    }
}

/// What decoding a binary representation gives: its bytes read as UTF-8.
pub open spec fn text_of_binary(d: Seq<char>) -> Result<Seq<char>, Error> {
    match bytes_of_binary(d) {
        None => Err(Error::InvalidDigits),
        Some(b) => if valid_utf8(b) {
            Ok(decode_utf8(b))
        } else {
            Err(Error::InvalidText)
        },
    }
}

/// `Some(p + r)` for `Some(r)`, and `None` for `None`.
pub open spec fn prefixed<A>(p: Seq<A>, o: Option<Seq<A>>) -> Option<Seq<A>> {
    match o {
        Some(r) => Some(p + r),
        None => None,
    }
}

/// Prefixing by `p` after `q` is prefixing by `p + q`.
pub proof fn lemma_prefixed_concat<A>(p: Seq<A>, q: Seq<A>, o: Option<Seq<A>>)
    ensures
        prefixed(p, prefixed(q, o)) == prefixed(p + q, o),
{
    if let Some(x) = o {
        assert(p + (q + x) =~= (p + q) + x);
    }
}

/// `2` to the power `n`.
pub open spec fn two_to(n: nat) -> nat
    decreases n,
{
    if n == 0 {
        1
    } else {
        2 * two_to((n - 1) as nat)
    }
}

proof fn lemma_bits_of(v: nat, n: nat)
    requires
        v < two_to(n),
    ensures
        bits_of(v, n).len() == n,
        digits_value(bits_of(v, n)) == v,
        forall|i: int| 0 <= i < n ==> bits_of(v, n)[i] == '0' || bits_of(v, n)[i] == '1',
    decreases n,
{
    if n > 0 {
        lemma_bits_of(v / 2, (n - 1) as nat);
        let s = bits_of(v, n);
        assert(s.drop_last() =~= bits_of(v / 2, (n - 1) as nat));
    }
}

proof fn lemma_byte_digits(b: u8)
    ensures
        is_digit_group(byte_digits(b)),
        digits_value(byte_digits(b)) == b as nat,
{
    reveal_with_fuel(two_to, 9);
    lemma_bits_of(b as nat, 8);
}

proof fn lemma_digits_value_bound(d: Seq<char>)
    ensures
        digits_value(d) < two_to(d.len()),
    decreases d.len(),
{
    if d.len() > 0 {
        lemma_digits_value_bound(d.drop_last());
    }
}

proof fn lemma_two_to_mono(a: nat, b: nat)
    requires
        a <= b,
    ensures
        two_to(a) <= two_to(b),
    decreases b,
{
    if a < b {
        lemma_two_to_mono(a, (b - 1) as nat);
    }
}

proof fn lemma_binary_of_push(b: Seq<u8>, x: u8)
    ensures
        binary_of(b.push(x)) == if b.len() == 0 {
            byte_digits(x)
        } else {
            binary_of(b) + seq![' '] + byte_digits(x)
        },
    decreases b.len(),
{
    let bx = b.push(x);
    if b.len() == 0 {
        assert(bx[0] == x);
    } else {
        assert(bx[0] == b[0]);
        if b.len() == 1 {
            assert(bx.drop_first() =~= seq![x]);
            assert(binary_of(seq![x]) == byte_digits(x));
        } else {
            lemma_binary_of_push(b.drop_first(), x);
            assert(bx.drop_first() =~= b.drop_first().push(x));
            assert(binary_of(bx) =~= binary_of(b) + seq![' '] + byte_digits(x));
        }
    }
}

proof fn lemma_groups_bytes_binary_of(b: Seq<u8>)
    requires
        b.len() > 0,
    ensures
        groups_bytes(binary_of(b)) == Some(b),
        binary_of(b).len() == 9 * b.len() - 1,
    decreases b.len(),
{
    let d = binary_of(b);
    lemma_byte_digits(b[0]);
    if b.len() == 1 {
        assert(d.take(8) =~= d);
        assert(seq![b[0]] =~= b);
    } else {
        let rest = b.drop_first();
        lemma_groups_bytes_binary_of(rest);
        assert(d.take(8) =~= byte_digits(b[0]));
        assert(d.skip(9) =~= binary_of(rest));
        assert(d[8] == ' ');
        assert(seq![b[0]] + rest =~= b);
    }
}

/// Every byte sequence is recovered from its binary representation.
pub proof fn lemma_binary_round_trip(b: Seq<u8>)
    ensures
        bytes_of_binary(binary_of(b)) == Some(b),
{
    if b.len() > 0 {
        lemma_groups_bytes_binary_of(b);
    } else {
        assert(b =~= seq![]);
    }
}

/// A binary representation holds only `0`, `1` and spaces.
pub proof fn lemma_binary_chars(b: Seq<u8>)
    ensures
        forall|i: int|
            0 <= i < binary_of(b).len() ==> #[trigger] binary_of(b)[i] == '0' || binary_of(b)[i]
                == '1' || binary_of(b)[i] == ' ',
    decreases b.len(),
{
    if b.len() > 0 {
        lemma_byte_digits(b[0]);
        if b.len() > 1 {
            let rest = b.drop_first();
            lemma_binary_chars(rest);
            let d = binary_of(b);
            assert forall|i: int| 0 <= i < d.len() implies #[trigger] d[i] == '0' || d[i] == '1'
                || d[i] == ' ' by {
                if i > 8 {
                    assert(d[i] == binary_of(rest)[i - 9]);
                }
            }
        }
    }
}

/// Decoding the binary representation of the UTF-8 bytes of a text gives
/// the text back; the representation is empty exactly for the empty text.
pub proof fn lemma_text_round_trip(t: Seq<char>)
    ensures
        text_of_binary(binary_of(encode_utf8(t))) == Ok::<Seq<char>, Error>(t),
        binary_of(encode_utf8(t)).len() == 0 <==> t.len() == 0,
{
    let b = encode_utf8(t);
    lemma_binary_round_trip(b);
    encode_utf8_valid_utf8(t);
    encode_utf8_decode_utf8(t);
    lemma_fixed_width(b);
    if b.len() == 0 {
        assert(b =~= Seq::<u8>::empty());
        assert(decode_utf8(b) =~= Seq::<char>::empty());
    }
}

/// A binary representation is made of groups of exactly eight binary
/// digits, the digits of its bytes in order, separated by single spaces.
pub proof fn lemma_fixed_width(b: Seq<u8>)
    ensures
        binary_of(b).len() == if b.len() == 0 {
            0
        } else {
            9 * b.len() - 1
        },
        forall|i: int|
            0 <= i < b.len() ==> {
                &&& binary_of(b).subrange(9 * i, 9 * i + 8) == byte_digits(#[trigger] b[i])
                &&& is_digit_group(binary_of(b).subrange(9 * i, 9 * i + 8))
                &&& i < b.len() - 1 ==> binary_of(b)[9 * i + 8] == ' '
            },
    decreases b.len(),
{
    if b.len() > 0 {
        let d = binary_of(b);
        lemma_groups_bytes_binary_of(b);
        lemma_byte_digits(b[0]);
        assert(d.subrange(0, 8) =~= byte_digits(b[0]));
        if b.len() > 1 {
            let rest = b.drop_first();
            lemma_fixed_width(rest);
            assert forall|i: int| 0 < i < b.len() implies {
                &&& d.subrange(9 * i, 9 * i + 8) == byte_digits(#[trigger] b[i])
                &&& is_digit_group(d.subrange(9 * i, 9 * i + 8))
                &&& i < b.len() - 1 ==> d[9 * i + 8] == ' '
            } by {
                assert(b[i] == rest[i - 1]);
                assert(d.subrange(9 * i, 9 * i + 8) =~= binary_of(rest).subrange(
                    9 * (i - 1),
                    9 * (i - 1) + 8,
                ));
                if i < b.len() - 1 {
                    assert(d[9 * i + 8] == binary_of(rest)[9 * (i - 1) + 8]);
                }
            }
        }
    }
}

/// Appends the lowest `n` bits of `v`, most significant first.
fn push_bits(out: &mut String, v: u8, n: u8)
    ensures
        final(out)@ == old(out)@ + bits_of(v as nat, n as nat),
    decreases n,
{
    if n > 0 {
        push_bits(out, v / 2, n - 1);
        let c = if v % 2 == 1 {
            '1'
        } else {
            '0'
        };
        push_char(out, c);
        assert(out@ =~= old(out)@ + bits_of(v as nat, n as nat));
    } else {
        assert(out@ =~= old(out)@ + bits_of(v as nat, n as nat));
    }
}

/// Whether the eight characters from `pos` are binary digits.
fn is_group_at(d: &Vec<char>, pos: usize) -> (r: bool)
    requires
        pos + 8 <= d.len(),
    ensures
        r == is_digit_group(d@.subrange(pos as int, pos + 8)),
{
    let ghost g = d@.subrange(pos as int, pos + 8);
    let mut i: usize = 0;
    while i < 8
        invariant
            i <= 8,
            pos + 8 <= d.len(),
            g == d@.subrange(pos as int, pos + 8),
            forall|j: int| 0 <= j < i ==> g[j] == '0' || g[j] == '1',
        decreases 8 - i,
    {
        assert(g[i as int] == d@[pos + i]);
        if d[pos + i] != '0' && d[pos + i] != '1' {
            return false;
        }
        i = i + 1;
    }
    true
}

/// The byte that the eight digits from `pos` denote.
fn group_value(d: &Vec<char>, pos: usize) -> (r: u8)
    requires
        pos + 8 <= d.len(),
    ensures
        r as nat == digits_value(d@.subrange(pos as int, pos + 8)),
{
    let mut acc: u8 = 0;
    let mut i: usize = 0;
    while i < 8
        invariant
            i <= 8,
            pos + 8 <= d.len(),
            acc as nat == digits_value(d@.subrange(pos as int, pos + i)),
        decreases 8 - i,
    {
        proof {
            lemma_digits_value_bound(d@.subrange(pos as int, pos + i));
            reveal_with_fuel(two_to, 8);
            if i < 7 {
                lemma_two_to_mono(i as nat, 7);
            }
            assert(d@.subrange(pos as int, pos + i + 1).drop_last() =~= d@.subrange(
                pos as int,
                pos + i,
            ));
        }
        let bit: u8 = if d[pos + i] == '1' {
            1
        } else {
            0
        };
        acc = acc * 2 + bit;
        i = i + 1;
    }
    acc
}

/// Decodes a binary representation back to its text.
///
/// Fails with `InvalidDigits` when a group is not eight binary digits or
/// the groups are not separated by single spaces, and with `InvalidText`
/// when the bytes are not valid UTF-8.
pub fn decode_binary(digits: &str) -> (r: Result<String, Error>)
    ensures
        text_result(r) == text_of_binary(digits@),
{
    let d = chars_of(digits);
    let mut bytes: Vec<u8> = Vec::new();
    if d.len() > 0 {
        let mut pos: usize = 0;
        assert(d@.skip(0) =~= d@);
        assert forall|o: Option<Seq<u8>>| prefixed(seq![], o) == o by {
            if let Some(x) = o {
                assert(seq![] + x =~= x);
            }
        }
        loop
            invariant_except_break
                pos < d.len(),
                groups_bytes(d@) == prefixed(bytes@, groups_bytes(d@.skip(pos as int))),
            invariant
                d@ == digits@,
            ensures
                groups_bytes(d@) == Some(bytes@),
            decreases d.len() - pos,
        {
            let ghost rest = d@.skip(pos as int);
            if d.len() - pos < 8 {
                return Err(Error::InvalidDigits);
            }
            assert(rest.take(8) =~= d@.subrange(pos as int, pos + 8));
            if !is_group_at(&d, pos) {
                return Err(Error::InvalidDigits);
            }
            let v = group_value(&d, pos);
            let ghost before = bytes@;
            bytes.push(v);
            if pos + 8 == d.len() {
                assert(bytes@ =~= before + seq![v]);
                assert(rest.take(8) =~= rest);
                break ;
            }
            if d[pos + 8] != ' ' || pos + 9 == d.len() {
                return Err(Error::InvalidDigits);
            }
            assert(rest.skip(9) =~= d@.skip(pos + 9));
            assert(bytes@ =~= before + seq![v]);
            proof {
                lemma_prefixed_concat(before, seq![v], groups_bytes(d@.skip(pos + 9)));
            }
            pos = pos + 9;
        }
    }
    match string_from_utf8(bytes) {
        Some(s) => Ok(s),
        None => Err(Error::InvalidText),
    }
}

impl Binary {
    /// The string is the binary representation of the bytes of some text.
    #[verifier::type_invariant]
    closed spec fn represents_text(self) -> bool {
        exists|t: Seq<char>| #[trigger] binary_of(encode_utf8(t)) == self.0@
    }

    /// The binary representation of the UTF-8 bytes of `text`.
    pub fn from_text(text: &str) -> (r: Binary)
        ensures
            r@ == binary_of(encode_utf8(text@)),
    {
        let bytes = text.as_bytes();
        let mut out = String::new();
        let mut i: usize = 0;
        while i < bytes.len()
            invariant
                i <= bytes@.len(),
                bytes@ == encode_utf8(text@),
                out@ == binary_of(bytes@.take(i as int)),
            decreases bytes.len() - i,
        {
            proof {
                lemma_binary_of_push(bytes@.take(i as int), bytes@[i as int]);
                assert(bytes@.take(i as int).push(bytes@[i as int]) =~= bytes@.take(i + 1));
            }
            if i > 0 {
                push_char(&mut out, ' ');
            }
            push_bits(&mut out, bytes[i], 8);
            i = i + 1;
        }
        assert(bytes@.take(i as int) =~= bytes@);
        Binary(out)
    }

    /// Decodes a `Binary` back to its text, which always succeeds.
    pub fn decode(&self) -> (r: Result<String, Error>)
        ensures
            text_result(r) == text_of_binary(self@),
            r is Ok,
    {
        proof {
            use_type_invariant(self);
            let t = choose|t: Seq<char>| #[trigger] binary_of(encode_utf8(t)) == self.0@;
            lemma_text_round_trip(t);
        }
        decode_binary(self.0.as_str())
    }

    /// The binary representation as a string.
    pub fn to_string(&self) -> (r: String)
        ensures
            r@ == self@,
    {
        self.0.clone()
    }
}

impl std::str::FromStr for Binary {
    type Err = Error;

    /// The binary representation of the UTF-8 bytes of `s`; never fails.
    fn from_str(s: &str) -> (r: Result<Binary, Error>)
        ensures
            r matches Ok(b) && b@ == binary_of(encode_utf8(s@)),
    {
        Ok(Binary::from_text(s))
    }
}

} // verus!
