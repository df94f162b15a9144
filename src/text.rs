//! Small string helpers shared by the codec.
use vstd::prelude::*;
use vstd::utf8::{decode_utf8, valid_utf8};

verus! {

/// Relies on `String::push`: appends the character to the end of the string.
#[verifier::external_body]
pub(crate) fn push_char(s: &mut String, c: char)
    ensures
        final(s)@ == old(s)@.push(c),
{
    s.push(c)
}

/// Relies on `String::from_utf8`: succeeds exactly on valid UTF-8, and the
/// string then holds the characters those bytes encode.
#[verifier::external_body]
pub(crate) fn string_from_utf8(bytes: Vec<u8>) -> (r: Option<String>)
    ensures
        r is Some <==> valid_utf8(bytes@),
        r matches Some(s) ==> s@ == decode_utf8(bytes@),
{
    String::from_utf8(bytes).ok()
}

/// The characters of `s`, in order.
pub(crate) fn chars_of(s: &str) -> (r: Vec<char>)
    ensures
        r@ == s@,
{
    let mut out: Vec<char> = Vec::new();
    for c in it: s.chars()
        invariant
            out@ == it.seq().take(it.index() as int),
            it.seq() == s@,
    {
        out.push(c);
    }
    out
}

/// Whether `t` occurs in `s` as a contiguous run.
pub open spec fn contains_seq(s: Seq<char>, t: Seq<char>) -> bool {
    exists|i: int| 0 <= i && i + t.len() <= s.len() && #[trigger] s.subrange(i, i + t.len()) == t
}

/// Whether `c` occurs in `hay`.
pub(crate) fn contains_char(hay: &Vec<char>, c: char) -> (r: bool)
    ensures
        r == hay@.contains(c),
{
    let mut i: usize = 0;
    while i < hay.len()
        invariant
            i <= hay.len(),
            forall|j: int| 0 <= j < i ==> hay@[j] != c,
        decreases hay.len() - i,
    {
        if hay[i] == c {
            return true;
        }
        i = i + 1;
    }
    false
}

/// Whether `pat` starts at position `pos` of `hay`.
pub(crate) fn matches_at(hay: &Vec<char>, pos: usize, pat: &Vec<char>) -> (r: bool)
    requires
        pos <= hay.len(),
    ensures
        r == pat@.is_prefix_of(hay@.skip(pos as int)),
{
    if hay.len() - pos < pat.len() {
        return false;
    }
    let mut i: usize = 0;
    while i < pat.len()
        invariant
            i <= pat.len(),
            pos + pat.len() <= hay.len(),
            forall|j: int| 0 <= j < i ==> hay@[pos + j] == pat@[j],
        decreases pat.len() - i,
    {
        if hay[pos + i] != pat[i] {
            assert(hay@.skip(pos as int).subrange(0, pat@.len() as int)[i as int] != pat@[i as int]);
            return false;
        }
        i = i + 1;
    }
    assert(pat@ =~= hay@.skip(pos as int).subrange(0, pat@.len() as int));
    true
}

/// Whether `pat` occurs in `hay` as a contiguous run.
pub(crate) fn find_seq(hay: &Vec<char>, pat: &Vec<char>) -> (r: bool)
    ensures
        r == contains_seq(hay@, pat@),
{
    if pat.len() > hay.len() {
        return false;
    }
    let mut i: usize = 0;
    while i <= hay.len() - pat.len()
        invariant
            pat.len() <= hay.len(),
            i <= hay.len() - pat.len() + 1,
            forall|j: int|
                0 <= j < i ==> #[trigger] hay@.subrange(j, j + pat@.len()) != pat@,
        decreases hay.len() - pat.len() + 1 - i,
    {
        if matches_at(hay, i, pat) {
            assert(hay@.subrange(i as int, i + pat@.len()) =~= hay@.skip(i as int).subrange(
                0,
                pat@.len() as int,
            ));
            return true;
        }
        assert(hay@.subrange(i as int, i + pat@.len()) =~= hay@.skip(i as int).subrange(
            0,
            pat@.len() as int,
        ));
        i = i + 1;
    }
    false
}

} // verus!
