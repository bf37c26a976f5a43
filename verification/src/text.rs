//! Helpers on text: byte lengths, character and byte searches, line bounds.
use vstd::prelude::*;
use vstd::string::StringSliceAdditionalSpecFns;
use vstd::utf8::*;

use crate::bytes::cont_byte;

verus! {

/// The UTF-8 bytes of a text.
pub open spec fn utf8_bytes(s: Seq<char>) -> Seq<u8> {
    encode_utf8(s)
}

/// Byte offset `i` starts a character of `b`, or is its end.
pub open spec fn boundary(b: Seq<u8>, i: int) -> bool {
    i == b.len() || (0 <= i < b.len() && !cont_byte(b[i]))
}

/// The characters whose bytes lie between offsets `start` and `end` of `s`.
pub open spec fn text_between(s: Seq<char>, start: int, end: int) -> Seq<char> {
    decode_utf8(utf8_bytes(s).subrange(start, end))
}

/// The character that starts at byte `off` of `s`.
pub open spec fn char_at_byte(s: Seq<char>, off: int) -> char {
    decode_utf8(utf8_bytes(s).subrange(off, utf8_bytes(s).len() as int))[0]
}

proof fn lemma_boundary_is_char_boundary(b: Seq<u8>, i: int)
    requires
        valid_utf8(b),
        boundary(b, i),
    ensures
        is_char_boundary(b, i),
{
    broadcast use group_utf8_lib;

    if i < b.len() {
        is_char_boundary_iff_not_is_continuation_byte(b, i);
    }
}

/// The start and the end of a text are character boundaries.
pub proof fn lemma_boundary_ends(s: Seq<char>)
    ensures
        boundary(utf8_bytes(s), 0),
        boundary(utf8_bytes(s), utf8_bytes(s).len() as int),
{
    broadcast use group_utf8_lib;

    let b = utf8_bytes(s);
    if b.len() > 0 {
        is_char_boundary_start_end_of_seq(b);
        is_char_boundary_iff_not_is_continuation_byte(b, 0);
    }
}

/// In a text, the position after an ASCII byte (a newline, say) is a
/// character boundary.
pub proof fn lemma_after_ascii(s: Seq<char>, q: int)
    requires
        0 <= q < utf8_bytes(s).len(),
        utf8_bytes(s)[q] < 0x80,
    ensures
        boundary(utf8_bytes(s), q + 1),
{
    broadcast use group_utf8_lib;

    let b = utf8_bytes(s);
    assert(valid_utf8(b));
    is_char_boundary_iff_not_is_continuation_byte(b, q);
    assert(is_char_boundary(b, q));
    valid_utf8_split(b, q);
    let r = b.subrange(q, b.len() as int);
    assert(valid_utf8(r));
    assert(r[0] == b[q]);
    assert(length_of_first_scalar(r) == 1);
    let p = pop_first_scalar(r);
    assert(p =~= b.subrange(q + 1, b.len() as int));
    if q + 1 < b.len() {
        assert(valid_utf8(p));
        assert(valid_first_scalar(p));
        assert(p[0] == b[q + 1]);
    }
}

/// The part of `content` between two byte offsets that start characters.
pub fn slice_text(content: &str, start: usize, end: usize) -> (r: &str)
    requires
        start <= end <= utf8_bytes(content@).len(),
        boundary(utf8_bytes(content@), start as int),
        boundary(utf8_bytes(content@), end as int),
    ensures
        r@ == text_between(content@, start as int, end as int),
        byte_len(r@) == end - start,
{
    broadcast use group_utf8_lib;

    let ghost b = content.spec_bytes();
    proof {
        lemma_boundary_is_char_boundary(b, start as int);
    }
    let (_, rest) = content.split_at(start);
    proof {
        let rb = b.subrange(start as int, b.len() as int);
        assert(rest.spec_bytes() =~= rb);
        assert(valid_utf8(rb));
        if end < b.len() {
            assert(rb[end - start] == b[end as int]);
        }
        assert(boundary(rb, end - start));
        lemma_boundary_is_char_boundary(rb, end - start);
    }
    let (mid, _) = rest.split_at(end - start);
    proof {
        assert(mid.spec_bytes() =~= b.subrange(start as int, end as int));
        assert(decode_utf8(encode_utf8(mid@)) == mid@);
    }
    mid
}

/// The character that starts at byte `off` of `content`.
pub fn char_at(content: &str, off: usize) -> (c: char)
    requires
        off < utf8_bytes(content@).len(),
        boundary(utf8_bytes(content@), off as int),
    ensures
        c == char_at_byte(content@, off as int),
{
    broadcast use group_utf8_lib;

    let ghost b = content.spec_bytes();
    proof {
        lemma_boundary_is_char_boundary(b, off as int);
    }
    let (_, rest) = content.split_at(off);
    proof {
        assert(rest.spec_bytes() =~= b.subrange(off as int, b.len() as int));
        assert(decode_utf8(encode_utf8(rest@)) == rest@);
        if rest@.len() == 0 {
            assert(encode_utf8(rest@) =~= Seq::<u8>::empty());
        }
    }
    rest.get_char(0)
}

/// The length in bytes of the UTF-8 encoding of `s`.
pub open spec fn byte_len(s: Seq<char>) -> nat {
    encode_utf8(s).len()
}

/// The length of `s` in bytes (`str::len`). No object Rust allocates is
/// larger than `isize::MAX` bytes, so neither is a string.
#[verifier::external_body]
pub fn str_len(s: &str) -> (n: usize)
    ensures
        n == byte_len(s@),
        n <= isize::MAX,
{
    s.len()
}

/// The length of `s` in bytes.
pub fn str_byte_len(s: &str) -> (n: usize)
    ensures
        n == byte_len(s@),
{
    s.as_bytes().len()
}

/// Whether `s` holds the character `c`.
pub fn str_has_char(s: &str, c: char) -> (r: bool)
    ensures
        r == s@.contains(c),
{
    let n = s.unicode_len();
    let mut i: usize = 0;
    while i < n
        invariant
            n == s@.len(),
            i <= n,
            forall|j: int| 0 <= j < i ==> s@[j] != c,
        decreases n - i,
    {
        if s.get_char(i) == c {
            return true;
        }
        i = i + 1;
    }
    false
}

/// Whether two strings hold the same characters.
pub fn str_eq(a: &str, b: &str) -> (r: bool)
    ensures
        r == (a@ == b@),
{
    let n = a.unicode_len();
    let m = b.unicode_len();
    if n != m {
        return false;
    }
    let mut i: usize = 0;
    while i < n
        invariant
            n == a@.len(),
            m == b@.len(),
            n == m,
            i <= n,
            forall|j: int| 0 <= j < i ==> a@[j] == b@[j],
        decreases n - i,
    {
        if a.get_char(i) != b.get_char(i) {
            return false;
        }
        i = i + 1;
    }
    assert(a@ =~= b@);
    true
}

/// The Unicode lower-case mapping of a string, as `str::to_lowercase`
/// computes it.
pub uninterp spec fn lowercase(s: Seq<char>) -> Seq<char>;

/// Lower-cases a string (`str::to_lowercase`).
#[verifier::external_body]
pub fn to_lowercase(s: &str) -> (r: String)
    ensures
        r@ == lowercase(s@),
{
    s.to_lowercase()
}

/// The Unicode upper-case mapping of a string, as `str::to_uppercase`
/// computes it.
pub uninterp spec fn uppercase(s: Seq<char>) -> Seq<char>;

/// Upper-cases a string (`str::to_uppercase`).
#[verifier::external_body]
pub fn to_uppercase(s: &str) -> (r: String)
    ensures
        r@ == uppercase(s@),
{
    s.to_uppercase()
}

/// Whether a character is upper case, as `char::is_uppercase` decides it.
pub uninterp spec fn uppercase_char(c: char) -> bool;

/// Whether `c` is upper case (`char::is_uppercase`).
#[verifier::external_body]
pub fn char_is_uppercase(c: char) -> (r: bool)
    ensures
        r == uppercase_char(c),
{
    c.is_uppercase()
}

/// The lower-case mapping of a character, as `char::to_lowercase` yields it.
pub uninterp spec fn char_lowercase(c: char) -> Seq<char>;

/// The lower-case form of `c` (`char::to_lowercase`), collected.
#[verifier::external_body]
pub fn char_to_lowercase(c: char) -> (r: String)
    ensures
        r@ == char_lowercase(c),
{
    c.to_lowercase().collect()
}

/// The upper-case mapping of a character, as `char::to_uppercase` yields it.
pub uninterp spec fn char_uppercase(c: char) -> Seq<char>;

/// The upper-case form of `c` (`char::to_uppercase`), collected.
#[verifier::external_body]
pub fn char_to_uppercase(c: char) -> (r: String)
    ensures
        r@ == char_uppercase(c),
{
    c.to_uppercase().collect()
}

/// Whether a string ends with a newline.
pub fn ends_with_newline(s: &str) -> (r: bool)
    ensures
        r == (s@.len() > 0 && s@.last() == '\n'),
{
    let n = s.unicode_len();
    n > 0 && s.get_char(n - 1) == '\n'
}

/// Appends a character to a string (`String::push`).
#[verifier::external_body]
pub fn push_char(s: &mut String, c: char)
    ensures
        final(s)@ == old(s)@.push(c),
{
    s.push(c)
}

/// Copies a string slice into a new `String`.
pub fn to_owned(s: &str) -> (r: String)
    ensures
        r@ == s@,
{
    s.to_owned()
}

/// Whether a character beyond ASCII is alphanumeric, as
/// `char::is_alphanumeric` decides it (the Unicode `Alphabetic` and
/// `Numeric` properties).
pub uninterp spec fn alphanumeric_beyond_ascii(c: char) -> bool;

/// An ASCII letter or digit.
pub open spec fn ascii_alphanumeric(c: char) -> bool {
    ('a' <= c <= 'z') || ('A' <= c <= 'Z') || ('0' <= c <= '9')
}

/// Whether a character is alphanumeric, as `char::is_alphanumeric` decides
/// it: in ASCII the letters and digits, beyond it the Unicode `Alphabetic`
/// and `Numeric` characters.
pub open spec fn alphanumeric(c: char) -> bool {
    if c <= '\u{7f}' {
        ascii_alphanumeric(c)
    } else {
        alphanumeric_beyond_ascii(c)
    }
}

/// Whether `c` is alphanumeric (`char::is_alphanumeric`): an ASCII
/// character exactly when it is a letter or a digit (the only ASCII
/// characters with the Unicode `Alphabetic` or `Numeric` property), any
/// other as the Unicode tables say.
#[verifier::external_body]
pub fn char_is_alphanumeric(c: char) -> (r: bool)
    ensures
        r == (if c <= '\u{7f}' {
            ascii_alphanumeric(c)
        } else {
            alphanumeric_beyond_ascii(c)
        }),
{
    c.is_alphanumeric()
}

/// `c` lower-cased in ASCII (`char::to_ascii_lowercase`): `A`–`Z` become
/// `a`–`z`, everything else stays.
pub open spec fn ascii_lower(c: char) -> char {
    if 'A' <= c <= 'Z' {
        ((c as u32) + 32) as char
    } else {
        c
    }
}

/// Lower-cases a character in ASCII.
pub fn to_ascii_lower(c: char) -> (r: char)
    ensures
        r == ascii_lower(c),
{
    if c >= 'A' && c <= 'Z' {
        let v = c as u8;
        (v + 32) as char
    } else {
        c
    }
}

/// `s` lower-cased in ASCII equals `lit` (`eq_ignore_ascii_case` with a
/// lower-case `lit`).
pub open spec fn lowercase_is(s: Seq<char>, lit: Seq<char>) -> bool {
    s.len() == lit.len() && forall|i: int| 0 <= i < s.len() ==> ascii_lower(#[trigger] s[i]) == lit[i]
}

/// Whether `s`, lower-cased in ASCII, is `lit`.
pub fn lowercase_equals(s: &Vec<char>, lit: &str) -> (r: bool)
    ensures
        r == lowercase_is(s@, lit@),
{
    let n = s.len();
    if n != lit.unicode_len() {
        return false;
    }
    let mut i: usize = 0;
    while i < n
        invariant
            n == s@.len(),
            n == lit@.len(),
            i <= n,
            forall|j: int| 0 <= j < i ==> ascii_lower(#[trigger] s@[j]) == lit@[j],
        decreases n - i,
    {
        if to_ascii_lower(s[i]) != lit.get_char(i) {
            return false;
        }
        i = i + 1;
    }
    true
}

/// Whether a character sequence is the text `lit`.
pub fn chars_equal(s: &Vec<char>, lit: &str) -> (r: bool)
    ensures
        r == (s@ == lit@),
{
    let n = s.len();
    if n != lit.unicode_len() {
        return false;
    }
    let mut i: usize = 0;
    while i < n
        invariant
            n == s@.len(),
            n == lit@.len(),
            i <= n,
            forall|j: int| 0 <= j < i ==> s@[j] == lit@[j],
        decreases n - i,
    {
        if s[i] != lit.get_char(i) {
            return false;
        }
        i = i + 1;
    }
    assert(s@ =~= lit@);
    true
}

/// The characters of a string.
pub fn chars_of(s: &str) -> (r: Vec<char>)
    ensures
        r@ == s@,
{
    let n = s.unicode_len();
    let mut r: Vec<char> = Vec::new();
    let mut i: usize = 0;
    while i < n
        invariant
            n == s@.len(),
            i <= n,
            r@ == s@.take(i as int),
        decreases n - i,
    {
        r.push(s.get_char(i));
        i = i + 1;
        assert(r@ =~= s@.take(i as int));
    }
    assert(s@.take(n as int) =~= s@);
    r
}

/// A string holding the given characters.
pub fn string_of(cs: &Vec<char>) -> (r: String)
    ensures
        r@ == cs@,
{
    let mut r = String::new();
    let mut i: usize = 0;
    while i < cs.len()
        invariant
            i <= cs@.len(),
            r@ == cs@.take(i as int),
        decreases cs@.len() - i,
    {
        push_char(&mut r, cs[i]);
        i = i + 1;
        assert(r@ =~= cs@.take(i as int));
    }
    assert(cs@.take(cs@.len() as int) =~= cs@);
    r
}

} // verus!
