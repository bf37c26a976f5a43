//! Byte-level scanning of UTF-8 text: character classes, forward and
//! backward scans, and line bounds.
use vstd::prelude::*;

verus! {

/// The byte of a newline.
pub open spec fn nl() -> u8 {
    10u8
}

/// An ASCII letter, digit or underscore (`u8::is_ascii_alphanumeric` or `_`).
pub open spec fn word_byte(x: u8) -> bool {
    (48 <= x <= 57) || (65 <= x <= 90) || (97 <= x <= 122) || x == 95
}

/// ASCII whitespace as `u8::is_ascii_whitespace` defines it: space, tab,
/// newline, form feed, carriage return.
pub open spec fn space_byte(x: u8) -> bool {
    x == 32 || x == 9 || x == 10 || x == 12 || x == 13
}

/// A UTF-8 continuation byte: a byte that does not start a character.
pub open spec fn cont_byte(x: u8) -> bool {
    0x80 <= x <= 0xbf
}

/// Byte classes the scans skip over.
#[derive(Clone, Copy, PartialEq, Eq, Structural)]
pub enum Class {
    /// Word bytes.
    Word,
    /// Bytes that are neither word bytes nor newlines.
    Punct,
    /// Bytes that are not word bytes.
    NotWord,
    /// ASCII whitespace.
    Space,
    /// Bytes that are not ASCII whitespace.
    NotSpace,
    /// Newlines.
    Newline,
    /// Bytes that are not newlines.
    NotNewline,
    /// UTF-8 continuation bytes.
    Cont,
    /// ASCII whitespace other than newlines.
    Blank,
    /// The space character.
    SpaceChar,
}

pub open spec fn in_class(c: Class, x: u8) -> bool {
    match c {
        Class::Word => word_byte(x),
        Class::Punct => !word_byte(x) && x != nl(),
        Class::NotWord => !word_byte(x),
        Class::Space => space_byte(x),
        Class::NotSpace => !space_byte(x),
        Class::Newline => x == nl(),
        Class::NotNewline => x != nl(),
        Class::Cont => cont_byte(x),
        Class::Blank => space_byte(x) && x != nl(),
        Class::SpaceChar => x == 32,
    }
}

pub fn is_word_char(x: u8) -> (r: bool)
    ensures
        r == word_byte(x),
{
    (x >= 48 && x <= 57) || (x >= 65 && x <= 90) || (x >= 97 && x <= 122) || x == 95
}

pub fn is_space_byte(x: u8) -> (r: bool)
    ensures
        r == space_byte(x),
{
    x == 32 || x == 9 || x == 10 || x == 12 || x == 13
}

pub fn in_class_exec(c: Class, x: u8) -> (r: bool)
    ensures
        r == in_class(c, x),
{
    match c {
        Class::Word => is_word_char(x),
        Class::Punct => !is_word_char(x) && x != 10,
        Class::NotWord => !is_word_char(x),
        Class::Space => is_space_byte(x),
        Class::NotSpace => !is_space_byte(x),
        Class::Newline => x == 10,
        Class::NotNewline => x != 10,
        Class::Cont => x >= 0x80 && x <= 0xbf,
        Class::Blank => is_space_byte(x) && x != 10,
        Class::SpaceChar => x == 32,
    }
}

/// The first position at or after `p` whose byte is not in class `c`, or
/// the end of the text (positions past the end stay where they are).
pub open spec fn scan_fwd(b: Seq<u8>, p: int, c: Class) -> int
    decreases b.len() - p,
{
    if p >= b.len() || p < 0 {
        p
    } else if in_class(c, b[p]) {
        scan_fwd(b, p + 1, c)
    } else {
        p
    }
}

/// Moving back from `p` while the byte at the position is in class `c`,
/// stopping at 0.
pub open spec fn scan_back(b: Seq<u8>, p: int, c: Class) -> int
    decreases p,
{
    if p <= 0 {
        p
    } else if in_class(c, b[p]) {
        scan_back(b, p - 1, c)
    } else {
        p
    }
}

/// Moving back from `p` while the byte before the position is in class
/// `c`, stopping at 0.
pub open spec fn scan_back_prev(b: Seq<u8>, p: int, c: Class) -> int
    decreases p,
{
    if p <= 0 {
        p
    } else if in_class(c, b[p - 1]) {
        scan_back_prev(b, p - 1, c)
    } else {
        p
    }
}

/// Start of the line holding offset `off`: just after the last newline
/// before it, or 0.
pub open spec fn line_start(b: Seq<u8>, off: int) -> int {
    scan_back_prev(b, off, Class::NotNewline)
}

/// End of the line holding offset `off`: the first newline at or after it,
/// or the end of the text.
pub open spec fn line_end(b: Seq<u8>, off: int) -> int {
    scan_fwd(b, off, Class::NotNewline)
}

pub proof fn lemma_scan_fwd(b: Seq<u8>, p: int, c: Class)
    requires
        0 <= p,
    ensures
        p <= scan_fwd(b, p, c),
        p <= b.len() ==> scan_fwd(b, p, c) <= b.len(),
        forall|q: int| p <= q < scan_fwd(b, p, c) ==> #[trigger] in_class(c, b[q]),
        scan_fwd(b, p, c) < b.len() ==> !in_class(c, b[scan_fwd(b, p, c)]),
    decreases b.len() - p,
{
    if p < b.len() && in_class(c, b[p]) {
        lemma_scan_fwd(b, p + 1, c);
    }
}

pub proof fn lemma_scan_back_prev(b: Seq<u8>, p: int, c: Class)
    requires
        0 <= p <= b.len(),
    ensures
        0 <= scan_back_prev(b, p, c) <= p,
        forall|q: int| scan_back_prev(b, p, c) <= q < p ==> #[trigger] in_class(c, b[q]),
        scan_back_prev(b, p, c) > 0 ==> !in_class(c, b[scan_back_prev(b, p, c) - 1]),
    decreases p,
{
    if p > 0 && in_class(c, b[p - 1]) {
        lemma_scan_back_prev(b, p - 1, c);
    }
}

pub proof fn lemma_scan_back(b: Seq<u8>, p: int, c: Class)
    requires
        0 <= p,
    ensures
        0 <= scan_back(b, p, c) <= p,
    decreases p,
{
    if p > 0 && in_class(c, b[p]) {
        lemma_scan_back(b, p - 1, c);
    }
}

/// Scans forward from `p` over bytes of class `c`.
pub fn scan_forward(bytes: &[u8], p: usize, c: Class) -> (r: usize)
    ensures
        r == scan_fwd(bytes@, p as int, c),
{
    let len = bytes.len();
    let mut q = p;
    while q < len && in_class_exec(c, bytes[q])
        invariant
            len == bytes@.len(),
            p <= q,
            scan_fwd(bytes@, q as int, c) == scan_fwd(bytes@, p as int, c),
        decreases len - q,
    {
        q = q + 1;
    }
    q
}

/// Scans backward from `p` while the byte at the position is of class `c`.
pub fn scan_backward(bytes: &[u8], p: usize, c: Class) -> (r: usize)
    requires
        p < bytes@.len(),
    ensures
        r == scan_back(bytes@, p as int, c),
{
    let mut q = p;
    while q > 0 && in_class_exec(c, bytes[q])
        invariant
            q <= p < bytes@.len(),
            scan_back(bytes@, q as int, c) == scan_back(bytes@, p as int, c),
        decreases q,
    {
        q = q - 1;
    }
    q
}

/// Scans backward from `p` while the byte before the position is of class `c`.
pub fn scan_backward_prev(bytes: &[u8], p: usize, c: Class) -> (r: usize)
    requires
        p <= bytes@.len(),
    ensures
        r == scan_back_prev(bytes@, p as int, c),
{
    let mut q = p;
    while q > 0 && in_class_exec(c, bytes[q - 1])
        invariant
            q <= p <= bytes@.len(),
            scan_back_prev(bytes@, q as int, c) == scan_back_prev(bytes@, p as int, c),
        decreases q,
    {
        q = q - 1;
    }
    q
}

/// Start of the line holding `off`.
pub fn line_start_of(bytes: &[u8], off: usize) -> (r: usize)
    requires
        off <= bytes@.len(),
    ensures
        r == line_start(bytes@, off as int),
        r <= off,
{
    proof {
        lemma_scan_back_prev(bytes@, off as int, Class::NotNewline);
    }
    scan_backward_prev(bytes, off, Class::NotNewline)
}

/// End of the line holding `off`.
pub fn line_end_of(bytes: &[u8], off: usize) -> (r: usize)
    requires
        off <= bytes@.len(),
    ensures
        r == line_end(bytes@, off as int),
        off <= r <= bytes@.len(),
{
    proof {
        lemma_scan_fwd(bytes@, off as int, Class::NotNewline);
    }
    scan_forward(bytes, off, Class::NotNewline)
}

/// The next character boundary after `off` (or the end of the text).
pub open spec fn next_boundary(b: Seq<u8>, off: int) -> int {
    if off >= b.len() {
        b.len() as int
    } else {
        scan_fwd(b, off + 1, Class::Cont)
    }
}

/// The character boundary before `off` (or 0).
pub open spec fn prev_boundary(b: Seq<u8>, off: int) -> int {
    if off <= 0 {
        0
    } else {
        scan_back(b, off - 1, Class::Cont)
    }
}

/// The first character boundary after `offset`, or the end of the text.
pub fn next_char_boundary(bytes: &[u8], offset: usize) -> (r: usize)
    ensures
        r == next_boundary(bytes@, offset as int),
        offset < bytes@.len() ==> offset < r <= bytes@.len(),
        offset >= bytes@.len() ==> r == bytes@.len(),
{
    let len = bytes.len();
    if offset >= len {
        return len;
    }
    proof {
        lemma_scan_fwd(bytes@, offset + 1, Class::Cont);
    }
    scan_forward(bytes, offset + 1, Class::Cont)
}

/// The last character boundary before `offset`, or 0.
pub fn prev_char_boundary(bytes: &[u8], offset: usize) -> (r: usize)
    requires
        offset <= bytes@.len(),
    ensures
        r == prev_boundary(bytes@, offset as int),
        offset > 0 ==> r < offset,
        offset == 0 ==> r == 0,
{
    if offset == 0 {
        return 0;
    }
    proof {
        lemma_scan_back(bytes@, offset - 1, Class::Cont);
    }
    scan_backward(bytes, offset - 1, Class::Cont)
}

} // verus!
