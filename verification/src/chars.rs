//! The characters of a text together with the byte offset where each starts.
use vstd::prelude::*;
use vstd::utf8::*;

use crate::text::byte_len;

verus! {

broadcast use vstd::string::group_string_axioms;

/// Unicode white space (`char::is_whitespace`): the characters with the
/// `White_Space` property.
pub open spec fn unicode_whitespace(c: char) -> bool {
    let v = c as u32;
    ||| 0x09 <= v <= 0x0d
    ||| v == 0x20
    ||| v == 0x85
    ||| v == 0xa0
    ||| v == 0x1680
    ||| 0x2000 <= v <= 0x200a
    ||| v == 0x2028
    ||| v == 0x2029
    ||| v == 0x202f
    ||| v == 0x205f
    ||| v == 0x3000
}

pub fn is_whitespace_char(c: char) -> (r: bool)
    ensures
        r == unicode_whitespace(c),
{
    let v = c as u32;
    (v >= 0x09 && v <= 0x0d) || v == 0x20 || v == 0x85 || v == 0xa0 || v == 0x1680 || (v >= 0x2000
        && v <= 0x200a) || v == 0x2028 || v == 0x2029 || v == 0x202f || v == 0x205f || v == 0x3000
}

/// The number of bytes in the UTF-8 encoding of `c`.
pub open spec fn char_width(c: char) -> nat {
    encode_scalar(c as u32).len()
}

/// The encoding of a sequence followed by one more character.
pub proof fn lemma_encode_push(a: Seq<char>, c: char)
    ensures
        encode_utf8(a.push(c)) == encode_utf8(a) + encode_scalar(c as u32),
    decreases a.len(),
{
    if a.len() == 0 {
        assert(a.push(c).drop_first() =~= Seq::<char>::empty());
        assert(encode_utf8(Seq::<char>::empty()) =~= Seq::<u8>::empty());
        assert(a.push(c)[0] == c);
        assert(encode_utf8(a) =~= Seq::<u8>::empty());
        assert(encode_utf8(a.push(c)) =~= encode_scalar(c as u32) + encode_utf8(a.push(c).drop_first()));
        assert(encode_utf8(a.push(c)) =~= encode_utf8(a) + encode_scalar(c as u32));
    } else {
        assert(a.push(c).drop_first() =~= a.drop_first().push(c));
        lemma_encode_push(a.drop_first(), c);
        assert(encode_utf8(a.push(c)) =~= encode_utf8(a) + encode_scalar(c as u32));
    }
}

/// Encoding is additive over concatenation.
pub proof fn lemma_encode_concat(a: Seq<char>, b: Seq<char>)
    ensures
        encode_utf8(a + b) == encode_utf8(a) + encode_utf8(b),
    decreases a.len(),
{
    if a.len() == 0 {
        assert(a + b =~= b);
        assert(encode_utf8(a) =~= Seq::<u8>::empty());
        assert(encode_utf8(a) + encode_utf8(b) =~= encode_utf8(b));
    } else {
        assert((a + b).drop_first() =~= a.drop_first() + b);
        lemma_encode_concat(a.drop_first(), b);
        assert(encode_utf8(a + b) =~= encode_utf8(a) + encode_utf8(b));
    }
}

/// Byte length of a prefix grows with the prefix.
pub proof fn lemma_byte_len_take(s: Seq<char>, i: int, j: int)
    requires
        0 <= i <= j <= s.len(),
    ensures
        byte_len(s.take(i)) <= byte_len(s.take(j)),
        byte_len(s.take(j)) <= byte_len(s),
{
    assert(s.take(i) + s.subrange(i, j) =~= s.take(j));
    lemma_encode_concat(s.take(i), s.subrange(i, j));
    assert(s.take(j) + s.skip(j) =~= s);
    lemma_encode_concat(s.take(j), s.skip(j));
}

/// Every character takes at least one byte.
pub proof fn lemma_byte_len_ge_len(s: Seq<char>)
    ensures
        byte_len(s) >= s.len(),
    decreases s.len(),
{
    if s.len() > 0 {
        let a = s.drop_last();
        let c = s.last();
        assert(a.push(c) =~= s);
        lemma_encode_push(a, c);
        lemma_byte_len_ge_len(a);
        char_is_scalar(c);
        assert(encode_scalar(c as u32).len() >= 1);
    }
}

/// A longer prefix takes strictly more bytes.
pub proof fn lemma_byte_len_take_strict(s: Seq<char>, i: int, j: int)
    requires
        0 <= i < j <= s.len(),
    ensures
        byte_len(s.take(i)) < byte_len(s.take(j)),
{
    assert(s.take(i) + s.subrange(i, j) =~= s.take(j));
    lemma_encode_concat(s.take(i), s.subrange(i, j));
    lemma_byte_len_ge_len(s.subrange(i, j));
}

/// The byte offset where a character starts is a character boundary of
/// the encoding.
pub proof fn lemma_char_start_boundary(s: Seq<char>, j: int)
    requires
        0 <= j <= s.len(),
    ensures
        crate::text::boundary(encode_utf8(s), byte_len(s.take(j)) as int),
        byte_len(s.take(j)) <= byte_len(s),
{
    assert(s.take(j) + s.skip(j) =~= s);
    lemma_encode_concat(s.take(j), s.skip(j));
    let e2 = encode_utf8(s.skip(j));
    if j < s.len() {
        lemma_byte_len_ge_len(s.skip(j));
        encode_utf8_valid_utf8(s.skip(j));
        assert(valid_first_scalar(e2));
        assert(encode_utf8(s)[byte_len(s.take(j)) as int] == e2[0]);
    }
}

/// The byte length of a character's encoding.
pub fn utf8_len(c: char) -> (n: usize)
    ensures
        n == char_width(c),
        1 <= n <= 4,
        (c as u32) >= 0x10000 ==> n == 4,
{
    proof {
        char_is_scalar(c);
    }
    let v = c as u32;
    if v < 0x80 {
        1
    } else if v < 0x800 {
        2
    } else if v < 0x10000 {
        3
    } else {
        4
    }
}

/// The characters of a text and where each starts.
pub struct CharTable {
    /// The characters, in order.
    pub chars: Vec<char>,
    /// `starts[k]` is the byte offset of character `k`; the last entry is
    /// the byte length of the text.
    pub starts: Vec<usize>,
}

impl CharTable {
    /// The table describes the text `s`.
    pub open spec fn describes(&self, s: Seq<char>) -> bool {
        &&& self.chars@ == s
        &&& self.starts@.len() == s.len() + 1
        &&& forall|k: int| 0 <= k <= s.len() ==> #[trigger] self.starts@[k] == byte_len(s.take(k))
    }
}

/// Builds the character table of `s`.
pub fn char_table(s: &str) -> (t: CharTable)
    ensures
        t.describes(s@),
{
    let total = s.as_bytes().len();
    let mut chars: Vec<char> = Vec::new();
    let mut starts: Vec<usize> = Vec::new();
    let mut off: usize = 0;
    proof {
        assert(s@.take(0) =~= Seq::<char>::empty());
    }
    for c in it: s.chars()
        invariant
            it.seq() == s@,
            total == byte_len(s@),
            chars@ == s@.take(it.index() as int),
            starts@.len() == it.index(),
            forall|k: int| 0 <= k < it.index() ==> #[trigger] starts@[k] == byte_len(s@.take(k)),
            off == byte_len(s@.take(it.index() as int)),
            it.index() <= s@.len(),
    {
        let ghost k = it.index() as int;
        starts.push(off);
        chars.push(c);
        let w = utf8_len(c);
        proof {
            assert(s@[k] == c);
            assert(s@.take(k + 1) =~= s@.take(k).push(c));
            lemma_encode_push(s@.take(k), c);
            lemma_byte_len_take(s@, k + 1, k + 1);
        }
        off = off + w;
    }
    starts.push(off);
    proof {
        assert(s@.take(s@.len() as int) =~= s@);
    }
    CharTable { chars, starts }
}

/// From character `k` on, the first character of `t` that starts at or
/// after byte `off`; the character count when there is none.
pub open spec fn index_from(t: Seq<char>, off: int, k: int) -> int
    decreases t.len() - k,
{
    if k < 0 || k >= t.len() || byte_len(t.take(k)) >= off {
        k
    } else {
        index_from(t, off, k + 1)
    }
}

/// The index of the character of `t` that starts at byte `off` (the
/// character count when `off` is the end of the text); none when `off`
/// falls inside a character or past the end.
pub open spec fn char_index(t: Seq<char>, off: int) -> Option<int> {
    let k = index_from(t, off, 0);
    if byte_len(t.take(k)) == off {
        Some(k)
    } else {
        None
    }
}

/// The index of the first character of the line that holds character `k`:
/// just after the last newline before it, or 0.
pub open spec fn line_head(t: Seq<char>, k: int) -> int
    decreases k,
{
    if k <= 0 || k > t.len() {
        0
    } else if t[k - 1] == '\n' {
        k
    } else {
        line_head(t, k - 1)
    }
}

/// The index of the first newline at or after character `k`, or the
/// character count.
pub open spec fn line_tail(t: Seq<char>, k: int) -> int
    decreases t.len() - k,
{
    if k < 0 || k >= t.len() || t[k] == '\n' {
        k
    } else {
        line_tail(t, k + 1)
    }
}

pub proof fn lemma_index_from(t: Seq<char>, off: int, k: int)
    requires
        0 <= k <= t.len(),
    ensures
        k <= index_from(t, off, k) <= t.len(),
    decreases t.len() - k,
{
    if k < t.len() && byte_len(t.take(k)) < off {
        lemma_index_from(t, off, k + 1);
    }
}

pub proof fn lemma_line_head(t: Seq<char>, k: int)
    requires
        0 <= k <= t.len(),
    ensures
        0 <= line_head(t, k) <= k,
        forall|i: int| line_head(t, k) <= i < k ==> t[i] != '\n',
    decreases k,
{
    if k > 0 && t[k - 1] != '\n' {
        lemma_line_head(t, k - 1);
    }
}

pub proof fn lemma_line_tail(t: Seq<char>, k: int)
    requires
        0 <= k <= t.len(),
    ensures
        k <= line_tail(t, k) <= t.len(),
        forall|i: int| k <= i < line_tail(t, k) ==> t[i] != '\n',
        line_tail(t, k) < t.len() ==> t[line_tail(t, k)] == '\n',
    decreases t.len() - k,
{
    if k < t.len() && t[k] != '\n' {
        lemma_line_tail(t, k + 1);
    }
}

impl CharTable {
    /// The table describes its own characters.
    pub open spec fn wf(&self) -> bool {
        self.describes(self.chars@)
    }

    /// The index of the character that starts at byte `off`, if any.
    pub fn index_of(&self, off: usize) -> (r: Option<usize>)
        requires
            self.wf(),
        ensures
            match r {
                Some(k) => char_index(self.chars@, off as int) == Some(k as int) && k <= self.chars@.len(),
                None => char_index(self.chars@, off as int) is None,
            },
    {
        let n = self.chars.len();
        let mut k: usize = 0;
        while k < n && self.starts[k] < off
            invariant
                self.wf(),
                n == self.chars@.len(),
                k <= n,
                index_from(self.chars@, off as int, k as int) == index_from(self.chars@, off as int, 0),
            decreases n - k,
        {
            k = k + 1;
        }
        if self.starts[k] == off {
            Some(k)
        } else {
            None
        }
    }

    /// The index of the first character of the line holding character `k`.
    pub fn line_head_of(&self, k: usize) -> (r: usize)
        requires
            k <= self.chars@.len(),
        ensures
            r == line_head(self.chars@, k as int),
            r <= k,
    {
        proof {
            lemma_line_head(self.chars@, k as int);
        }
        let mut i = k;
        while i > 0 && self.chars[i - 1] != '\n'
            invariant
                i <= k <= self.chars@.len(),
                line_head(self.chars@, i as int) == line_head(self.chars@, k as int),
            decreases i,
        {
            i = i - 1;
        }
        i
    }

    /// The index of the first newline at or after character `k`, or the
    /// character count.
    pub fn line_tail_of(&self, k: usize) -> (r: usize)
        requires
            k <= self.chars@.len(),
        ensures
            r == line_tail(self.chars@, k as int),
            k <= r <= self.chars@.len(),
    {
        proof {
            lemma_line_tail(self.chars@, k as int);
        }
        let n = self.chars.len();
        let mut i = k;
        while i < n && self.chars[i] != '\n'
            invariant
                k <= i <= n,
                n == self.chars@.len(),
                line_tail(self.chars@, i as int) == line_tail(self.chars@, k as int),
            decreases n - i,
        {
            i = i + 1;
        }
        i
    }
}

} // verus!
