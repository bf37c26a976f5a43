//! Converting between byte offsets in a text and offsets counted in UTF-16
//! code units, as the platform's text input reports them.
use vstd::prelude::*;

use crate::chars::{char_index, char_table, char_width, lemma_encode_push, utf8_len, CharTable};
use crate::text::byte_len;

verus! {

broadcast use vstd::string::group_string_axioms;

/// How many UTF-16 code units encode `c`.
pub open spec fn utf16_width(c: char) -> nat {
    if (c as u32) < 0x10000 {
        1
    } else {
        2
    }
}

/// How many UTF-16 code units encode `s`.
pub open spec fn utf16_len(s: Seq<char>) -> nat
    decreases s.len(),
{
    if s.len() == 0 {
        0
    } else {
        utf16_len(s.drop_last()) + utf16_width(s.last())
    }
}

/// From character `k` on, the first prefix of `s` that takes at least `u`
/// UTF-16 code units; the character count when there is none.
pub open spec fn utf16_index_from(s: Seq<char>, u: int, k: int) -> int
    decreases s.len() - k,
{
    if k < 0 || k >= s.len() || utf16_len(s.take(k)) >= u {
        k
    } else {
        utf16_index_from(s, u, k + 1)
    }
}

/// One more character adds its bytes to a prefix's byte length.
proof fn lemma_byte_len_step(s: Seq<char>, i: int)
    requires
        0 <= i < s.len(),
    ensures
        byte_len(s.take(i + 1)) == byte_len(s.take(i)) + char_width(s[i]),
{
    assert(s.take(i + 1) =~= s.take(i).push(s[i]));
    lemma_encode_push(s.take(i), s[i]);
}

/// One more character adds its code units to a prefix's UTF-16 length.
proof fn lemma_utf16_step(s: Seq<char>, i: int)
    requires
        0 <= i < s.len(),
    ensures
        utf16_len(s.take(i + 1)) == utf16_len(s.take(i)) + utf16_width(s[i]),
{
    assert(s.take(i + 1).drop_last() =~= s.take(i));
}

/// Counts the UTF-16 code units of the first `k` characters of a table's
/// text, which take no more units than bytes.
fn utf16_prefix(t: &CharTable, k: usize) -> (r: usize)
    requires
        t.wf(),
        k <= t.chars@.len(),
    ensures
        r == utf16_len(t.chars@.take(k as int)),
{
    let ghost s = t.chars@;
    let mut count: usize = 0;
    let mut i: usize = 0;
    assert(s.take(0) =~= Seq::<char>::empty());
    while i < k
        invariant
            t.wf(),
            s == t.chars@,
            k <= s.len(),
            i <= k,
            count == utf16_len(s.take(i as int)),
            count <= t.starts@[i as int],
        decreases k - i,
    {
        let c = t.chars[i];
        let w8 = utf8_len(c);
        let w16: usize = if (c as u32) < 0x10000 {
            1
        } else {
            2
        };
        proof {
            lemma_utf16_step(s, i as int);
            lemma_byte_len_step(s, i as int);
            assert(t.starts@[i + 1] == byte_len(s.take(i + 1)));
            assert(t.starts@[i as int] == byte_len(s.take(i as int)));
            assert(w16 <= w8);
        }
        count = count + w16;
        i = i + 1;
    }
    count
}

/// The UTF-16 offset of byte `offset` of `content` (clamped to its end),
/// which starts a character or is the end.
pub fn offset_to_utf16(content: &str, offset: usize) -> (r: usize)
    requires
        char_index(content@, if offset < byte_len(content@) { offset as int } else { byte_len(content@) as int }) is Some,
    ensures
        r == utf16_len(
            content@.take(
                char_index(
                    content@,
                    if offset < byte_len(content@) { offset as int } else { byte_len(content@) as int },
                )->0,
            ),
        ),
{
    let t = char_table(content);
    let n = t.chars.len();
    let total = t.starts[n];
    proof {
        assert(content@.take(n as int) =~= content@);
    }
    let o = if offset < total {
        offset
    } else {
        total
    };
    let k = match t.index_of(o) {
        Some(k) => k,
        None => {
            return 0;
        },
    };
    utf16_prefix(&t, k)
}

/// The byte offset of UTF-16 offset `utf16_offset` in `content`: the end
/// of the shortest prefix taking at least that many code units, or the end
/// of the text.
pub fn offset_from_utf16(content: &str, utf16_offset: usize) -> (r: usize)
    ensures
        r == byte_len(content@.take(utf16_index_from(content@, utf16_offset as int, 0))),
{
    let t = char_table(content);
    let ghost s = content@;
    let n = t.chars.len();
    let mut count: usize = 0;
    let mut i: usize = 0;
    assert(s.take(0) =~= Seq::<char>::empty());
    while i < n && count < utf16_offset
        invariant
            t.describes(s),
            s == content@,
            n == s.len(),
            i <= n,
            count == utf16_len(s.take(i as int)),
            count <= t.starts@[i as int],
            utf16_index_from(s, utf16_offset as int, i as int) == utf16_index_from(s, utf16_offset as int, 0),
        decreases n - i,
    {
        let c = t.chars[i];
        let w16: usize = if (c as u32) < 0x10000 {
            1
        } else {
            2
        };
        let w8 = utf8_len(c);
        proof {
            lemma_utf16_step(s, i as int);
            lemma_byte_len_step(s, i as int);
            assert(t.starts@[i + 1] == byte_len(s.take(i + 1)));
            assert(t.starts@[i as int] == byte_len(s.take(i as int)));
            assert(w16 <= w8);
        }
        count = count + w16;
        i = i + 1;
    }
    t.starts[i]
}

} // verus!
