//! An editable markdown document: its file, its text (held in a rope) and
//! whether it has unsaved changes.
use std::path::PathBuf;

use std::ops::Range;

use ropey::Rope;
use vstd::prelude::*;

use crate::chars::{char_index, index_from, lemma_byte_len_take_strict, lemma_index_from};
use crate::text::byte_len;

verus! {

/// The rope type of the `ropey` crate.
#[verifier::external_type_specification]
#[verifier::external_body]
pub struct ExRope(Rope);

/// A file system path of the standard library.
#[verifier::external_type_specification]
#[verifier::external_body]
pub struct ExPathBuf(PathBuf);

/// The characters a rope holds, in order.
pub uninterp spec fn rope_chars(r: Rope) -> Seq<char>;

/// `Rope::from_str`: a rope holding the characters of `text`.
#[verifier::external_body]
fn rope_from_str(text: &str) -> (r: Rope)
    ensures
        rope_chars(r) == text@,
{
    Rope::from_str(text)
}

/// The text of a rope as a string (the rope's `Display` writes its chunks
/// in order).
#[verifier::external_body]
fn rope_to_string(r: &Rope) -> (s: String)
    ensures
        s@ == rope_chars(*r),
{
    r.to_string()
}

/// `Rope::len_chars`: the number of characters.
#[verifier::external_body]
fn rope_len_chars(r: &Rope) -> (n: usize)
    ensures
        n == rope_chars(*r).len(),
{
    r.len_chars()
}

/// `Rope::byte_to_char`: the index of the character that holds byte
/// `byte_idx`, or the character count for the end of the text.
#[verifier::external_body]
fn rope_byte_to_char(r: &Rope, byte_idx: usize) -> (k: usize)
    requires
        byte_idx <= byte_len(rope_chars(*r)),
    ensures
        k <= rope_chars(*r).len(),
        byte_len(rope_chars(*r).take(k as int)) <= byte_idx,
        k < rope_chars(*r).len() ==> byte_idx < byte_len(rope_chars(*r).take(k + 1)),
{
    r.byte_to_char(byte_idx)
}

/// `Rope::char_to_byte`: the byte offset where character `char_idx`
/// starts (the byte length for the end).
#[verifier::external_body]
fn rope_char_to_byte(r: &Rope, char_idx: usize) -> (n: usize)
    requires
        char_idx <= rope_chars(*r).len(),
    ensures
        n == byte_len(rope_chars(*r).take(char_idx as int)),
{
    r.char_to_byte(char_idx)
}

/// `Rope::remove`: removes the characters from `start` to `end`.
#[verifier::external_body]
fn rope_remove(r: &mut Rope, start: usize, end: usize)
    requires
        start <= end <= rope_chars(*old(r)).len(),
    ensures
        rope_chars(*final(r)) == rope_chars(*old(r)).take(start as int) + rope_chars(
            *old(r),
        ).skip(end as int),
{
    r.remove(start..end)
}

/// `Rope::insert`: inserts `text` before character `char_idx`.
#[verifier::external_body]
fn rope_insert(r: &mut Rope, char_idx: usize, text: &str)
    requires
        char_idx <= rope_chars(*old(r)).len(),
    ensures
        rope_chars(*final(r)) == rope_chars(*old(r)).take(char_idx as int) + text@ + rope_chars(
            *old(r),
        ).skip(char_idx as int),
{
    r.insert(char_idx, text)
}

/// `Rope::slice` written out as a string: the characters from `start` to
/// `end`.
#[verifier::external_body]
fn rope_slice_string(r: &Rope, start: usize, end: usize) -> (s: String)
    requires
        start <= end <= rope_chars(*r).len(),
    ensures
        s@ == rope_chars(*r).subrange(start as int, end as int),
{
    r.slice(start..end).to_string()
}

/// Byte `off` of `t` starts a character, or is the end of `t`.
pub open spec fn starts_char(t: Seq<char>, off: int) -> bool {
    char_index(t, off) is Some
}

/// The index of the character that starts at byte `off` of `t`.
pub open spec fn char_at_offset(t: Seq<char>, off: int) -> int {
    index_from(t, off, 0)
}

/// `t` with the bytes from `start` to `end` replaced by `s`.
pub open spec fn splice(t: Seq<char>, start: int, end: int, s: Seq<char>) -> Seq<char> {
    t.take(char_at_offset(t, start)) + s + t.skip(char_at_offset(t, end))
}

/// The text of `t` between bytes `start` and `end`.
pub open spec fn between(t: Seq<char>, start: int, end: int) -> Seq<char> {
    t.subrange(char_at_offset(t, start), char_at_offset(t, end))
}

/// A byte offset that starts a character lies within the text, and the
/// character there is found by `char_at_offset`.
pub proof fn lemma_starts_char(t: Seq<char>, off: int)
    requires
        starts_char(t, off),
    ensures
        0 <= off <= byte_len(t),
        0 <= char_at_offset(t, off) <= t.len(),
        byte_len(t.take(char_at_offset(t, off))) == off,
{
    lemma_index_from(t, off, 0);
    crate::chars::lemma_byte_len_take(t, char_at_offset(t, off), t.len() as int);
    assert(t.take(t.len() as int) =~= t);
}

/// The character that holds byte `off` is the one starting there, when
/// one does.
pub proof fn lemma_char_at_start(t: Seq<char>, off: int, k: int)
    requires
        starts_char(t, off),
        0 <= k <= t.len(),
        byte_len(t.take(k)) <= off,
        k < t.len() ==> off < byte_len(t.take(k + 1)),
    ensures
        k == char_at_offset(t, off),
        byte_len(t.take(char_at_offset(t, off))) == off,
        0 <= char_at_offset(t, off) <= t.len(),
{
    lemma_index_from(t, off, 0);
    let j = char_at_offset(t, off);
    if j < k {
        lemma_byte_len_take_strict(t, j, k);
    } else if k < j {
        if k + 1 < j {
            lemma_byte_len_take_strict(t, k + 1, j);
        }
    }
}

/// From character `j` on, the first character of `t` starting at or after
/// the byte offset where character `k` starts is `k` itself.
proof fn lemma_index_of_start(t: Seq<char>, k: int, j: int)
    requires
        0 <= j <= k <= t.len(),
    ensures
        index_from(t, byte_len(t.take(k)) as int, j) == k,
    decreases k - j,
{
    if j < k {
        lemma_byte_len_take_strict(t, j, k);
        lemma_index_of_start(t, k, j + 1);
    }
}

/// The byte offset where character `k` starts is a character start, and
/// `char_at_offset` finds `k` there.
pub proof fn lemma_offset_of_char(t: Seq<char>, k: int)
    requires
        0 <= k <= t.len(),
    ensures
        starts_char(t, byte_len(t.take(k)) as int),
        char_at_offset(t, byte_len(t.take(k)) as int) == k,
{
    lemma_index_of_start(t, k, 0);
}

/// Writing `n` over the bytes from `start` to `end` of `t` (which start
/// characters): reading back the bytes the write covers gives `n`, and
/// writing the old text back over them gives `t` again.
pub proof fn lemma_splice_inverse(t: Seq<char>, start: int, end: int, n: Seq<char>)
    requires
        start <= end,
        starts_char(t, start),
        starts_char(t, end),
    ensures
        ({
            let t2 = splice(t, start, end, n);
            let e2 = start + byte_len(n);
            &&& starts_char(t2, start)
            &&& starts_char(t2, e2)
            &&& between(t2, start, e2) == n
            &&& splice(t2, start, e2, between(t, start, end)) == t
            &&& byte_len(t2) == byte_len(t) - (end - start) + byte_len(n)
        }),
{
    lemma_starts_char(t, start);
    lemma_starts_char(t, end);
    let a = char_at_offset(t, start);
    let b = char_at_offset(t, end);
    if b < a {
        lemma_byte_len_take_strict(t, b, a);
    }
    let t2 = splice(t, start, end, n);
    assert(t2 == t.take(a) + n + t.skip(b));
    assert(t2.take(a) =~= t.take(a));
    assert(t2.take(a + n.len()) =~= t.take(a) + n);
    crate::chars::lemma_encode_concat(t.take(a), n);
    lemma_offset_of_char(t2, a);
    lemma_offset_of_char(t2, a + n.len());
    let e2 = start + byte_len(n);
    assert(byte_len(t2.take(a + n.len())) == e2);
    assert(between(t2, start, e2) =~= n);
    assert(t2.take(a) + t.subrange(a, b) + t2.skip(a + n.len()) =~= t);
    assert(t.take(a) + t.subrange(a, b) =~= t.take(b));
    crate::chars::lemma_encode_concat(t.take(a), t.subrange(a, b));
    assert(t.take(b) + t.skip(b) =~= t);
    crate::chars::lemma_encode_concat(t.take(b), t.skip(b));
    crate::chars::lemma_encode_concat(t.take(a) + n, t.skip(b));
}

/// An editable markdown document.
///
/// The document is the single owner of file identity, text, and dirty state.
/// View-specific state such as cursors, selections, and scrolling remains
/// with the editor window.
pub struct Document {
    path: Option<PathBuf>,
    buffer: Rope,
    dirty: bool,
}

impl Document {
    /// The document's text.
    pub closed spec fn text(&self) -> Seq<char> {
        rope_chars(self.buffer)
    }

    /// Whether the document has a file.
    pub closed spec fn has_path(&self) -> bool {
        self.path is Some
    }

    /// The document's file, if it has one.
    pub closed spec fn file(&self) -> Option<PathBuf> {
        self.path
    }

    /// Whether the document has unsaved changes.
    pub closed spec fn dirty_spec(&self) -> bool {
        self.dirty
    }

    /// A document with no file, holding `content`.
    pub fn scratch(content: String) -> (d: Self)
        ensures
            d.text() == content@,
            !d.has_path(),
            !d.dirty_spec(),
    {
        Document { path: None, buffer: rope_from_str(content.as_str()), dirty: false }
    }

    /// A document for the file at `path`, holding `content`.
    pub fn from_content(path: PathBuf, content: String) -> (d: Self)
        ensures
            d.text() == content@,
            d.file() == Some(path),
            d.has_path(),
            !d.dirty_spec(),
    {
        Document { path: Some(path), buffer: rope_from_str(content.as_str()), dirty: false }
    }

    /// The document's file, if it has one.
    pub fn path(&self) -> (r: Option<&PathBuf>)
        ensures
            match r {
                Some(p) => self.file() == Some(*p),
                None => !self.has_path(),
            },
    {
        match &self.path {
            Some(p) => Some(p),
            None => None,
        }
    }

    /// The document's text.
    pub fn content(&self) -> (s: String)
        ensures
            s@ == self.text(),
    {
        rope_to_string(&self.buffer)
    }

    /// Whether the document has unsaved changes.
    pub fn is_dirty(&self) -> (r: bool)
        ensures
            r == self.dirty_spec(),
    {
        self.dirty
    }

    /// Records that the text changed since the last save.
    pub fn mark_dirty(&mut self)
        ensures
            final(self).dirty_spec(),
            final(self).text() == old(self).text(),
            final(self).file() == old(self).file(),
    {
        self.dirty = true;
    }

    /// Replaces the whole text, as when the file is reloaded: the document
    /// is then clean.
    pub fn replace_content(&mut self, content: String)
        ensures
            final(self).text() == content@,
            !final(self).dirty_spec(),
            final(self).file() == old(self).file(),
    {
        self.buffer = rope_from_str(content.as_str());
        self.dirty = false;
    }

    /// What saving writes, and where: the text, to the document's file.
    /// `None` for a document with no file, which cannot be saved.
    pub fn save_request(&self) -> (r: Option<(&PathBuf, String)>)
        ensures
            match r {
                Some((p, s)) => self.file() == Some(*p) && s@ == self.text(),
                None => !self.has_path(),
            },
    {
        match &self.path {
            Some(p) => Some((p, self.content())),
            None => None,
        }
    }

    /// The number of characters.
    pub fn len_chars(&self) -> (n: usize)
        ensures
            n == self.text().len(),
    {
        rope_len_chars(&self.buffer)
    }

    /// The index of the character that holds byte `byte_idx`, or the
    /// character count for the end of the text.
    pub fn byte_to_char(&self, byte_idx: usize) -> (k: usize)
        requires
            byte_idx <= byte_len(self.text()),
        ensures
            k <= self.text().len(),
            byte_len(self.text().take(k as int)) <= byte_idx,
            k < self.text().len() ==> byte_idx < byte_len(self.text().take(k + 1)),
    {
        rope_byte_to_char(&self.buffer, byte_idx)
    }

    /// The byte offset where character `char_idx` starts.
    pub fn char_to_byte(&self, char_idx: usize) -> (n: usize)
        requires
            char_idx <= self.text().len(),
        ensures
            n == byte_len(self.text().take(char_idx as int)),
    {
        rope_char_to_byte(&self.buffer, char_idx)
    }

    /// The text between two byte offsets that start characters.
    pub fn slice_bytes(&self, range: Range<usize>) -> (s: String)
        requires
            range.start <= range.end,
            starts_char(self.text(), range.start as int),
            starts_char(self.text(), range.end as int),
        ensures
            s@ == between(self.text(), range.start as int, range.end as int),
    {
        let ghost t = self.text();
        proof {
            lemma_starts_char(t, range.start as int);
            lemma_starts_char(t, range.end as int);
        }
        let a = rope_byte_to_char(&self.buffer, range.start);
        let b = rope_byte_to_char(&self.buffer, range.end);
        proof {
            lemma_char_at_start(t, range.start as int, a as int);
            lemma_char_at_start(t, range.end as int, b as int);
            if b < a {
                lemma_byte_len_take_strict(t, b as int, a as int);
            }
        }
        rope_slice_string(&self.buffer, a, b)
    }

    /// Replaces the text between two byte offsets that start characters;
    /// the document then has unsaved changes.
    pub fn replace_range(&mut self, range: Range<usize>, new_text: &str)
        requires
            range.start <= range.end,
            starts_char(old(self).text(), range.start as int),
            starts_char(old(self).text(), range.end as int),
        ensures
            final(self).text() == splice(
                old(self).text(),
                range.start as int,
                range.end as int,
                new_text@,
            ),
            final(self).dirty_spec(),
            final(self).file() == old(self).file(),
    {
        let ghost t = self.text();
        proof {
            lemma_starts_char(t, range.start as int);
            lemma_starts_char(t, range.end as int);
        }
        let a = rope_byte_to_char(&self.buffer, range.start);
        let b = rope_byte_to_char(&self.buffer, range.end);
        proof {
            lemma_char_at_start(t, range.start as int, a as int);
            lemma_char_at_start(t, range.end as int, b as int);
            if b < a {
                lemma_byte_len_take_strict(t, b as int, a as int);
            }
        }
        rope_remove(&mut self.buffer, a, b);
        proof {
            assert(rope_chars(self.buffer).take(a as int) =~= t.take(a as int));
            assert(rope_chars(self.buffer).skip(a as int) =~= t.skip(b as int));
        }
        rope_insert(&mut self.buffer, a, new_text);
        self.dirty = true;
    }

    /// Records that the text was written to the document's file.
    pub fn mark_saved(&mut self)
        ensures
            !final(self).dirty_spec(),
            final(self).text() == old(self).text(),
            final(self).file() == old(self).file(),
    {
        self.dirty = false;
    }
}

} // verus!
