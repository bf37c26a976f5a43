//! The edits of vim normal-mode commands (`x`, `X`, `s`, `yy`, `J`, `D`,
//! `C`, `S`, `~`, `p`, `P`, `o`, `O`): which bytes they remove or replace,
//! what goes to the register, and where the cursor lands.
use std::ops::Range;

use vstd::prelude::*;

use crate::buffer::{next_grapheme_spec, EditorBuffer};
use crate::bytes::{
    lemma_scan_back, lemma_scan_fwd, line_end, line_end_of, line_start, line_start_of,
    next_boundary, next_char_boundary, prev_boundary, prev_char_boundary, Class,
};
use crate::chars::{char_table, lemma_byte_len_take, lemma_char_start_boundary};
use crate::code_edit::fence::{skip_ws, skip_ws_exec};
use crate::editing::{snap_spec, snap_to_char_boundary};
use crate::text::{
    boundary, byte_len, char_is_uppercase, char_lowercase, char_to_lowercase, char_to_uppercase,
    char_uppercase, chars_of, ends_with_newline, lemma_boundary_ends, slice_text, str_byte_len,
    text_between, to_owned, uppercase_char, utf8_bytes, lemma_after_ascii, push_char,
};

verus! {

broadcast use vstd::string::group_string_axioms;

/// A deletion that also fills the register: the bytes to delete and the
/// text they hold.
#[derive(Debug, PartialEq, Eq)]
pub struct Cut {
    pub range: Range<usize>,
    pub text: String,
}

/// What a cut holds.
pub open spec fn cut_view(c: Cut) -> (int, int, Seq<char>) {
    (c.range.start as int, c.range.end as int, c.text@)
}

/// The same for an optional cut.
pub open spec fn opt_cut_view(c: Option<Cut>) -> Option<(int, int, Seq<char>)> {
    match c {
        Some(x) => Some(cut_view(x)),
        None => None,
    }
}

/// The cut of the bytes from `a` to `e` of `s`.
pub open spec fn cut_spec(s: Seq<char>, a: int, e: int) -> (int, int, Seq<char>) {
    (a, e, text_between(s, a, e))
}

/// The previous character boundary stops at a character start.
proof fn lemma_prev_boundary(b: Seq<u8>, s: Seq<char>, p: int)
    requires
        b == utf8_bytes(s),
        0 < p <= b.len(),
    ensures
        0 <= prev_boundary(b, p) < p,
        boundary(b, prev_boundary(b, p)),
{
    lemma_scan_back(b, p - 1, Class::Cont);
    lemma_scan_back_stops(b, p - 1);
    lemma_boundary_ends(s);
}

proof fn lemma_scan_back_stops(b: Seq<u8>, p: int)
    requires
        0 <= p < b.len(),
    ensures
        crate::bytes::scan_back(b, p, Class::Cont) > 0 ==> !crate::bytes::in_class(
            Class::Cont,
            b[crate::bytes::scan_back(b, p, Class::Cont)],
        ),
    decreases p,
{
    if p > 0 && crate::bytes::in_class(Class::Cont, b[p]) {
        lemma_scan_back_stops(b, p - 1);
    }
}

/// The next character boundary is a boundary.
proof fn lemma_next_boundary(b: Seq<u8>, p: int)
    requires
        0 <= p < b.len(),
    ensures
        p < next_boundary(b, p) <= b.len(),
        boundary(b, next_boundary(b, p)),
{
    lemma_scan_fwd(b, p + 1, Class::Cont);
}

/// `x`: the character under the cursor, when there is one.
pub fn delete_char_forward_cut(content: &str, cursor: usize) -> (r: Option<Cut>)
    requires
        cursor < utf8_bytes(content@).len() ==> boundary(utf8_bytes(content@), cursor as int),
    ensures
        opt_cut_view(r) == if cursor < utf8_bytes(content@).len() {
            Some(cut_spec(content@, cursor as int, next_boundary(utf8_bytes(content@), cursor as int)))
        } else {
            None
        },
{
    let bytes = content.as_bytes();
    if cursor >= bytes.len() {
        return None;
    }
    let end = next_char_boundary(bytes, cursor);
    proof {
        lemma_next_boundary(bytes@, cursor as int);
    }
    let text = to_owned(slice_text(content, cursor, end));
    Some(Cut { range: Range { start: cursor, end }, text })
}

/// `X`: the character before the cursor, when there is one.
pub fn delete_char_backward_cut(content: &str, cursor: usize) -> (r: Option<Cut>)
    requires
        cursor > 0 ==> cursor <= utf8_bytes(content@).len() && boundary(utf8_bytes(content@), cursor as int),
    ensures
        opt_cut_view(r) == if cursor > 0 {
            Some(cut_spec(content@, prev_boundary(utf8_bytes(content@), cursor as int), cursor as int))
        } else {
            None
        },
{
    if cursor == 0 {
        return None;
    }
    let bytes = content.as_bytes();
    let start = prev_char_boundary(bytes, cursor);
    proof {
        lemma_prev_boundary(bytes@, content@, cursor as int);
    }
    let text = to_owned(slice_text(content, start, cursor));
    Some(Cut { range: Range { start, end: cursor }, text })
}

/// How far `s` reaches from `end`: up to `k` characters, stopping at a
/// newline or the end of the text.
pub open spec fn subst_end(t: Seq<char>, end: int, k: nat) -> int
    decreases k,
{
    let b = utf8_bytes(t);
    if k == 0 || end >= b.len() || end < 0 || b[end] == 10 {
        end
    } else {
        subst_end(t, next_grapheme_spec(t, end), (k - 1) as nat)
    }
}

/// `s` with a count: up to `count` characters from the cursor, not past
/// the end of the line; nothing when that is empty.
pub open spec fn substitute_spec(t: Seq<char>, cursor: int, count: nat) -> Option<(int, int, Seq<char>)> {
    let end = subst_end(t, cursor, count);
    if end > cursor {
        Some(cut_spec(t, cursor, end))
    } else {
        None
    }
}

/// A next grapheme is a character start past the offset.
proof fn lemma_next_grapheme(t: Seq<char>, off: int)
    requires
        0 <= off < utf8_bytes(t).len(),
    ensures
        off < next_grapheme_spec(t, off) <= utf8_bytes(t).len(),
        boundary(utf8_bytes(t), next_grapheme_spec(t, off)),
{
    let ix = crate::chars::index_from(t, off, 0);
    crate::chars::lemma_index_from(t, off, 0);
    let k = crate::buffer::holding(t, off);
    lemma_char_start_boundary(t, t.len() as int);
    assert(t.take(t.len() as int) =~= t);
    if k + 1 < t.len() {
        lemma_holding_bounds(t, off);
        lemma_char_start_boundary(t, k + 1);
    }
}

/// The character holding a byte starts at or before it and ends after it.
proof fn lemma_holding_bounds(t: Seq<char>, off: int)
    requires
        0 <= off < utf8_bytes(t).len(),
    ensures
        0 <= crate::buffer::holding(t, off) < t.len(),
        off < byte_len(t.take(crate::buffer::holding(t, off) + 1)),
{
    // Find the character whose bytes hold `off` by walking the prefixes.
    let k = holding_walk(t, off, 0);
    assert(t.take(0) =~= Seq::<char>::empty());
    crate::buffer::lemma_holding(t, off, k);
}

/// The character holding byte `off`, found by walking from character `k`.
proof fn holding_walk(t: Seq<char>, off: int, k: int) -> (r: int)
    requires
        0 <= k < t.len(),
        byte_len(t.take(k)) <= off < utf8_bytes(t).len(),
    ensures
        0 <= r < t.len(),
        byte_len(t.take(r)) <= off < byte_len(t.take(r + 1)),
    decreases t.len() - k,
{
    if off < byte_len(t.take(k + 1)) {
        k
    } else {
        if k + 1 == t.len() {
            assert(t.take(k + 1) =~= t);
        }
        holding_walk(t, off, k + 1)
    }
}

/// `s`: the characters it replaces and the text they held.
pub fn substitute_cut(buffer: &EditorBuffer, cursor: usize, count: usize) -> (r: Option<Cut>)
    requires
        cursor < byte_len(buffer.document.text()) ==> boundary(
            utf8_bytes(buffer.document.text()),
            cursor as int,
        ),
    ensures
        opt_cut_view(r) == substitute_spec(buffer.document.text(), cursor as int, count as nat),
{
    let content = buffer.content();
    let bytes = content.as_str().as_bytes();
    let ghost t = buffer.document.text();
    let ghost b = bytes@;
    let len = bytes.len();
    let mut end = cursor;
    let mut i: usize = 0;
    while i < count
        invariant
            t == buffer.document.text(),
            content@ == t,
            b == utf8_bytes(t),
            bytes@ == b,
            len == b.len(),
            i <= count,
            cursor <= end,
            end < len ==> boundary(b, end as int),
            end > cursor ==> end <= len,
            subst_end(t, end as int, (count - i) as nat) == subst_end(t, cursor as int, count as nat),
        ensures
            subst_end(t, end as int, (count - i) as nat) == end,
            end > cursor ==> end <= len,
            end < len ==> boundary(b, end as int),
            subst_end(t, end as int, (count - i) as nat) == subst_end(t, cursor as int, count as nat),
        decreases count - i,
    {
        if end >= len || bytes[end] == 10 {
            break;
        }
        proof {
            lemma_next_grapheme(t, end as int);
        }
        end = buffer.next_grapheme(end);
        i = i + 1;
    }
    if end > cursor {
        proof {
            if end < len {
            } else {
                lemma_boundary_ends(t);
            }
        }
        let text = to_owned(slice_text(content.as_str(), cursor, end));
        Some(Cut { range: Range { start: cursor, end }, text })
    } else {
        None
    }
}

/// Line starts and line ends are character boundaries.
proof fn lemma_line_bounds(s: Seq<char>, p: int)
    requires
        0 <= p <= utf8_bytes(s).len(),
    ensures
        0 <= line_start(utf8_bytes(s), p) <= p,
        boundary(utf8_bytes(s), line_start(utf8_bytes(s), p)),
        p <= line_end(utf8_bytes(s), p) <= utf8_bytes(s).len(),
        boundary(utf8_bytes(s), line_end(utf8_bytes(s), p)),
        line_end(utf8_bytes(s), p) < utf8_bytes(s).len() ==> utf8_bytes(s)[line_end(utf8_bytes(s), p)] == 10,
        line_end(utf8_bytes(s), p) < utf8_bytes(s).len() ==> boundary(utf8_bytes(s), line_end(utf8_bytes(s), p) + 1),
{
    let b = utf8_bytes(s);
    crate::bytes::lemma_scan_back_prev(b, p, Class::NotNewline);
    lemma_scan_fwd(b, p, Class::NotNewline);
    lemma_boundary_ends(s);
    let ls = line_start(b, p);
    if ls > 0 {
        lemma_after_ascii(s, ls - 1);
    }
    let le = line_end(b, p);
    if le < b.len() {
        lemma_after_ascii(s, le);
    }
}

/// A snapped offset is a character boundary within the text.
proof fn lemma_snap(s: Seq<char>, off: int)
    requires
        0 <= off,
    ensures
        0 <= snap_spec(utf8_bytes(s), off) <= utf8_bytes(s).len(),
        boundary(utf8_bytes(s), snap_spec(utf8_bytes(s), off)),
{
    let b = utf8_bytes(s);
    lemma_boundary_ends(s);
    if off < b.len() {
        lemma_scan_back(b, off, Class::Cont);
        lemma_scan_back_stops(b, off);
    }
}

/// Where `yy` with a count stops: after `k` more lines from `end`, or at
/// the end of the text.
pub open spec fn yank_end(b: Seq<u8>, end: int, k: nat) -> int
    decreases k,
{
    if k == 0 {
        end
    } else {
        let le = line_end(b, end);
        let e2 = if le < b.len() {
            le + 1
        } else {
            b.len() as int
        };
        if e2 == b.len() {
            e2
        } else {
            yank_end(b, e2, (k - 1) as nat)
        }
    }
}

/// `yy` with a count: the text of `count` lines from the cursor's line,
/// each with its newline.
pub open spec fn yank_line_spec(s: Seq<char>, cursor: int, count: nat) -> Seq<char> {
    let b = utf8_bytes(s);
    let ls = line_start(b, cursor);
    text_between(s, ls, yank_end(b, ls, count))
}

/// `yy`: the lines that go to the register.
pub fn yank_line_text(content: &str, cursor: usize, count: usize) -> (r: String)
    requires
        cursor <= utf8_bytes(content@).len(),
        boundary(utf8_bytes(content@), cursor as int),
    ensures
        r@ == yank_line_spec(content@, cursor as int, count as nat),
{
    let bytes = content.as_bytes();
    let ghost b = bytes@;
    let len = bytes.len();
    proof {
        lemma_line_bounds(content@, cursor as int);
    }
    let line_start = line_start_of(bytes, cursor);
    let mut end = line_start;
    let mut i: usize = 0;
    while i < count
        invariant
            b == utf8_bytes(content@),
            bytes@ == b,
            len == b.len(),
            line_start <= end <= len,
            boundary(b, end as int),
            i <= count,
            yank_end(b, end as int, (count - i) as nat) == yank_end(b, line_start as int, count as nat),
        ensures
            line_start <= end <= len,
            boundary(b, end as int),
            end == yank_end(b, line_start as int, count as nat),
        decreases count - i,
    {
        proof {
            lemma_line_bounds(content@, end as int);
        }
        let le = line_end_of(bytes, end);
        end = if le < len {
            le + 1
        } else {
            len
        };
        i = i + 1;
        if end == len {
            break;
        }
    }
    to_owned(slice_text(content, line_start, end))
}

/// `J`: joining the cursor's line with the next replaces the newline and
/// the next line's leading white space by one space, and the cursor goes
/// to where the newline was; nothing on the last line. The pair is the
/// range replaced.
pub open spec fn join_lines_spec(s: Seq<char>, cursor: int) -> Option<(int, int)> {
    let b = utf8_bytes(s);
    let pos = snap_spec(b, cursor);
    let nl = line_end(b, pos);
    if nl < b.len() {
        let rest = text_between(s, nl + 1, b.len() as int);
        let ws = byte_len(rest.take(skip_ws(rest, 0)));
        Some((nl, nl + 1 + ws))
    } else {
        None
    }
}

/// `J`: the range to replace by a space (the cursor then goes to its start).
pub fn join_lines_range(content: &str, cursor: usize) -> (r: Option<Range<usize>>)
    ensures
        match r {
            Some(g) => join_lines_spec(content@, cursor as int) == Some((g.start as int, g.end as int)),
            None => join_lines_spec(content@, cursor as int) is None,
        },
{
    let bytes = content.as_bytes();
    let pos = snap_to_char_boundary(content, cursor);
    proof {
        lemma_line_bounds(content@, pos as int);
        lemma_boundary_ends(content@);
    }
    let nl = line_end_of(bytes, pos);
    if nl >= bytes.len() {
        return None;
    }
    let rest = slice_text(content, nl + 1, bytes.len());
    let cs = chars_of(rest);
    let lead = skip_ws_exec(&cs, 0);
    let table = char_table(rest);
    let ws = table.starts[lead];
    proof {
        lemma_byte_len_take(rest@, lead as int, rest@.len() as int);
        assert(rest@.take(rest@.len() as int) =~= rest@);
    }
    Some(Range { start: nl, end: nl + 1 + ws })
}

/// `D` (and `C`): from the cursor to the end of its line, when that is not
/// empty.
pub open spec fn delete_to_end_spec(s: Seq<char>, cursor: int) -> Option<(int, int, Seq<char>)> {
    let b = utf8_bytes(s);
    let pos = snap_spec(b, cursor);
    let le = line_end(b, pos);
    if pos < le {
        Some(cut_spec(s, pos, le))
    } else {
        None
    }
}

/// `D`, `C`: the rest of the cursor's line.
pub fn delete_to_end_cut(content: &str, cursor: usize) -> (r: Option<Cut>)
    ensures
        opt_cut_view(r) == delete_to_end_spec(content@, cursor as int),
{
    let bytes = content.as_bytes();
    let pos = snap_to_char_boundary(content, cursor);
    proof {
        lemma_snap(content@, cursor as int);
        lemma_line_bounds(content@, pos as int);
    }
    let le = line_end_of(bytes, pos);
    if pos < le {
        let text = to_owned(slice_text(content, pos, le));
        Some(Cut { range: Range { start: pos, end: le }, text })
    } else {
        None
    }
}

/// `S`: the whole of the cursor's line, without its newline.
pub open spec fn change_line_spec(s: Seq<char>, cursor: int) -> (int, int, Seq<char>) {
    let b = utf8_bytes(s);
    let pos = snap_spec(b, cursor);
    cut_spec(s, line_start(b, pos), line_end(b, pos))
}

/// `S`: the cursor's line.
pub fn change_line_cut(content: &str, cursor: usize) -> (r: Cut)
    ensures
        cut_view(r) == change_line_spec(content@, cursor as int),
{
    let bytes = content.as_bytes();
    let pos = snap_to_char_boundary(content, cursor);
    proof {
        lemma_snap(content@, cursor as int);
        lemma_line_bounds(content@, pos as int);
    }
    let ls = line_start_of(bytes, pos);
    let le = line_end_of(bytes, pos);
    let text = to_owned(slice_text(content, ls, le));
    Cut { range: Range { start: ls, end: le }, text }
}

/// The case mapping that `~` puts in place of `c`.
pub open spec fn toggled_case(c: char) -> Seq<char> {
    if uppercase_char(c) {
        char_lowercase(c)
    } else {
        char_uppercase(c)
    }
}

/// `~`: the character under the cursor is replaced by its case mapping
/// (the cursor then moves past the replacement). The parts are the range
/// replaced and the replacement.
pub open spec fn toggle_case_spec(s: Seq<char>, cursor: int) -> Option<(int, int, Seq<char>)> {
    let b = utf8_bytes(s);
    if 0 <= cursor < b.len() {
        Some((cursor, next_boundary(b, cursor), toggled_case(crate::text::char_at_byte(s, cursor))))
    } else {
        None
    }
}

/// `~`: the replacement of the character under the cursor.
pub fn toggle_case_at(content: &str, cursor: usize) -> (r: Option<(Range<usize>, String)>)
    requires
        cursor < utf8_bytes(content@).len() ==> boundary(utf8_bytes(content@), cursor as int),
    ensures
        match r {
            Some((g, t)) => toggle_case_spec(content@, cursor as int) == Some(
                (g.start as int, g.end as int, t@),
            ),
            None => toggle_case_spec(content@, cursor as int) is None,
        },
{
    let bytes = content.as_bytes();
    if cursor >= bytes.len() {
        return None;
    }
    let ch = crate::text::char_at(content, cursor);
    let toggled = if char_is_uppercase(ch) {
        char_to_lowercase(ch)
    } else {
        char_to_uppercase(ch)
    };
    let end = next_char_boundary(bytes, cursor);
    Some((Range { start: cursor, end }, toggled))
}

/// How a paste goes: the cursor moves to `move_to` first (when given), the
/// text is inserted at the selection, then the cursor moves to
/// `then_move_to`.
#[derive(Debug, PartialEq, Eq)]
pub struct PastePlan {
    pub move_to: Option<usize>,
    pub then_move_to: usize,
}

/// What a paste plan holds.
pub open spec fn plan_view(p: PastePlan) -> (Option<int>, int) {
    (match p.move_to {
        Some(m) => Some(m as int),
        None => None,
    }, p.then_move_to as int)
}

/// The same for an optional plan.
pub open spec fn opt_plan_view(p: Option<PastePlan>) -> Option<(Option<int>, int)> {
    match p {
        Some(x) => Some(plan_view(x)),
        None => None,
    }
}

/// `p`: text ending in a newline goes in as whole lines below the cursor's
/// line, the cursor at its start; other text goes in after the character
/// under the cursor, the cursor on the last byte pasted (at most the new end
/// of the text). Nothing for an empty register.
pub open spec fn paste_after_spec(t: Seq<char>, cursor: int, text: Seq<char>) -> Option<(Option<int>, int)> {
    let b = utf8_bytes(t);
    if text.len() == 0 {
        None
    } else if text.last() == '\n' {
        let pos = snap_spec(b, cursor);
        let le = line_end(b, pos);
        let at = if le < b.len() {
            le + 1
        } else {
            b.len() as int
        };
        Some((Some(at), at))
    } else {
        let pos = next_grapheme_spec(t, cursor);
        let end = pos + byte_len(text);
        let back = if end >= 1 {
            end - 1
        } else {
            0
        };
        let new_len = (b.len() + byte_len(text)) as int;
        Some((Some(pos), if back < new_len { back } else { new_len }))
    }
}

/// `P`: text ending in a newline goes in as whole lines above the cursor's
/// line, the cursor at its start; other text goes in at the selection, the
/// cursor staying where it was. Nothing for an empty register.
pub open spec fn paste_before_spec(t: Seq<char>, cursor: int, text: Seq<char>) -> Option<(Option<int>, int)> {
    let b = utf8_bytes(t);
    if text.len() == 0 {
        None
    } else if text.last() == '\n' {
        let ls = line_start(b, snap_spec(b, cursor));
        Some((Some(ls), ls))
    } else {
        Some((None, cursor))
    }
}

/// `p`: how to paste `text` after the cursor.
pub fn paste_after_plan(buffer: &EditorBuffer, cursor: usize, text: &str) -> (r: Option<PastePlan>)
    requires
        byte_len(buffer.document.text()) + byte_len(text@) <= usize::MAX,
    ensures
        opt_plan_view(r) == paste_after_spec(buffer.document.text(), cursor as int, text@),
{
    let n = text.unicode_len();
    if n == 0 {
        return None;
    }
    let content = buffer.content();
    let bytes = content.as_str().as_bytes();
    if ends_with_newline(text) {
        let pos = snap_to_char_boundary(content.as_str(), cursor);
        let le = line_end_of(bytes, pos);
        let at = if le < bytes.len() {
            le + 1
        } else {
            bytes.len()
        };
        Some(PastePlan { move_to: Some(at), then_move_to: at })
    } else {
        let pos = buffer.next_grapheme(cursor);
        proof {
            let t = buffer.document.text();
            if (cursor as int) < byte_len(t) {
                lemma_next_grapheme(t, cursor as int);
            }
        }
        let tl = str_byte_len(text);
        let len = buffer.len_bytes();
        let end = pos + tl;
        let back = if end >= 1 {
            end - 1
        } else {
            0
        };
        let new_len = len + tl;
        Some(PastePlan { move_to: Some(pos), then_move_to: if back < new_len { back } else { new_len } })
    }
}

/// `P`: how to paste `text` before the cursor.
pub fn paste_before_plan(content: &str, cursor: usize, text: &str) -> (r: Option<PastePlan>)
    ensures
        opt_plan_view(r) == paste_before_spec(content@, cursor as int, text@),
{
    let n = text.unicode_len();
    if n == 0 {
        return None;
    }
    if ends_with_newline(text) {
        let pos = snap_to_char_boundary(content, cursor);
        let ls = line_start_of(content.as_bytes(), pos);
        Some(PastePlan { move_to: Some(ls), then_move_to: ls })
    } else {
        Some(PastePlan { move_to: None, then_move_to: cursor })
    }
}

// ─── Replacing characters ──────────────────────────────────────────────────

/// `n` characters on from byte `p`: each step moves to the next character
/// boundary, and stops moving at the end of the text.
pub open spec fn advance_chars(b: Seq<u8>, p: int, n: nat) -> int
    decreases n,
{
    if n == 0 {
        p
    } else {
        advance_chars(
            b,
            if p < b.len() {
                next_boundary(b, p)
            } else {
                p
            },
            (n - 1) as nat,
        )
    }
}

/// `r` with a count: the `count` characters from the cursor are replaced
/// by `count` copies of `ch`; nothing happens when no character follows
/// the cursor.
pub open spec fn replace_chars_spec(s: Seq<char>, cursor: int, ch: char, count: nat) -> Option<(int, int, Seq<char>)> {
    let end = advance_chars(utf8_bytes(s), cursor, count);
    if end > cursor {
        Some((cursor, end, Seq::new(count, |i: int| ch)))
    } else {
        None
    }
}

/// The replacement `r{ch}` with a count makes.
pub fn replace_chars_edit(content: &str, cursor: usize, ch: char, count: usize) -> (r: Option<(Range<usize>, String)>)
    ensures
        match r {
            Some((g, t)) => replace_chars_spec(content@, cursor as int, ch, count as nat) == Some(
                (g.start as int, g.end as int, t@),
            ),
            None => replace_chars_spec(content@, cursor as int, ch, count as nat) is None,
        },
{
    let bytes = content.as_bytes();
    let len = bytes.len();
    let mut end = cursor;
    let mut i: usize = 0;
    while i < count
        invariant
            i <= count,
            bytes@ == utf8_bytes(content@),
            len == bytes@.len(),
            cursor <= len ==> end <= len,
            advance_chars(bytes@, end as int, (count - i) as nat) == advance_chars(
                bytes@,
                cursor as int,
                count as nat,
            ),
        decreases count - i,
    {
        if end < len {
            end = next_char_boundary(bytes, end);
        }
        i = i + 1;
    }
    if end <= cursor {
        return None;
    }
    let mut text = String::new();
    let mut k: usize = 0;
    while k < count
        invariant
            k <= count,
            text@ == Seq::new(k as nat, |j: int| ch),
        decreases count - k,
    {
        push_char(&mut text, ch);
        k = k + 1;
        assert(text@ =~= Seq::new(k as nat, |j: int| ch));
    }
    Some((Range { start: cursor, end }, text))
}

/// `r{ch}` without a count: the character at the cursor replaced by `ch`.
pub open spec fn replace_char_spec(s: Seq<char>, cursor: int, ch: char) -> Option<(int, int, Seq<char>)> {
    let b = utf8_bytes(s);
    if 0 <= cursor < b.len() {
        Some((cursor, next_boundary(b, cursor), seq![ch]))
    } else {
        None
    }
}

/// The replacement of the character at the cursor (a character boundary)
/// by `ch`.
pub fn replace_char_at(content: &str, cursor: usize, ch: char) -> (r: Option<(Range<usize>, String)>)
    requires
        cursor < utf8_bytes(content@).len() ==> boundary(utf8_bytes(content@), cursor as int),
    ensures
        match r {
            Some((g, t)) => replace_char_spec(content@, cursor as int, ch) == Some(
                (g.start as int, g.end as int, t@),
            ),
            None => replace_char_spec(content@, cursor as int, ch) is None,
        },
{
    let bytes = content.as_bytes();
    if cursor >= bytes.len() {
        return None;
    }
    let end = next_char_boundary(bytes, cursor);
    let mut text = String::new();
    push_char(&mut text, ch);
    assert(text@ =~= seq![ch]);
    Some((Range { start: cursor, end }, text))
}

} // verus!
