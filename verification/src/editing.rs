//! What the editor's commands compute from the text, the cursor and the
//! display lines: where the cursor goes, how a selection grows, and which
//! edits line-wise commands make.
use std::ops::Range;

use vstd::prelude::*;

use crate::bytes::{
    cont_byte, lemma_scan_back, lemma_scan_fwd, line_end, line_end_of, line_start, line_start_of,
    scan_back, scan_backward, Class,
};
use crate::display_map::{
    fresh_view, hidden_at, line_at, next_visible, visible_before, visible_from, DisplayMap,
    DisplayView,
};
use crate::chars::char_table;
use crate::code_edit::fence::{copy_range, lemma_skip_ws, skip_ws, skip_ws_exec};
use crate::code_edit::CodeEdit;
use crate::document::{between, starts_char};
use crate::resource::starts_with;
use crate::text::chars_of;
use crate::undo::{
    caret, history_wf, inverse_seq, op_mergeable, ops_invertible, recorded, spec_redo, spec_undo, EditOp,
    HistoryView,
};
use crate::line_style::{
    lemma_lines_from_increasing, lemma_lines_from_offsets, lines_from, LineKind, StyleSpan,
};
use crate::buffer::{apply_op, apply_ops, next_grapheme_spec, op_applies, ops_apply, EditorBuffer};
use crate::document::{lemma_splice_inverse, splice};
use crate::history_text::{
    history_consistent, lemma_begin_group_keeps_consistent, lemma_break_coalescing_keeps_consistent,
    lemma_edit_keeps_consistent, lemma_end_group_keeps_consistent, lemma_redo_keeps_consistent,
    lemma_undo_keeps_consistent,
};
use crate::keymap::EditorMode;
use crate::lines::{
    diagram_link_target, diagram_target_spec, line_after, line_end_including_newline, line_start_at,
    line_start_clamped, move_line_spec, move_line_start, visual_line_range, visual_range_spec,
};
use crate::outline::{
    extract_headings, find_heading_at, first_at_line, first_level_at_most,
    headings_of, kind_levels, lemma_first_at_line_range, lemma_first_level_range,
    lemma_headings_of_increasing, next_sibling, next_sibling_spec, prev_sibling, prev_sibling_spec, section_end,
    section_end_line, HeadingInfo, heading_for_line, next_heading, prev_heading, OutlineState,
    line_hidden, has_children_spec, global_folds, fold_next, fold_next_leaf, state_of, FoldCycle,
};
use crate::text::{
    boundary, byte_len, char_is_uppercase, str_byte_len, to_owned, char_lowercase, char_to_lowercase, char_to_uppercase,
    char_uppercase, push_char, slice_text, text_between, uppercase_char, utf8_bytes,
};

verus! {

broadcast use vstd::string::group_string_axioms;

// ─── Char boundaries ───────────────────────────────────────────────────────

/// Byte `offset` moved back to the nearest character boundary at or before
/// it; offsets past the end become the end.
pub open spec fn snap_spec(b: Seq<u8>, offset: int) -> int {
    if offset >= b.len() {
        b.len() as int
    } else {
        scan_back(b, offset, Class::Cont)
    }
}

/// Snap a byte offset to the nearest character boundary, rounding down.
pub fn snap_to_char_boundary(content: &str, offset: usize) -> (r: usize)
    ensures
        r == snap_spec(utf8_bytes(content@), offset as int),
        r <= utf8_bytes(content@).len(),
{
    let bytes = content.as_bytes();
    if offset >= bytes.len() {
        return bytes.len();
    }
    proof {
        lemma_scan_back(bytes@, offset as int, Class::Cont);
    }
    scan_backward(bytes, offset, Class::Cont)
}

// ─── Selection ─────────────────────────────────────────────────────────────

/// The selected byte range and which end the cursor is at.
#[derive(Debug, PartialEq, Eq)]
pub struct Selection {
    pub range: Range<usize>,
    /// The cursor is at the start of the range rather than at its end.
    pub reversed: bool,
}

/// Where the cursor is in a selection.
pub open spec fn cursor_of(range: Range<usize>, reversed: bool) -> usize {
    if reversed {
        range.start
    } else {
        range.end
    }
}

/// The selection after moving its cursor end to `offset` (already
/// snapped): when the cursor passes the anchor the range flips.
pub open spec fn select_to_spec(range: Range<usize>, reversed: bool, offset: usize) -> (
    Range<usize>,
    bool,
) {
    let r = if reversed {
        Range { start: offset, end: range.end }
    } else {
        Range { start: range.start, end: offset }
    };
    if r.end < r.start {
        (Range { start: r.end, end: r.start }, !reversed)
    } else {
        (r, reversed)
    }
}

impl Selection {
    /// The byte offset of the cursor.
    pub fn cursor_offset(&self) -> (r: usize)
        ensures
            r == cursor_of(self.range, self.reversed),
    {
        if self.reversed {
            self.range.start
        } else {
            self.range.end
        }
    }

    /// The selection's ends in increasing order.
    pub fn ordered_selection(&self) -> (r: (usize, usize))
        ensures
            r.0 <= r.1,
            self.range.start <= self.range.end ==> r == (self.range.start, self.range.end),
            self.range.start > self.range.end ==> r == (self.range.end, self.range.start),
    {
        let s = self.range.start;
        let e = self.range.end;
        if s <= e {
            (s, e)
        } else {
            (e, s)
        }
    }

    /// Moves the cursor end of the selection to `offset` (snapped to a
    /// character boundary of `content`) and returns the new cursor.
    pub fn select_to(&mut self, content: &str, offset: usize) -> (cursor: usize)
        ensures
            (final(self).range, final(self).reversed) == select_to_spec(
                old(self).range,
                old(self).reversed,
                snap_spec(utf8_bytes(content@), offset as int) as usize,
            ),
            cursor == cursor_of(final(self).range, final(self).reversed),
    {
        let offset = snap_to_char_boundary(content, offset);
        if self.reversed {
            self.range.start = offset;
        } else {
            self.range.end = offset;
        }
        if self.range.end < self.range.start {
            self.reversed = !self.reversed;
            self.range = Range { start: self.range.end, end: self.range.start };
        }
        self.cursor_offset()
    }
}

// ─── Moving past folded lines ──────────────────────────────────────────────

/// Where the cursor lands when moved to `offset` (already snapped): on a
/// line hidden by folding it goes to the start of the nearest visible line
/// in the direction of travel, else in the other direction, else stays.
pub open spec fn unhide_spec(d: DisplayView, offset: int, prefer_forward: bool) -> int {
    let line = line_at(d.lines, offset, d.lines.len() as int);
    if !hidden_at(d.hidden, line) {
        offset
    } else {
        match next_visible(d.hidden, line, prefer_forward) {
            Some(v) => d.lines[v].2,
            None => match next_visible(d.hidden, line, !prefer_forward) {
                Some(v) => d.lines[v].2,
                None => offset,
            },
        }
    }
}

pub proof fn lemma_visible_from(h: Seq<bool>, i: int)
    requires
        0 <= i,
    ensures
        visible_from(h, i) matches Some(j) ==> i <= j < h.len() && !h[j],
    decreases h.len() - i,
{
    if i < h.len() && h[i] {
        lemma_visible_from(h, i + 1);
    }
}

pub proof fn lemma_visible_before(h: Seq<bool>, i: int)
    ensures
        visible_before(h, i) matches Some(j) ==> 0 <= j < i && j < h.len() && !h[j],
    decreases i,
{
    if 0 < i <= h.len() && h[i - 1] {
        lemma_visible_before(h, i - 1);
    }
}

/// The offset the cursor moves to for a target `offset` (snapped to a
/// character boundary of `content`), stepping off folded lines.
pub fn move_target(content: &str, display: &DisplayMap, offset: usize, prefer_forward: bool) -> (r:
    usize)
    ensures
        r == unhide_spec(display@, snap_spec(utf8_bytes(content@), offset as int), prefer_forward),
{
    let offset = snap_to_char_boundary(content, offset);
    if !display.is_offset_hidden(offset) {
        return offset;
    }
    let line = display.line_for_offset(offset);
    let n = display.line_count();
    proof {
        lemma_visible_from(display@.hidden, line + 1);
        lemma_visible_before(display@.hidden, line as int);
    }
    if let Some(vis) = display.next_visible_line(line, prefer_forward) {
        display.line_offset(vis)
    } else if let Some(vis) = display.next_visible_line(line, !prefer_forward) {
        display.line_offset(vis)
    } else {
        offset
    }
}

// ─── Line ranges and diagram embeds ────────────────────────────────────────

/// The text range of display line `i`: from its start to its newline, when
/// its start is a character boundary within the text.
pub open spec fn line_text_range_spec(b: Seq<u8>, d: DisplayView, i: int) -> Option<(int, int)> {
    let off = d.lines[i].2;
    if off > b.len() || !boundary(b, off) {
        None
    } else {
        Some((off, line_end(b, off)))
    }
}

/// Display line `i` shows a diagram: a diagram folder is set and the line
/// is a wikilink to a diagram.
pub open spec fn embed_spec(s: Seq<char>, d: DisplayView, i: int, has_diagram_dir: bool) -> bool {
    match line_text_range_spec(utf8_bytes(s), d, i) {
        Some((a, e)) => has_diagram_dir && diagram_target_spec(text_between(s, a, e)) is Some,
        None => false,
    }
}

/// The text range of display line `line_idx`, when its start is a
/// character boundary within the text.
pub fn line_text_range(display: &DisplayMap, line_idx: usize, content: &str) -> (r: Option<
    Range<usize>,
>)
    requires
        line_idx < display@.lines.len(),
    ensures
        match r {
            Some(rg) => line_text_range_spec(utf8_bytes(content@), display@, line_idx as int) == Some(
                (rg.start as int, rg.end as int),
            ),
            None => line_text_range_spec(utf8_bytes(content@), display@, line_idx as int) is None,
        },
{
    let bytes = content.as_bytes();
    let line_offset = display.line_offset(line_idx);
    if line_offset > bytes.len() {
        return None;
    }
    if line_offset < bytes.len() && 0x80 <= bytes[line_offset] && bytes[line_offset] <= 0xbf {
        return None;
    }
    let line_end = line_end_of(bytes, line_offset);
    Some(Range { start: line_offset, end: line_end })
}

/// Whether display line `line_idx` shows a diagram.
pub fn line_is_diagram_embed(
    display: &DisplayMap,
    line_idx: usize,
    content: &str,
    has_diagram_dir: bool,
) -> (r: bool)
    requires
        line_idx < display@.lines.len(),
    ensures
        r == embed_spec(content@, display@, line_idx as int, has_diagram_dir),
{
    match line_text_range(display, line_idx, content) {
        Some(range) => {
            let ghost b = utf8_bytes(content@);
            proof {
                lemma_scan_fwd(b, range.start as int, Class::NotNewline);
            }
            let line = slice_text(content, range.start, range.end);
            has_diagram_dir && diagram_link_target(line).is_some()
        },
        None => false,
    }
}

// ─── Moving up and down ────────────────────────────────────────────────────

/// From visible line `i`, the first line in the direction of travel that
/// does not show a diagram (diagram lines are stepped over).
pub open spec fn plain_line_from(
    s: Seq<char>,
    d: DisplayView,
    i: int,
    forward: bool,
    has_diagram_dir: bool,
) -> Option<int>
    decreases (if forward {
        d.hidden.len() - i
    } else {
        i
    }),
{
    if i < 0 || i >= d.lines.len() || i >= d.hidden.len() {
        None
    } else if !embed_spec(s, d, i, has_diagram_dir) {
        Some(i)
    } else {
        match next_visible(d.hidden, i, forward) {
            Some(j) => {
                proof {
                    lemma_visible_from(d.hidden, i + 1);
                    lemma_visible_before(d.hidden, i);
                }
                plain_line_from(s, d, j, forward, has_diagram_dir)
            },
            None => None,
        }
    }
}

/// The line the cursor moves to: the next visible line up or down that
/// does not show a diagram.
pub open spec fn target_line(s: Seq<char>, d: DisplayView, pos: int, forward: bool, has_diagram_dir: bool) -> Option<int> {
    let current = line_at(d.lines, pos, d.lines.len() as int);
    match next_visible(d.hidden, current, forward) {
        Some(j) => plain_line_from(s, d, j, forward, has_diagram_dir),
        None => None,
    }
}

/// Every display line starts within the text at a character boundary.
pub open spec fn offsets_valid(b: Seq<u8>, d: DisplayView) -> bool {
    forall|i: int|
        0 <= i < d.lines.len() ==> 0 <= #[trigger] d.lines[i].2 <= b.len() && boundary(b, d.lines[i].2)
}

/// Where the cursor goes on moving one line up or down: into the target
/// line at the same column, clamped to the line's length; `None` when
/// there is no line to go to.
pub open spec fn vertical_spec(s: Seq<char>, d: DisplayView, cursor: int, forward: bool, has_diagram_dir: bool) -> Option<int> {
    let b = utf8_bytes(s);
    let pos = snap_spec(b, cursor);
    let col = pos - line_start(b, pos);
    match target_line(s, d, pos, forward, has_diagram_dir) {
        Some(tl) => {
            let start = d.lines[tl].2;
            let len = line_end(b, start) - start;
            Some(start + if col < len { col } else { len })
        },
        None => None,
    }
}

/// The cursor target of moving one line up (`forward` false) or down.
pub fn vertical_target(
    content: &str,
    display: &DisplayMap,
    cursor: usize,
    forward: bool,
    has_diagram_dir: bool,
) -> (r: Option<usize>)
    requires
        offsets_valid(utf8_bytes(content@), display@),
    ensures
        match r {
            Some(p) => vertical_spec(content@, display@, cursor as int, forward, has_diagram_dir)
                == Some(p as int),
            None => vertical_spec(content@, display@, cursor as int, forward, has_diagram_dir) is None,
        },
{
    let bytes = content.as_bytes();
    let ghost b = bytes@;
    let pos = snap_to_char_boundary(content, cursor);
    let current_line = display.line_for_offset(pos);
    let line_start = line_start_of(bytes, pos);
    let col = pos - line_start;
    let n = display.line_count();
    proof {
        lemma_visible_from(display@.hidden, current_line + 1);
        lemma_visible_before(display@.hidden, current_line as int);
    }
    let mut target = display.next_visible_line(current_line, forward);
    let ghost first = target;
    proof {
        if let Some(j) = first {
            assert(j < n);
        }
    }
    loop
        invariant
            n == display@.lines.len(),
            n == display@.hidden.len(),
            target matches Some(t) ==> t < n,
            match first {
                Some(j) => match target {
                    Some(t) => plain_line_from(content@, display@, t as int, forward, has_diagram_dir)
                        == plain_line_from(content@, display@, j as int, forward, has_diagram_dir),
                    None => plain_line_from(content@, display@, j as int, forward, has_diagram_dir) is None,
                },
                None => target is None,
            },
            first == (match next_visible(display@.hidden, current_line as int, forward) {
                Some(j) => Some(j as usize),
                None => None::<usize>,
            }),
        ensures
            target matches Some(t) ==> plain_line_from(
                content@,
                display@,
                t as int,
                forward,
                has_diagram_dir,
            ) == Some(t as int),
        decreases (match target {
            Some(t) => if forward {
                n - t
            } else {
                t + 1
            },
            None => 0,
        }),
    {
        match target {
            Some(line) => {
                if !line_is_diagram_embed(display, line, content, has_diagram_dir) {
                    assert(plain_line_from(content@, display@, line as int, forward, has_diagram_dir)
                        == Some(line as int));
                    break;
                }
                proof {
                    lemma_visible_from(display@.hidden, line + 1);
                    lemma_visible_before(display@.hidden, line as int);
                }
                target = display.next_visible_line(line, forward);
            },
            None => {
                break;
            },
        }
    }
    match target {
        Some(tl) => {
            let tl_start = display.line_offset(tl);
            proof {
                assert(0 <= display@.lines[tl as int].2 <= b.len());
            }
            let tl_end = line_end_of(bytes, tl_start);
            let tl_len = tl_end - tl_start;
            Some(
                tl_start + if col < tl_len {
                    col
                } else {
                    tl_len
                },
            )
        },
        None => None,
    }
}

// ─── Selecting up and down, line ends ──────────────────────────────────────

/// `a` capped at `b`.
pub open spec fn min_int(a: int, b: int) -> int {
    if a < b {
        a
    } else {
        b
    }
}

/// Where extending the selection one line up puts its cursor end: the same
/// column of the previous line (clamped to its length), or the start of
/// the text from the first line.
pub open spec fn select_up_spec(b: Seq<u8>, offset: int) -> int {
    let pos = snap_spec(b, offset);
    let ls = line_start(b, pos);
    let col = pos - ls;
    if ls == 0 {
        0
    } else {
        let prev_end = ls - 1;
        let prev_start = line_start(b, prev_end);
        prev_start + min_int(col, prev_end - prev_start)
    }
}

/// Where extending the selection one line down puts its cursor end: the
/// same column of the next line (clamped to its length), or the end of the
/// text from the last line.
pub open spec fn select_down_spec(b: Seq<u8>, offset: int) -> int {
    let pos = snap_spec(b, offset);
    let col = pos - line_start(b, pos);
    let nl = line_end(b, pos);
    if nl < b.len() {
        let next_start = nl + 1;
        next_start + min_int(col, line_end(b, next_start) - next_start)
    } else {
        b.len() as int
    }
}

/// The cursor end of the selection after extending it one line up.
pub fn select_up_target(content: &str, offset: usize) -> (r: usize)
    ensures
        r == select_up_spec(utf8_bytes(content@), offset as int),
{
    let bytes = content.as_bytes();
    let pos = snap_to_char_boundary(content, offset);
    let line_start = line_start_of(bytes, pos);
    let col = pos - line_start;
    if line_start == 0 {
        0
    } else {
        let prev_end = line_start - 1;
        let prev_start = line_start_of(bytes, prev_end);
        let prev_len = prev_end - prev_start;
        prev_start + if col < prev_len {
            col
        } else {
            prev_len
        }
    }
}

/// The cursor end of the selection after extending it one line down.
pub fn select_down_target(content: &str, offset: usize) -> (r: usize)
    ensures
        r == select_down_spec(utf8_bytes(content@), offset as int),
{
    let bytes = content.as_bytes();
    let pos = snap_to_char_boundary(content, offset);
    let line_start = line_start_of(bytes, pos);
    let col = pos - line_start;
    let nl = line_end_of(bytes, pos);
    if nl < bytes.len() {
        let next_start = nl + 1;
        let next_end = line_end_of(bytes, next_start);
        let next_len = next_end - next_start;
        next_start + if col < next_len {
            col
        } else {
            next_len
        }
    } else {
        bytes.len()
    }
}

/// The start of the line holding the cursor (the cursor snapped first).
pub fn line_start_target(content: &str, cursor: usize) -> (r: usize)
    ensures
        r == line_start(utf8_bytes(content@), snap_spec(utf8_bytes(content@), cursor as int)),
{
    let pos = snap_to_char_boundary(content, cursor);
    line_start_of(content.as_bytes(), pos)
}

/// The end of the line holding the cursor, before its newline.
pub fn line_end_target(content: &str, cursor: usize) -> (r: usize)
    ensures
        r == line_end(utf8_bytes(content@), snap_spec(utf8_bytes(content@), cursor as int)),
{
    let pos = snap_to_char_boundary(content, cursor);
    line_end_of(content.as_bytes(), pos)
}

// ─── Line-wise edits of a selection ────────────────────────────────────────

/// Where four spaces go, one line after another, when indenting the lines
/// from the one starting at `pos` up to the one starting at `limit`; each
/// earlier insertion shifts the later ones by four bytes.
pub open spec fn indent_points(b: Seq<u8>, pos: int, limit: int, k: int) -> Seq<int>
    decreases b.len() + 1 - pos,
{
    if pos < 0 || pos > limit || pos > b.len() {
        Seq::empty()
    } else {
        let e = line_end(b, pos);
        seq![pos + 4 * k] + if e < b.len() {
            proof {
                lemma_scan_fwd(b, pos, Class::NotNewline);
            }
            indent_points(b, e + 1, limit, k + 1)
        } else {
            Seq::empty()
        }
    }
}

/// The insertion points of indenting the lines of the selection
/// `start..end`: none for an empty selection.
pub open spec fn indent_spec(b: Seq<u8>, start: int, end: int) -> Seq<int> {
    if start < end {
        indent_points(b, line_start(b, start), line_start(b, end), 0)
    } else {
        Seq::empty()
    }
}

/// Where to insert four spaces, in order, to indent every line of the
/// selection `start..end` (each offset already shifted by the insertions
/// before it).
pub fn indent_selection_points(content: &str, start: usize, end: usize) -> (r: Vec<usize>)
    requires
        start <= end <= utf8_bytes(content@).len(),
        utf8_bytes(content@).len() <= usize::MAX / 5,
    ensures
        r@.map_values(|p: usize| p as int) == indent_spec(utf8_bytes(content@), start as int, end as int),
{
    let bytes = content.as_bytes();
    let ghost b = bytes@;
    let mut points: Vec<usize> = Vec::new();
    if start >= end {
        assert(points@.map_values(|p: usize| p as int) =~= Seq::<int>::empty());
        return points;
    }
    let line_start = line_start_of(bytes, start);
    let line_end = line_start_of(bytes, end);
    let mut pos = line_start;
    let mut k: usize = 0;
    let mut done = false;
    while !done && pos <= line_end
        invariant
            b == utf8_bytes(content@),
            bytes@ == b,
            b.len() <= usize::MAX / 5,
            k <= pos <= b.len(),
            line_end <= end <= b.len(),
            !done ==> points@.map_values(|p: usize| p as int) + indent_points(b, pos as int, line_end as int, k as int)
                == indent_points(b, line_start as int, line_end as int, 0),
            done ==> points@.map_values(|p: usize| p as int) == indent_points(b, line_start as int, line_end as int, 0),
        decreases b.len() + 1 - pos + if done { 0int } else { 1int },
    {
        let ghost before = points@;
        points.push(pos + 4 * k);
        proof {
            lemma_scan_fwd(b, pos as int, Class::NotNewline);
            assert(points@.map_values(|p: usize| p as int) =~= before.map_values(|p: usize| p as int).push(pos + 4 * k));
        }
        let e = line_end_of(bytes, pos);
        if e < bytes.len() {
            pos = e + 1;
            k = k + 1;
        } else {
            done = true;
        }
    }
    proof {
        if !done {
            assert(indent_points(b, pos as int, line_end as int, k as int) =~= Seq::<int>::empty());
            assert(points@.map_values(|p: usize| p as int) =~= points@.map_values(|p: usize| p as int) + Seq::<int>::empty());
        }
    }
    points
}

/// How many spaces (at most four) start the text at `pos`.
pub open spec fn lead_spaces(b: Seq<u8>, pos: int) -> int {
    min_int(4, scan_fwd_spaces(b, pos) - pos)
}

/// The first position at or after `pos` that is not a space.
pub open spec fn scan_fwd_spaces(b: Seq<u8>, pos: int) -> int {
    crate::bytes::scan_fwd(b, pos, Class::SpaceChar)
}

/// The deletions, in order, that dedent the lines from the one starting at
/// `pos` on, while the line start is within the selection's end moved back
/// by what was deleted so far (`removed` bytes); each deletion removes up to
/// four leading spaces, at its place in the text as already edited.
pub open spec fn dedent_ranges(b: Seq<u8>, pos: int, end: int, removed: int) -> Seq<(int, int)>
    decreases b.len() + 1 - pos,
{
    let limit = if end - removed < 0 {
        0
    } else {
        end - removed
    };
    if pos < 0 || pos > limit || pos > b.len() {
        Seq::empty()
    } else {
        let actual = pos - removed;
        let sp = lead_spaces(b, pos);
        let here = if sp > 0 {
            seq![(actual, actual + sp)]
        } else {
            Seq::empty()
        };
        let e = line_end(b, pos);
        here + if e < b.len() {
            proof {
                lemma_scan_fwd(b, pos, Class::NotNewline);
            }
            dedent_ranges(b, e + 1, end, removed + sp)
        } else {
            Seq::empty()
        }
    }
}

/// The deletions that dedent the selection `start..end`: none for an empty
/// selection.
pub open spec fn dedent_spec(b: Seq<u8>, start: int, end: int) -> Seq<(int, int)> {
    if start < end {
        dedent_ranges(b, line_start(b, start), end, 0)
    } else {
        Seq::empty()
    }
}

/// The byte ranges to delete, in order, to remove up to four leading
/// spaces from every line of the selection `start..end` (each range taken
/// in the text as already edited by the deletions before it).
pub fn dedent_selection_ranges(content: &str, start: usize, end: usize) -> (r: Vec<Range<usize>>)
    requires
        start <= end <= utf8_bytes(content@).len(),
    ensures
        r@.map_values(|g: Range<usize>| (g.start as int, g.end as int)) == dedent_spec(
            utf8_bytes(content@),
            start as int,
            end as int,
        ),
{
    let bytes = content.as_bytes();
    let ghost b = bytes@;
    let mut out: Vec<Range<usize>> = Vec::new();
    if start >= end {
        assert(out@.map_values(|g: Range<usize>| (g.start as int, g.end as int)) =~= Seq::<(int, int)>::empty());
        return out;
    }
    let first = line_start_of(bytes, start);
    let mut pos = first;
    let mut removed: usize = 0;
    let mut done = false;
    while !done && pos <= end.saturating_sub(removed)
        invariant
            b == utf8_bytes(content@),
            bytes@ == b,
            removed <= pos <= b.len(),
            end <= b.len(),
            !done ==> out@.map_values(|g: Range<usize>| (g.start as int, g.end as int)) + dedent_ranges(
                b,
                pos as int,
                end as int,
                removed as int,
            ) == dedent_ranges(b, first as int, end as int, 0),
            done ==> out@.map_values(|g: Range<usize>| (g.start as int, g.end as int))
                == dedent_ranges(b, first as int, end as int, 0),
        decreases b.len() + 1 - pos + if done { 0int } else { 1int },
    {
        let actual = pos - removed;
        let stop = crate::bytes::scan_forward(bytes, pos, Class::SpaceChar);
        proof {
            lemma_scan_fwd(b, pos as int, Class::SpaceChar);
            lemma_scan_fwd(b, pos as int, Class::NotNewline);
        }
        let spaces = if stop - pos < 4 {
            stop - pos
        } else {
            4
        };
        let ghost before = out@;
        let e = line_end_of(bytes, pos);
        proof {
            // Leading spaces stop at the newline that ends the line.
            if stop > e {
                assert(crate::bytes::in_class(Class::SpaceChar, b[e as int]));
            }
        }
        if spaces > 0 {
            out.push(Range { start: actual, end: actual + spaces });
            proof {
                assert(out@.map_values(|g: Range<usize>| (g.start as int, g.end as int)) =~= before.map_values(
                    |g: Range<usize>| (g.start as int, g.end as int),
                ).push((actual as int, actual + spaces)));
            }
        }
        if e < bytes.len() {
            pos = e + 1;
            removed = removed + spaces;
        } else {
            done = true;
        }
    }
    proof {
        if !done {
            assert(out@.map_values(|g: Range<usize>| (g.start as int, g.end as int)) =~= out@.map_values(
                |g: Range<usize>| (g.start as int, g.end as int),
            ) + Seq::<(int, int)>::empty());
        }
    }
    out
}

// ─── Text transforms of a selection ────────────────────────────────────────

/// `s` with every newline turned into a space.
pub open spec fn joined(s: Seq<char>) -> Seq<char> {
    s.map_values(|c: char| if c == '\n' { ' ' } else { c })
}

/// The selected text joined onto one line: newlines become spaces.
pub fn join_text(text: &str) -> (r: String)
    ensures
        r@ == joined(text@),
{
    let n = text.unicode_len();
    let mut r = String::new();
    let mut i: usize = 0;
    while i < n
        invariant
            n == text@.len(),
            i <= n,
            r@ == joined(text@.take(i as int)),
        decreases n - i,
    {
        let c = text.get_char(i);
        push_char(&mut r, if c == '\n' { ' ' } else { c });
        i = i + 1;
        assert(r@ =~= joined(text@.take(i as int)));
    }
    assert(text@.take(n as int) =~= text@);
    r
}

/// The first character of a case mapping, or `c` when it is empty.
pub open spec fn first_or(m: Seq<char>, c: char) -> char {
    if m.len() > 0 {
        m[0]
    } else {
        c
    }
}

/// `c` with its case toggled: upper case goes to the first character of
/// its lower-case mapping, anything else to the first of its upper-case
/// mapping.
pub open spec fn toggled_char(c: char) -> char {
    if uppercase_char(c) {
        first_or(char_lowercase(c), c)
    } else {
        first_or(char_uppercase(c), c)
    }
}

/// The selected text with the case of every character toggled.
pub fn toggle_case_text(text: &str) -> (r: String)
    ensures
        r@ == text@.map_values(|c: char| toggled_char(c)),
{
    let n = text.unicode_len();
    let mut r = String::new();
    let mut i: usize = 0;
    while i < n
        invariant
            n == text@.len(),
            i <= n,
            r@ == text@.take(i as int).map_values(|c: char| toggled_char(c)),
        decreases n - i,
    {
        let c = text.get_char(i);
        let mapped = if char_is_uppercase(c) {
            char_to_lowercase(c)
        } else {
            char_to_uppercase(c)
        };
        let t = if mapped.as_str().unicode_len() > 0 {
            mapped.as_str().get_char(0)
        } else {
            c
        };
        push_char(&mut r, t);
        i = i + 1;
        assert(r@ =~= text@.take(i as int).map_values(|c: char| toggled_char(c)));
    }
    assert(text@.take(n as int) =~= text@);
    r
}

// ─── Outline edits ─────────────────────────────────────────────────────────

/// The display lines of a text, freshly analysed.
pub open spec fn doc_lines(s: Seq<char>) -> Seq<(LineKind, Seq<StyleSpan>, int)> {
    lines_from(s, 0, false)
}

/// The headings of a text, in line order.
pub open spec fn doc_headings(s: Seq<char>) -> Seq<HeadingInfo> {
    headings_of(kind_levels(doc_lines(s).map_values(|e: (LineKind, Seq<StyleSpan>, int)| e.0)))
}

/// The display line holding byte `off` of a text.
pub open spec fn doc_line_of(s: Seq<char>, off: int) -> int {
    line_at(doc_lines(s), off, doc_lines(s).len() as int)
}

/// Where display line `i` of a text starts.
pub open spec fn doc_line_start(s: Seq<char>, i: int) -> int {
    doc_lines(s)[i].2
}

/// Some byte of `b` from `i` to `j` is a space.
pub open spec fn has_space(b: Seq<u8>, i: int, j: int) -> bool {
    exists|q: int| i <= q < j && b[q] == 32
}

/// An edit of an outline command: replace `range` by `text`, then move the
/// cursor to `move_to` when there is one.
#[derive(Debug, PartialEq, Eq)]
pub struct OutlineEdit {
    pub range: Range<usize>,
    pub text: String,
    pub move_to: Option<usize>,
}

/// What an outline edit holds.
pub open spec fn outline_edit_view(e: OutlineEdit) -> (int, int, Seq<char>, Option<int>) {
    (e.range.start as int, e.range.end as int, e.text@, match e.move_to {
        Some(m) => Some(m as int),
        None => None,
    })
}

/// The same for an optional edit.
pub open spec fn opt_outline_edit_view(e: Option<OutlineEdit>) -> Option<(int, int, Seq<char>, Option<int>)> {
    match e {
        Some(x) => Some(outline_edit_view(x)),
        None => None,
    }
}

/// Facts about the freshly analysed lines and headings of a text.
proof fn lemma_doc_facts(s: Seq<char>)
    requires
        doc_lines(s).len() <= usize::MAX,
    ensures
        doc_lines(s).len() >= 1,
        offsets_valid(utf8_bytes(s), fresh_view(s)),
        forall|i: int, j: int|
            0 <= i < j < doc_lines(s).len() ==> #[trigger] doc_lines(s)[i].2 < #[trigger] doc_lines(
                s,
            )[j].2,
        forall|i: int, j: int|
            0 <= i < j < doc_headings(s).len() ==> #[trigger] doc_headings(s)[i].line_idx
                < #[trigger] doc_headings(s)[j].line_idx,
        forall|i: int|
            0 <= i < doc_headings(s).len() ==> #[trigger] doc_headings(s)[i].line_idx < doc_lines(
                s,
            ).len(),
{
    lemma_lines_from_offsets(s, 0, false);
    lemma_lines_from_increasing(s, 0, false);
    crate::chars::lemma_line_tail(s, 0);
    let kinds = doc_lines(s).map_values(|e: (LineKind, Seq<StyleSpan>, int)| e.0);
    lemma_headings_of_increasing(kind_levels(kinds));
    assert(fresh_view(s).lines == doc_lines(s));
}

/// The display map and headings of a text, freshly analysed.
fn doc_outline(content: &str) -> (r: (DisplayMap, Vec<HeadingInfo>))
    ensures
        r.0@ == fresh_view(content@),
        r.0@.lines == doc_lines(content@),
        r.1@ == doc_headings(content@),
{
    let mut display = DisplayMap::new();
    display.update(content);
    let kinds = display.line_kinds();
    let headings = extract_headings(&kinds);
    (display, headings)
}

/// Whether some byte from `i` to `j` is a space.
fn bytes_have_space(bytes: &[u8], i: usize, j: usize) -> (r: bool)
    requires
        j <= bytes@.len(),
    ensures
        r == has_space(bytes@, i as int, j as int),
{
    let mut q = i;
    while q < j
        invariant
            i <= q,
            j <= bytes@.len(),
            forall|p: int| i <= p < q ==> bytes@[p] != 32,
        decreases j - q,
    {
        if bytes[q] == 32 {
            return true;
        }
        q = q + 1;
    }
    false
}

/// Promoting the heading under the cursor (`## x` to `# x`) deletes the
/// first `#` of its line: for a heading of level two or more whose line
/// holds a space.
pub open spec fn promote_spec(s: Seq<char>, cursor: int) -> Option<int> {
    let h = doc_headings(s);
    let cl = doc_line_of(s, cursor);
    let k = first_at_line(h, cl, 0);
    if k < h.len() && h[k].level > 1 {
        let b = utf8_bytes(s);
        let ls = doc_line_start(s, cl);
        if has_space(b, ls, line_end(b, ls)) {
            Some(ls)
        } else {
            None
        }
    } else {
        None
    }
}

/// Demoting the heading under the cursor (`# x` to `## x`) inserts a `#`
/// at the start of its line: for a heading of level five or less.
pub open spec fn demote_spec(s: Seq<char>, cursor: int) -> Option<int> {
    let h = doc_headings(s);
    let cl = doc_line_of(s, cursor);
    let k = first_at_line(h, cl, 0);
    if k < h.len() && h[k].level < 6 {
        Some(doc_line_start(s, cl))
    } else {
        None
    }
}

/// The edit that promotes the heading under the cursor.
pub fn outline_promote_edit(content: &str, cursor: usize) -> (r: Option<OutlineEdit>)
    ensures
        opt_outline_edit_view(r) == match promote_spec(content@, cursor as int) {
            Some(ls) => Some((ls, ls + 1, Seq::<char>::empty(), None::<int>)),
            None => None,
        },
{
    let (display, headings) = doc_outline(content);
    let bytes = content.as_bytes();
    let cursor_line = display.line_for_offset(cursor);
    let k = find_heading_at(&headings, cursor_line);
    let line_count = display.line_count();
    proof {
        lemma_doc_facts(content@);
    }
    if k < headings.len() && headings[k].level > 1 {
        let line_start = display.line_offset(cursor_line);
        let line_end = line_end_of(bytes, line_start);
        if bytes_have_space(bytes, line_start, line_end) {
            let text = String::new();
            proof {
                lemma_scan_fwd(bytes@, line_start as int, Class::NotNewline);
            }
            return Some(OutlineEdit { range: Range { start: line_start, end: line_start + 1 }, text, move_to: None });
        }
    }
    None
}

/// The edit that demotes the heading under the cursor.
pub fn outline_demote_edit(content: &str, cursor: usize) -> (r: Option<OutlineEdit>)
    ensures
        opt_outline_edit_view(r) == match demote_spec(content@, cursor as int) {
            Some(ls) => Some((ls, ls, seq!['#'], None::<int>)),
            None => None,
        },
{
    let (display, headings) = doc_outline(content);
    let cursor_line = display.line_for_offset(cursor);
    let k = find_heading_at(&headings, cursor_line);
    let line_count = display.line_count();
    proof {
        lemma_doc_facts(content@);
    }
    if k < headings.len() && headings[k].level < 6 {
        let line_start = display.line_offset(cursor_line);
        let text = to_owned("#");
        proof {
            reveal_strlit("#");
        }
        return Some(OutlineEdit { range: Range { start: line_start, end: line_start }, text, move_to: None });
    }
    None
}

/// Moving the heading under the cursor up swaps its section (the heading
/// and the lines up to the next heading of the same or a higher level)
/// with the text from the previous heading of the same level; the cursor
/// then goes to where that previous heading started.
pub open spec fn move_up_spec(s: Seq<char>, cursor: int) -> Option<(int, int, Seq<char>, Option<int>)> {
    let b = utf8_bytes(s);
    let lines = doc_lines(s);
    let n = lines.len();
    let h = doc_headings(s);
    let cl = doc_line_of(s, cursor);
    let hi = first_at_line(h, cl, 0);
    if hi >= h.len() {
        None
    } else {
        match prev_sibling_spec(h, cl as usize) {
            None => None,
            Some(p) => {
            let se = section_end(h, hi, n as usize);
            let my_start = lines[cl].2;
            let my_end = if se < n {
                lines[se].2
            } else {
                b.len() as int
            };
            let prev_start = lines[h[p].line_idx as int].2;
            Some(
                (
                    prev_start,
                    my_end,
                    text_between(s, my_start, my_end) + text_between(s, prev_start, my_start),
                    Some(prev_start),
                ),
            )
            },
        }
    }
}

/// Moving the heading under the cursor down swaps the text from it up to
/// the next heading of the same level with that heading's section; the
/// cursor follows the moved heading.
pub open spec fn move_down_spec(s: Seq<char>, cursor: int) -> Option<(int, int, Seq<char>, Option<int>)> {
    let b = utf8_bytes(s);
    let lines = doc_lines(s);
    let n = lines.len();
    let h = doc_headings(s);
    let cl = doc_line_of(s, cursor);
    let hi = first_at_line(h, cl, 0);
    if hi >= h.len() {
        None
    } else {
        match next_sibling_spec(h, cl as usize) {
            None => None,
            Some(q) => {
            let next_line = h[q].line_idx as int;
            let next_idx = first_at_line(h, next_line, 0);
            let nse = section_end(h, next_idx, n as usize);
            let my_start = lines[cl].2;
            let next_start = lines[next_line].2;
            let next_end = if nse < n {
                lines[nse].2
            } else {
                b.len() as int
            };
            Some(
                (
                    my_start,
                    next_end,
                    text_between(s, next_start, next_end) + text_between(s, my_start, next_start),
                    Some(my_start + (next_end - next_start)),
                ),
            )
            },
        }
    }
}

/// The two texts joined.
fn concat(a: &str, b: &str) -> (r: String)
    ensures
        r@ == a@ + b@,
{
    let mut r = to_owned(a);
    r.append(b);
    r
}

/// The edit that moves the heading under the cursor, with its section,
/// above the previous heading of the same level.
pub fn outline_move_up_edit(content: &str, cursor: usize) -> (r: Option<OutlineEdit>)
    ensures
        opt_outline_edit_view(r) == move_up_spec(content@, cursor as int),
{
    let (display, headings) = doc_outline(content);
    let bytes = content.as_bytes();
    let cursor_line = display.line_for_offset(cursor);
    let line_count = display.line_count();
    proof {
        lemma_doc_facts(content@);
    }
    let hi_idx = find_heading_at(&headings, cursor_line);
    if hi_idx >= headings.len() {
        return None;
    }
    let ghost h = headings@;
    let ghost lvl = h[hi_idx as int].level;
    match prev_sibling(cursor_line, &headings) {
        Some(prev) => {
            proof {
                crate::outline::lemma_sibling_before_range(h, lvl, hi_idx - 1);
                let k = prev_sibling_spec(h, cursor_line)->0;
                assert(h[k].line_idx < h[hi_idx as int].line_idx);
                assert(h[hi_idx as int].line_idx == cursor_line) by {
                    lemma_first_at_line_range(h, cursor_line as int, 0);
                }
            }
            let section_end = section_end_line(hi_idx, &headings, line_count);
            proof {
                lemma_first_level_range(h, lvl, hi_idx + 1);
            }
            let my_start = display.line_offset(cursor_line);
            let my_end = if section_end < line_count {
                display.line_offset(section_end)
            } else {
                bytes.len()
            };
            let prev_start = display.line_offset(prev.line_idx);
            let my_text = slice_text(content, my_start, my_end);
            let prev_text = slice_text(content, prev_start, my_start);
            let swapped = concat(my_text, prev_text);
            Some(OutlineEdit { range: Range { start: prev_start, end: my_end }, text: swapped, move_to: Some(prev_start) })
        },
        None => None,
    }
}

/// The edit that moves the heading under the cursor, with its section,
/// below the next heading of the same level and its section.
pub fn outline_move_down_edit(content: &str, cursor: usize) -> (r: Option<OutlineEdit>)
    ensures
        opt_outline_edit_view(r) == move_down_spec(content@, cursor as int),
{
    let (display, headings) = doc_outline(content);
    let bytes = content.as_bytes();
    let cursor_line = display.line_for_offset(cursor);
    let line_count = display.line_count();
    proof {
        lemma_doc_facts(content@);
    }
    let hi_idx = find_heading_at(&headings, cursor_line);
    if hi_idx >= headings.len() {
        return None;
    }
    let ghost h = headings@;
    let ghost lvl = h[hi_idx as int].level;
    match next_sibling(cursor_line, &headings) {
        Some(next) => {
            let ghost k = next_sibling_spec(h, cursor_line)->0;
            proof {
                crate::outline::lemma_sibling_after_range(h, lvl, hi_idx + 1);
                assert(h[hi_idx as int].line_idx < h[k].line_idx);
                assert(h[hi_idx as int].line_idx == cursor_line) by {
                    lemma_first_at_line_range(h, cursor_line as int, 0);
                }
            }
            let next_idx = find_heading_at(&headings, next.line_idx);
            proof {
                lemma_first_at_line_range(h, next.line_idx as int, 0);
                if next_idx >= h.len() {
                    // `first_at_line` finds `k` or an earlier heading on that line.
                    lemma_first_at_line_stops(h, next.line_idx as int, 0, k);
                }
            }
            let next_section_end = section_end_line(next_idx, &headings, line_count);
            proof {
                lemma_first_level_range(h, h[next_idx as int].level, next_idx + 1);
            }
            let my_start = display.line_offset(cursor_line);
            let next_start = display.line_offset(next.line_idx);
            let next_end = if next_section_end < line_count {
                display.line_offset(next_section_end)
            } else {
                bytes.len()
            };
            let my_text = slice_text(content, my_start, next_start);
            let next_text = slice_text(content, next_start, next_end);
            let swapped = concat(next_text, my_text);
            let new_cursor = my_start + (next_end - next_start);
            Some(OutlineEdit { range: Range { start: my_start, end: next_end }, text: swapped, move_to: Some(new_cursor) })
        },
        None => None,
    }
}

/// The first-match search on a line reaches no further than a heading on
/// that line.
proof fn lemma_first_at_line_stops(h: Seq<HeadingInfo>, line: int, i: int, k: int)
    requires
        0 <= i <= k < h.len(),
        h[k].line_idx == line,
    ensures
        first_at_line(h, line, i) <= k,
    decreases k - i,
{
    if i < k && h[i].line_idx != line {
        lemma_first_at_line_stops(h, line, i + 1, k);
    }
}

// ─── Outline navigation and folding ────────────────────────────────────────

/// Index of the first heading from `i` on whose line comes after `line`,
/// or the number of headings.
pub open spec fn first_after(h: Seq<HeadingInfo>, line: int, i: int) -> int
    decreases h.len() - i,
{
    if i < 0 || i >= h.len() {
        h.len() as int
    } else if h[i].line_idx > line {
        i
    } else {
        first_after(h, line, i + 1)
    }
}

/// Index of the last of the first `n` headings whose line satisfies
/// `before` relative to `line` (strictly before when `strict`, at or
/// before otherwise), or -1.
pub open spec fn last_before(h: Seq<HeadingInfo>, line: int, strict: bool, n: int) -> int
    decreases n,
{
    if n <= 0 {
        -1
    } else if (if strict {
        h[n - 1].line_idx < line
    } else {
        h[n - 1].line_idx <= line
    }) {
        n - 1
    } else {
        last_before(h, line, strict, n - 1)
    }
}

proof fn lemma_first_after(h: Seq<HeadingInfo>, line: int, i: int, k: int)
    requires
        0 <= i <= k <= h.len(),
        k < h.len() ==> h[k].line_idx > line,
        forall|j: int| 0 <= j < k ==> #[trigger] h[j].line_idx <= line,
    ensures
        first_after(h, line, i) == k,
    decreases k - i,
{
    if i < k {
        lemma_first_after(h, line, i + 1, k);
    }
}

proof fn lemma_last_before(h: Seq<HeadingInfo>, line: int, strict: bool, n: int, k: int)
    requires
        -1 <= k < n <= h.len(),
        k >= 0 ==> (if strict {
            h[k].line_idx < line
        } else {
            h[k].line_idx <= line
        }),
        forall|j: int|
            k < j < h.len() ==> (if strict {
                #[trigger] h[j].line_idx >= line
            } else {
                h[j].line_idx > line
            }),
    ensures
        last_before(h, line, strict, n) == k,
    decreases n,
{
    if n - 1 > k {
        lemma_last_before(h, line, strict, n - 1, k);
    }
}

/// Where the cursor goes on jumping to the next heading: the start of the
/// first heading line after the cursor's line.
pub open spec fn next_heading_spec(s: Seq<char>, cursor: int) -> Option<int> {
    let h = doc_headings(s);
    let k = first_after(h, doc_line_of(s, cursor), 0);
    if k < h.len() {
        Some(doc_line_start(s, h[k].line_idx as int))
    } else {
        None
    }
}

/// Where the cursor goes on jumping to the previous heading: the start of
/// the last heading line before the cursor's line.
pub open spec fn prev_heading_spec(s: Seq<char>, cursor: int) -> Option<int> {
    let h = doc_headings(s);
    let k = last_before(h, doc_line_of(s, cursor), true, h.len() as int);
    if k >= 0 {
        Some(doc_line_start(s, h[k].line_idx as int))
    } else {
        None
    }
}

/// The start of the next heading line after the cursor's line.
pub fn outline_next_heading_target(content: &str, cursor: usize) -> (r: Option<usize>)
    ensures
        match r {
            Some(p) => next_heading_spec(content@, cursor as int) == Some(p as int),
            None => next_heading_spec(content@, cursor as int) is None,
        },
{
    let (display, headings) = doc_outline(content);
    let cursor_line = display.line_for_offset(cursor);
    let line_count = display.line_count();
    proof {
        lemma_doc_facts(content@);
    }
    let ghost h = headings@;
    match next_heading(cursor_line, &headings) {
        Some(hi) => {
            proof {
                let k = choose|k: int|
                    0 <= k < h.len() && h[k] == *hi && hi.line_idx > cursor_line && forall|j: int|
                        0 <= j < k ==> #[trigger] h[j].line_idx <= cursor_line;
                lemma_first_after(h, cursor_line as int, 0, k);
            }
            Some(display.line_offset(hi.line_idx))
        },
        None => {
            proof {
                lemma_first_after(h, cursor_line as int, 0, h.len() as int);
            }
            None
        },
    }
}

/// The start of the previous heading line before the cursor's line.
pub fn outline_prev_heading_target(content: &str, cursor: usize) -> (r: Option<usize>)
    ensures
        match r {
            Some(p) => prev_heading_spec(content@, cursor as int) == Some(p as int),
            None => prev_heading_spec(content@, cursor as int) is None,
        },
{
    let (display, headings) = doc_outline(content);
    let cursor_line = display.line_for_offset(cursor);
    let line_count = display.line_count();
    proof {
        lemma_doc_facts(content@);
    }
    let ghost h = headings@;
    match prev_heading(cursor_line, &headings) {
        Some(hi) => {
            proof {
                let k = choose|k: int|
                    0 <= k < h.len() && h[k] == *hi && hi.line_idx < cursor_line && forall|j: int|
                        k < j < h.len() ==> #[trigger] h[j].line_idx >= cursor_line;
                lemma_last_before(h, cursor_line as int, true, h.len() as int, k);
            }
            Some(display.line_offset(hi.line_idx))
        },
        None => {
            proof {
                lemma_last_before(h, cursor_line as int, true, h.len() as int, -1);
            }
            None
        },
    }
}

/// Cycles the fold of the heading that holds the cursor's line (the last
/// heading at or before it). Returns false, changing nothing, when no
/// heading holds the line.
#[verifier::spinoff_prover]
#[verifier::rlimit(40)]
pub fn outline_cycle_fold(outline: &mut OutlineState, content: &str, cursor: usize) -> (r: bool)
    ensures
        final(outline).global_cycle == old(outline).global_cycle,
        ({
            let h = doc_headings(content@);
            let n = doc_lines(content@).len();
            let k = last_before(h, doc_line_of(content@, cursor as int), false, h.len() as int);
            if k >= 0 {
                let line = h[k].line_idx;
                let idx = first_at_line(h, line as int, 0);
                let cur = state_of(old(outline).fold_states@, line);
                let next = if has_children_spec(h, idx, n as usize) {
                    fold_next(cur)
                } else {
                    fold_next_leaf(cur)
                };
                &&& r
                &&& final(outline).fold_states@ == old(outline).fold_states@.insert(line, next)
            } else {
                &&& !r
                &&& final(outline).fold_states@ == old(outline).fold_states@
            }
        }),
{
    let (display, headings) = doc_outline(content);
    let cursor_line = display.line_for_offset(cursor);
    let line_count = display.line_count();
    proof {
        lemma_doc_facts(content@);
    }
    let ghost h = headings@;
    match heading_for_line(cursor_line, &headings) {
        Some(hi) => {
            let ghost k = choose|k: int|
                0 <= k < h.len() && h[k] == *hi && hi.line_idx <= cursor_line && forall|j: int|
                    k < j < h.len() ==> #[trigger] h[j].line_idx > cursor_line;
            proof {
                lemma_last_before(h, cursor_line as int, false, h.len() as int, k);
                lemma_first_at_line_stops(h, hi.line_idx as int, 0, k);
                lemma_first_at_line_range(h, hi.line_idx as int, 0);
            }
            let hl = hi.line_idx;
            outline.cycle_heading(hl, &headings, line_count);
            true
        },
        None => {
            proof {
                lemma_last_before(h, cursor_line as int, false, h.len() as int, -1);
            }
            false
        },
    }
}

/// Advances the global fold cycle over the headings of `content`.
pub fn outline_global_cycle(outline: &mut OutlineState, content: &str)
    ensures
        final(outline).global_cycle == fold_next(old(outline).global_cycle),
        final(outline).fold_states@ == global_folds(
            old(outline).fold_states@,
            doc_headings(content@),
            final(outline).global_cycle,
        ),
{
    let (_display, headings) = doc_outline(content);
    outline.global_cycle(&headings);
}

/// Re-analyses `content` into the display map and hides the lines that the
/// outline's folds cover.
pub fn refresh_display(display: &mut DisplayMap, outline: &OutlineState, content: &str)
    ensures
        final(display)@.lines == doc_lines(content@),
        final(display)@.hidden.len() == doc_lines(content@).len(),
        forall|l: int|
            0 <= l < doc_lines(content@).len() ==> #[trigger] final(display)@.hidden[l] == line_hidden(
                outline.fold_states@,
                doc_headings(content@),
                l,
                doc_lines(content@).len() as usize,
            ),
        final(display).version_spec() == old(display).version_spec(),
{
    display.update(content);
    let kinds = display.line_kinds();
    let headings = extract_headings(&kinds);
    let line_count = display.line_count();
    proof {
        lemma_doc_facts(content@);
        assert(display@.lines == doc_lines(content@));
        assert(headings@ == doc_headings(content@));
        assert forall|i: int| 0 <= i < headings@.len() implies #[trigger] headings@[i].line_idx
            < line_count by {
            assert(doc_headings(content@)[i].line_idx < doc_lines(content@).len());
        }
    }
    let hidden = outline.compute_hidden_lines(&headings, line_count);
    display.update_visibility(hidden.as_slice());
}

// ─── Checkboxes ────────────────────────────────────────────────────────────

/// Whether the characters `v` start with those of `lit`.
fn chars_start_with(v: &Vec<char>, lit: &str) -> (r: bool)
    ensures
        r == starts_with(v@, lit@),
{
    let n = lit.unicode_len();
    if v.len() < n {
        return false;
    }
    let mut i: usize = 0;
    while i < n
        invariant
            n == lit@.len(),
            n <= v@.len(),
            i <= n,
            forall|j: int| 0 <= j < i ==> v@[j] == lit@[j],
        decreases n - i,
    {
        if v[i] != lit.get_char(i) {
            assert(v@.take(n as int)[i as int] != lit@[i as int]);
            return false;
        }
        i = i + 1;
    }
    assert(v@.take(n as int) =~= lit@);
    true
}

/// The checkbox a click at byte `offset` hits: on a line that, after its
/// leading white space, starts `- [ ] `, `- [x] ` or `- [X] `, a click on
/// those six bytes hits the three-byte marker `[ ]` (or `[x]`).
pub open spec fn checkbox_spec(s: Seq<char>, d: DisplayView, offset: int) -> Option<(int, int)> {
    let b = utf8_bytes(s);
    let li = line_at(d.lines, offset, d.lines.len() as int);
    let lo = d.lines[li].2;
    let line = text_between(s, lo, line_end(b, lo));
    let lead = skip_ws(line, 0);
    let ts = byte_len(line.take(lead)) as int;
    let rest = line.skip(lead);
    if starts_with(rest, "- [ ] "@) || starts_with(rest, "- [x] "@) || starts_with(rest, "- [X] "@) {
        if lo + ts <= offset < lo + ts + 6 {
            Some((lo + ts + 2, lo + ts + 5))
        } else {
            None
        }
    } else {
        None
    }
}

/// The byte range of the checkbox marker that a click at `offset` hits.
pub fn checkbox_at_offset(content: &str, display: &DisplayMap, offset: usize) -> (r: Option<Range<usize>>)
    requires
        display@.lines.len() > 0,
        offsets_valid(utf8_bytes(content@), display@),
    ensures
        match r {
            Some(g) => checkbox_spec(content@, display@, offset as int) == Some((g.start as int, g.end as int)),
            None => checkbox_spec(content@, display@, offset as int) is None,
        },
{
    let bytes = content.as_bytes();
    let ghost b = bytes@;
    let line_idx = display.line_for_offset(offset);
    let line_offset = display.line_offset(line_idx);
    proof {
        assert(0 <= display@.lines[line_idx as int].2 <= b.len());
    }
    let line_end = line_end_of(bytes, line_offset);
    proof {
        lemma_scan_fwd(b, line_offset as int, Class::NotNewline);
    }
    let line_text = slice_text(content, line_offset, line_end);
    let cs = chars_of(line_text);
    let lead = skip_ws_exec(&cs, 0);
    let table = char_table(line_text);
    let trimmed_start = table.starts[lead];
    proof {
        crate::chars::lemma_byte_len_take(line_text@, lead as int, line_text@.len() as int);
        assert(line_text@.take(line_text@.len() as int) =~= line_text@);
    }
    let rest = copy_range(&cs, lead, cs.len());
    assert(rest@ =~= line_text@.skip(lead as int));
    if chars_start_with(&rest, "- [ ] ") || chars_start_with(&rest, "- [x] ") || chars_start_with(&rest, "- [X] ") {
        proof {
            reveal_strlit("- [ ] ");
            reveal_strlit("- [x] ");
            reveal_strlit("- [X] ");
            // The six marker bytes lie inside the line.
            assert(line_text@.skip(lead as int).take(6) + line_text@.skip(lead + 6) =~= line_text@.skip(lead as int));
            assert(line_text@.take(lead as int) + line_text@.skip(lead as int) =~= line_text@);
            crate::chars::lemma_encode_concat(line_text@.take(lead as int), line_text@.skip(lead as int));
            crate::chars::lemma_encode_concat(line_text@.skip(lead as int).take(6), line_text@.skip(lead + 6));
            crate::chars::lemma_byte_len_ge_len(line_text@.skip(lead as int).take(6));
        }
        let start = line_offset + trimmed_start;
        if offset >= start && offset - start < 6 {
            return Some(Range { start: start + 2, end: start + 5 });
        }
    }
    None
}

/// Toggling the checkbox marker at `start..end`: `[ ]` becomes `[x]`,
/// anything else `[ ]`; nothing when the range does not lie on character
/// boundaries of the text. The pair is (what is replaced, what replaces
/// it).
pub open spec fn checkbox_toggle_spec(s: Seq<char>, start: int, end: int) -> Option<(Seq<char>, Seq<char>)> {
    let b = utf8_bytes(s);
    if start <= end <= b.len() && boundary(b, start) && boundary(b, end) {
        let m = text_between(s, start, end);
        Some((m, if m == "[ ]"@ { "[x]"@ } else { "[ ]"@ }))
    } else {
        None
    }
}

/// The edit that toggles the checkbox marker at `range`, the cursor
/// staying where it is.
pub fn toggle_checkbox_op(content: &str, range: Range<usize>, cursor: usize) -> (r: Option<EditOp>)
    ensures
        match r {
            Some(op) => checkbox_toggle_spec(content@, range.start as int, range.end as int) == Some((op.old_text@, op.new_text@))
                && op.range == range && op.cursor_before == cursor && op.cursor_after == cursor,
            None => checkbox_toggle_spec(content@, range.start as int, range.end as int) is None,
        },
{
    let bytes = content.as_bytes();
    let len = bytes.len();
    if range.start > range.end || range.end > len {
        return None;
    }
    if range.start < len && 0x80 <= bytes[range.start] && bytes[range.start] <= 0xbf {
        return None;
    }
    if range.end < len && 0x80 <= bytes[range.end] && bytes[range.end] <= 0xbf {
        return None;
    }
    let marker = slice_text(content, range.start, range.end);
    let new_marker = if crate::text::str_eq(marker, "[ ]") {
        "[x]"
    } else {
        "[ ]"
    };
    Some(EditOp {
        range: Range { start: range.start, end: range.end },
        old_text: to_owned(marker),
        new_text: to_owned(new_marker),
        cursor_before: cursor,
        cursor_after: cursor,
    })
}

/// The marker that replaces `m` when a checkbox is toggled.
pub open spec fn toggled_marker(m: Seq<char>) -> Seq<char> {
    if m == "[ ]"@ {
        "[x]"@
    } else {
        "[ ]"@
    }
}

/// Toggles the checkbox marker at `range` (`[ ]` becomes `[x]`, anything
/// else `[ ]`) and records the edit for undo, the cursor staying where it
/// is. Nothing happens, and `false` comes back, when the range does not run
/// forward between character starts of the text.
pub fn toggle_checkbox(buffer: &mut EditorBuffer, st: &SelectionState, range: Range<usize>) -> (r: bool)
    ensures
        ({
            let t0 = old(buffer).document.text();
            let s = range.start as int;
            let e = range.end as int;
            &&& r == (s <= e && starts_char(t0, s) && starts_char(t0, e))
            &&& !r ==> final(buffer).document == old(buffer).document && final(buffer).history@ == old(
                buffer,
            ).history@
            &&& r ==> {
                &&& final(buffer).document.text() == splice(t0, s, e, toggled_marker(between(t0, s, e)))
                &&& final(buffer).document.dirty_spec()
                &&& final(buffer).document.file() == old(buffer).document.file()
                &&& exists|op: EditOp|
                    #[trigger] recorded(old(buffer).history@, op, st.range, final(buffer).history@) && op.range
                        == range && op.old_text@ == between(t0, s, e) && op.new_text@ == toggled_marker(
                        between(t0, s, e),
                    ) && op.cursor_before == st.cursor && op.cursor_after == st.cursor
            }
        }),
{
    let content = buffer.content();
    let table = char_table(content.as_str());
    if range.start > range.end || table.index_of(range.start).is_none() || table.index_of(range.end).is_none() {
        return false;
    }
    let marker = buffer.slice_bytes(Range { start: range.start, end: range.end });
    let new_marker = if crate::text::str_eq(marker.as_str(), "[ ]") {
        "[x]"
    } else {
        "[ ]"
    };
    proof {
        reveal_strlit("[ ]");
        reveal_strlit("[x]");
    }
    buffer.replace_range(Range { start: range.start, end: range.end }, new_marker);
    let op = EditOp {
        range: Range { start: range.start, end: range.end },
        old_text: marker,
        new_text: to_owned(new_marker),
        cursor_before: st.cursor,
        cursor_after: st.cursor,
    };
    let ghost g = op;
    buffer.record_edit(op, Range { start: st.range.start, end: st.range.end });
    proof {
        assert(recorded(old(buffer).history@, g, st.range, buffer.history@));
    }
    true
}

// ─── Vim selection state ───────────────────────────────────────────────────

/// The editor's selection state: the selected range and which end the
/// cursor is at, the cursor, the text being composed by an input method
/// (if any), the line a line-wise selection is anchored at, and whether a
/// vim edit group (one undo step for an insert session) is open.
#[derive(Debug, PartialEq, Eq)]
pub struct SelectionState {
    pub range: Range<usize>,
    pub reversed: bool,
    pub cursor: usize,
    pub marked: Option<Range<usize>>,
    pub line_anchor: Option<usize>,
    pub group_open: bool,
}

/// Opens a vim edit group unless one is open: the next edit starts a new
/// transaction, grouped from the current selection on.
pub fn begin_vim_edit_group(buffer: &mut EditorBuffer, st: &mut SelectionState)
    requires
        old(st).group_open || old(buffer).history@.depth < usize::MAX,
    ensures
        final(buffer).document == old(buffer).document,
        final(st).group_open,
        final(st).range == old(st).range,
        final(st).reversed == old(st).reversed,
        final(st).cursor == old(st).cursor,
        final(st).line_anchor == old(st).line_anchor,
        final(st).marked == old(st).marked,
        old(st).group_open ==> final(buffer).history@ == old(buffer).history@,
        !old(st).group_open ==> final(buffer).history@.depth == old(buffer).history@.depth + 1,
        history_wf(old(buffer).history@) && history_consistent(old(buffer).document.text(), old(buffer).history@)
            ==> history_wf(final(buffer).history@) && history_consistent(
            final(buffer).document.text(),
            final(buffer).history@,
        ),
{
    if !st.group_open {
        let ghost t = buffer.document.text();
        let ghost h0 = buffer.history@;
        buffer.break_undo_coalescing();
        let ghost h1 = buffer.history@;
        buffer.begin_edit_group(Range { start: st.range.start, end: st.range.end });
        st.group_open = true;
        proof {
            if history_wf(h0) && history_consistent(t, h0) {
                lemma_break_coalescing_keeps_consistent(t, h0, h1);
                lemma_begin_group_keeps_consistent(t, h1, buffer.history@);
            }
        }
    }
}

/// Closes the vim edit group, if one is open.
pub fn end_vim_edit_group(buffer: &mut EditorBuffer, st: &mut SelectionState)
    ensures
        final(buffer).document == old(buffer).document,
        !final(st).group_open,
        final(st).range == old(st).range,
        final(st).reversed == old(st).reversed,
        final(st).cursor == old(st).cursor,
        final(st).line_anchor == old(st).line_anchor,
        final(st).marked == old(st).marked,
        !old(st).group_open ==> final(buffer).history@ == old(buffer).history@,
        old(st).group_open && old(buffer).history@.depth > 0 ==> final(buffer).history@.depth == old(buffer).history@.depth - 1,
        history_wf(old(buffer).history@) && history_consistent(old(buffer).document.text(), old(buffer).history@)
            ==> history_wf(final(buffer).history@) && history_consistent(
            final(buffer).document.text(),
            final(buffer).history@,
        ),
{
    if st.group_open {
        let ghost t = buffer.document.text();
        let ghost h0 = buffer.history@;
        buffer.end_edit_group();
        st.group_open = false;
        proof {
            if history_wf(h0) && history_consistent(t, h0) {
                lemma_end_group_keeps_consistent(t, h0, buffer.history@);
            }
        }
    }
}

/// What entering `mode` does to the selection: Normal collapses it to its
/// start and drops the line anchor; Visual selects the character under the
/// cursor when nothing is selected; VisualLine selects the cursor's whole
/// line and anchors there; the others leave it.
pub open spec fn mode_selection(
    mode: EditorMode,
    text: Seq<char>,
    range: Range<usize>,
    reversed: bool,
    cursor: usize,
    line_anchor: Option<usize>,
) -> (Range<usize>, bool, int, Option<int>) {
    let anchor = match line_anchor {
        Some(a) => Some(a as int),
        None => None,
    };
    match mode {
        EditorMode::Normal => if range.start < range.end {
            (Range { start: range.start, end: range.start }, reversed, range.start as int, None)
        } else {
            (range, reversed, cursor as int, None)
        },
        EditorMode::Visual => if range.start < range.end {
            (range, reversed, cursor as int, None)
        } else {
            (
                Range { start: cursor, end: next_grapheme_spec(text, cursor as int) as usize },
                false,
                cursor as int,
                None,
            )
        },
        EditorMode::VisualLine => {
            let b = utf8_bytes(text);
            let ls = line_start_clamped(b, cursor as int);
            (Range { start: ls as usize, end: line_after(b, ls) as usize }, false, ls, Some(ls))
        },
        _ => (range, reversed, cursor as int, anchor),
    }
}

/// The side effects of entering a vim mode: Insert opens a vim edit group;
/// Normal closes it and starts a new transaction; the selection changes as
/// `mode_selection` says.
pub fn on_vim_mode_changed(mode: EditorMode, buffer: &mut EditorBuffer, st: &mut SelectionState)
    requires
        mode == EditorMode::Insert ==> old(st).group_open || old(buffer).history@.depth < usize::MAX,
    ensures
        final(buffer).document == old(buffer).document,
        ({
            let (range, reversed, cursor, anchor) = mode_selection(
                mode,
                old(buffer).document.text(),
                old(st).range,
                old(st).reversed,
                old(st).cursor,
                old(st).line_anchor,
            );
            &&& final(st).range == range
            &&& final(st).marked == old(st).marked
            &&& final(st).reversed == reversed
            &&& final(st).cursor == cursor
            &&& match final(st).line_anchor {
                Some(a) => anchor == Some(a as int),
                None => anchor is None,
            }
        }),
        mode == EditorMode::Insert ==> final(st).group_open && (old(st).group_open ==> final(buffer).history@
            == old(buffer).history@) && (!old(st).group_open ==> final(buffer).history@.depth == old(buffer).history@.depth + 1),
        mode == EditorMode::Normal ==> !final(st).group_open,
        mode == EditorMode::Normal && old(st).group_open && old(buffer).history@.depth > 0 ==> final(buffer).history@.depth == old(buffer).history@.depth - 1,
        mode == EditorMode::Normal && !old(st).group_open ==> final(buffer).history@.depth == old(buffer).history@.depth,
        mode != EditorMode::Insert && mode != EditorMode::Normal ==> final(st).group_open == old(st).group_open && final(buffer).history@ == old(buffer).history@,
        history_wf(old(buffer).history@) && history_consistent(old(buffer).document.text(), old(buffer).history@)
            ==> history_wf(final(buffer).history@) && history_consistent(
            final(buffer).document.text(),
            final(buffer).history@,
        ),
{
    match mode {
        EditorMode::Insert => {
            begin_vim_edit_group(buffer, st);
        },
        EditorMode::Normal => {
            end_vim_edit_group(buffer, st);
            st.line_anchor = None;
            if st.range.start < st.range.end {
                let pos = st.range.start;
                st.range = Range { start: pos, end: pos };
                st.cursor = pos;
            }
            let ghost h1 = buffer.history@;
            buffer.break_undo_coalescing();
            proof {
                if history_wf(h1) && history_consistent(buffer.document.text(), h1) {
                    lemma_break_coalescing_keeps_consistent(buffer.document.text(), h1, buffer.history@);
                }
            }
        },
        EditorMode::Visual => {
            st.line_anchor = None;
            if !(st.range.start < st.range.end) {
                let pos = st.cursor;
                let end = buffer.next_grapheme(pos);
                st.range = Range { start: pos, end };
                st.reversed = false;
            }
        },
        EditorMode::VisualLine => {
            let content = buffer.content();
            let ls = line_start_at(content.as_str(), st.cursor);
            proof {
                crate::bytes::lemma_scan_back_prev(
                    utf8_bytes(content@),
                    if (st.cursor as int) < utf8_bytes(content@).len() {
                        st.cursor as int
                    } else {
                        utf8_bytes(content@).len() as int
                    },
                    Class::NotNewline,
                );
            }
            let le = line_end_including_newline(content.as_str(), ls);
            st.line_anchor = Some(ls);
            st.range = Range { start: ls, end: le };
            st.reversed = false;
            st.cursor = ls;
        },
        EditorMode::Command => {},
    }
}

/// Where a line-wise visual selection goes when it grows by `line_delta`
/// lines: its anchor line, the lines it covers, whether it runs backwards
/// from the anchor, and the cursor (the start of the target line).
#[derive(Debug, PartialEq, Eq)]
pub struct VisualLineStep {
    pub anchor: usize,
    pub range: Range<usize>,
    pub reversed: bool,
    pub cursor: usize,
}

/// The line-wise visual selection after moving `line_delta` lines from the
/// cursor's line; the anchor is the given one, else the cursor's line.
pub fn visual_line_step(content: &str, anchor: Option<usize>, cursor: usize, line_delta: isize) -> (r:
    VisualLineStep)
    ensures
        ({
            let b = utf8_bytes(content@);
            let a = match anchor {
                Some(a) => a as int,
                None => line_start_clamped(b, cursor as int),
            };
            let t = move_line_spec(b, line_start_clamped(b, cursor as int), line_delta as int);
            &&& r.anchor == a
            &&& r.cursor == t
            &&& r.reversed == (t < a)
            &&& (r.range.start as int, r.range.end as int) == visual_range_spec(b, a, t)
        }),
{
    let anchor = match anchor {
        Some(a) => a,
        None => line_start_at(content, cursor),
    };
    let current = line_start_at(content, cursor);
    let target = move_line_start(content, current, line_delta);
    let range = visual_line_range(content, anchor, target);
    VisualLineStep { anchor, range, reversed: target < anchor, cursor: target }
}

// ─── Editing through the selection ─────────────────────────────────────────

/// The range an edit replaces: the text being composed, else the selection.
pub open spec fn edit_range(st: SelectionState) -> Range<usize> {
    match st.marked {
        Some(m) => m,
        None => st.range,
    }
}

/// The edit range runs forward between character starts of `t`.
pub open spec fn edit_range_ok(t: Seq<char>, st: SelectionState) -> bool {
    let r = edit_range(st);
    r.start <= r.end && starts_char(t, r.start as int) && starts_char(t, r.end as int)
}

/// Replaces the edit range by `new_text`, records the edit for undo, and
/// leaves the cursor, with nothing selected, at `cursor_after`.
pub fn edit_text_with_cursor(buffer: &mut EditorBuffer, st: &mut SelectionState, new_text: &str, cursor_after: usize)
    requires
        edit_range_ok(old(buffer).document.text(), *old(st)),
    ensures
        ({
            let r = edit_range(*old(st));
            let t0 = old(buffer).document.text();
            &&& final(buffer).document.text() == splice(t0, r.start as int, r.end as int, new_text@)
            &&& final(buffer).document.dirty_spec()
            &&& final(buffer).document.file() == old(buffer).document.file()
            &&& exists|op: EditOp|
                #[trigger] recorded(old(buffer).history@, op, old(st).range, final(buffer).history@) && op.range
                    == r && op.old_text@ == between(t0, r.start as int, r.end as int) && op.new_text@ == new_text@
                    && op.cursor_before == old(st).cursor && op.cursor_after == cursor_after
        }),
        final(st).range == caret(cursor_after),
        final(st).cursor == cursor_after,
        final(st).marked is None,
        final(st).reversed == old(st).reversed,
        final(st).line_anchor == old(st).line_anchor,
        final(st).group_open == old(st).group_open,
        history_wf(old(buffer).history@) ==> history_wf(final(buffer).history@),
        history_wf(old(buffer).history@) && history_consistent(old(buffer).document.text(), old(buffer).history@)
            && edit_range(*old(st)).start + byte_len(new_text@) <= usize::MAX ==> history_consistent(
            final(buffer).document.text(),
            final(buffer).history@,
        ),
{
    let range = match &st.marked {
        Some(m) => Range { start: m.start, end: m.end },
        None => Range { start: st.range.start, end: st.range.end },
    };
    let old_text = buffer.slice_bytes(Range { start: range.start, end: range.end });
    let cursor_before = st.cursor;
    let selection_before = Range { start: st.range.start, end: st.range.end };
    buffer.replace_range(Range { start: range.start, end: range.end }, new_text);
    let op = EditOp { range, old_text, new_text: to_owned(new_text), cursor_before, cursor_after };
    let ghost g = op;
    buffer.record_edit(op, selection_before);
    st.range = Range { start: cursor_after, end: cursor_after };
    st.cursor = cursor_after;
    st.marked = None;
    proof {
        assert(recorded(old(buffer).history@, g, old(st).range, buffer.history@));
        if history_wf(old(buffer).history@) && history_consistent(old(buffer).document.text(), old(buffer).history@)
            && g.range.start + byte_len(g.new_text@) <= usize::MAX {
            lemma_edit_keeps_consistent(old(buffer).document.text(), old(buffer).history@, g, old(st).range, buffer.history@);
        }
    }
}

/// Replaces the edit range by `new_text`, leaving the cursor after it.
pub fn edit_text(buffer: &mut EditorBuffer, st: &mut SelectionState, new_text: &str)
    requires
        edit_range_ok(old(buffer).document.text(), *old(st)),
        edit_range(*old(st)).start + byte_len(new_text@) <= usize::MAX,
    ensures
        ({
            let r = edit_range(*old(st));
            let t0 = old(buffer).document.text();
            let after = (r.start + byte_len(new_text@)) as usize;
            &&& final(buffer).document.text() == splice(t0, r.start as int, r.end as int, new_text@)
            &&& exists|op: EditOp|
                #[trigger] recorded(old(buffer).history@, op, old(st).range, final(buffer).history@) && op.range
                    == r && op.old_text@ == between(t0, r.start as int, r.end as int) && op.new_text@ == new_text@
                    && op.cursor_before == old(st).cursor && op.cursor_after == after
            &&& final(st).range == caret(after)
            &&& final(st).cursor == after
        }),
        final(st).marked is None,
        final(st).reversed == old(st).reversed,
        final(st).line_anchor == old(st).line_anchor,
        final(st).group_open == old(st).group_open,
{
    let start = match &st.marked {
        Some(m) => m.start,
        None => st.range.start,
    };
    let n = str_byte_len(new_text);
    edit_text_with_cursor(buffer, st, new_text, start + n);
}

// ─── Dot-repeat ────────────────────────────────────────────────────────────

/// `at + off - base`, kept within `usize` (what `saturating_add_signed`
/// gives for the difference `off - base`).
pub open spec fn shifted_offset(at: int, off: int, base: int) -> int {
    let x = at + off - base;
    if x < 0 {
        0
    } else if x > usize::MAX {
        usize::MAX as int
    } else {
        x
    }
}

/// One edit replayed: `op` moved from the offset `base` to `at`. It
/// applies when the moved range (as long as the text `op` removed, cut at
/// the end of `t`) runs forward between character starts of `t`, and then
/// replaces the edit range as `edit_text` does; otherwise nothing changes.
pub open spec fn replay_step(t: Seq<char>, st: SelectionState, op: EditOp, at: int, base: int) -> (
    Seq<char>,
    SelectionState,
) {
    let start = shifted_offset(at, op.range.start as int, base);
    let e0 = start + byte_len(op.old_text@);
    let e1 = if e0 > usize::MAX {
        usize::MAX as int
    } else {
        e0
    };
    let end = if e1 < byte_len(t) {
        e1
    } else {
        byte_len(t) as int
    };
    if start <= end && starts_char(t, start) && starts_char(t, end) {
        let moved = SelectionState { range: Range { start: start as usize, end: end as usize }, ..st };
        let r = edit_range(moved);
        let after = (r.start + byte_len(op.new_text@)) as usize;
        (
            splice(t, r.start as int, r.end as int, op.new_text@),
            SelectionState { range: caret(after), cursor: after, marked: None, ..st },
        )
    } else {
        (t, st)
    }
}

/// The text and selection after replaying `ops` in order.
pub open spec fn replay(t: Seq<char>, st: SelectionState, ops: Seq<EditOp>, at: int, base: int) -> (
    Seq<char>,
    SelectionState,
)
    decreases ops.len(),
{
    if ops.len() == 0 {
        (t, st)
    } else {
        let (t1, s1) = replay(t, st, ops.drop_last(), at, base);
        replay_step(t1, s1, ops.last(), at, base)
    }
}

/// `ops` repeated `n` times.
pub open spec fn repeated(ops: Seq<EditOp>, n: nat) -> Seq<EditOp>
    decreases n,
{
    if n == 0 {
        Seq::empty()
    } else {
        repeated(ops, (n - 1) as nat) + ops
    }
}

/// Where a transaction's edits start from: the cursor before its first.
pub open spec fn replay_base(ops: Seq<EditOp>) -> int {
    if ops.len() > 0 {
        ops[0].cursor_before as int
    } else {
        0
    }
}

/// A text being composed, if any, runs forward between character starts.
pub open spec fn marked_ok(t: Seq<char>, st: SelectionState) -> bool {
    st.marked matches Some(m) ==> m.start <= m.end && starts_char(t, m.start as int) && starts_char(
        t,
        m.end as int,
    )
}

fn replay_one(buffer: &mut EditorBuffer, st: &mut SelectionState, op: &EditOp, at: usize, base: usize)
    requires
        marked_ok(old(buffer).document.text(), *old(st)),
    ensures
        (final(buffer).document.text(), *final(st)) == replay_step(
            old(buffer).document.text(),
            *old(st),
            *op,
            at as int,
            base as int,
        ),
        marked_ok(final(buffer).document.text(), *final(st)),
        final(buffer).history@.depth == old(buffer).history@.depth,
{
    let start: usize = if op.range.start >= base {
        at.saturating_add(op.range.start - base)
    } else {
        at.saturating_sub(base - op.range.start)
    };
    let content = buffer.content();
    let len = crate::text::str_len(content.as_str());
    let old_len = crate::text::str_len(op.old_text.as_str());
    let new_len = crate::text::str_len(op.new_text.as_str());
    let e1 = start.saturating_add(old_len);
    let end = if e1 < len {
        e1
    } else {
        len
    };
    let table = char_table(content.as_str());
    if start <= end && table.index_of(start).is_some() && table.index_of(end).is_some() {
        st.range = Range { start, end };
        proof {
            let t = old(buffer).document.text();
            if st.marked is Some {
                crate::document::lemma_starts_char(t, st.marked->0.start as int);
            } else {
                crate::document::lemma_starts_char(t, start as int);
            }
        }
        edit_text(buffer, st, op.new_text.as_str());
    }
}

/// Repeats the newest transaction `count` times at the cursor (the `.`
/// command): its edits, each moved by how far the cursor is from where
/// the transaction started, are replayed in order as one undo step, and an
/// edit whose moved range does not fall on character starts is skipped.
/// Returns whether there was a transaction to repeat.
pub fn dot_repeat(buffer: &mut EditorBuffer, st: &mut SelectionState, count: usize) -> (r: bool)
    requires
        marked_ok(old(buffer).document.text(), *old(st)),
        old(buffer).history@.depth < usize::MAX,
    ensures
        r == (old(buffer).history@.undo.len() > 0),
        !r ==> final(buffer).document == old(buffer).document && final(buffer).history@ == old(buffer).history@
            && *final(st) == *old(st),
        r ==> {
            let ops = old(buffer).history@.undo.last().ops;
            &&& (final(buffer).document.text(), *final(st)) == replay(
                old(buffer).document.text(),
                *old(st),
                repeated(ops, count as nat),
                old(st).cursor as int,
                replay_base(ops),
            )
            &&& final(buffer).history@.depth == old(buffer).history@.depth
        },
{
    let txn = match buffer.last_transaction() {
        Some(t) => t.clone(),
        None => {
            return false;
        },
    };
    let ghost ops = txn.ops@;
    let base: usize = if txn.ops.len() > 0 {
        txn.ops[0].cursor_before
    } else {
        0
    };
    let at = st.cursor;
    let ghost t0 = buffer.document.text();
    let ghost s0 = *st;
    let ghost d0 = buffer.history@.depth;
    buffer.break_undo_coalescing();
    buffer.begin_edit_group(Range { start: st.range.start, end: st.range.end });
    let mut i: usize = 0;
    assert(repeated(ops, 0) =~= Seq::<EditOp>::empty());
    while i < count
        invariant
            i <= count,
            txn.ops@ == ops,
            at == s0.cursor,
            base == replay_base(ops),
            (buffer.document.text(), *st) == replay(t0, s0, repeated(ops, i as nat), at as int, base as int),
            marked_ok(buffer.document.text(), *st),
            buffer.history@.depth == d0 + 1,
        decreases count - i,
    {
        let mut j: usize = 0;
        assert(repeated(ops, i as nat) + ops.take(0) =~= repeated(ops, i as nat));
        while j < txn.ops.len()
            invariant
                i < count,
                j <= ops.len(),
                txn.ops@ == ops,
                (buffer.document.text(), *st) == replay(
                    t0,
                    s0,
                    repeated(ops, i as nat) + ops.take(j as int),
                    at as int,
                    base as int,
                ),
                marked_ok(buffer.document.text(), *st),
                buffer.history@.depth == d0 + 1,
            decreases ops.len() - j,
        {
            let ghost done = repeated(ops, i as nat) + ops.take(j as int);
            let ghost next = repeated(ops, i as nat) + ops.take(j + 1);
            assert(next.drop_last() =~= done);
            assert(next.last() == ops[j as int]);
            replay_one(buffer, st, &txn.ops[j], at, base);
            j = j + 1;
        }
        assert(ops.take(ops.len() as int) =~= ops);
        assert(repeated(ops, (i + 1) as nat) == repeated(ops, i as nat) + ops);
        i = i + 1;
    }
    buffer.end_edit_group();
    buffer.break_undo_coalescing();
    true
}

/// The newest transaction can be undone on the text `t`: its inverse
/// operations apply, last edit first.
pub open spec fn undo_ready(t: Seq<char>, h: HistoryView) -> bool {
    h.undo.len() > 0 ==> ops_invertible(h.undo.last().ops) && ops_apply(t, inverse_seq(h.undo.last().ops))
}

/// The newest undone transaction can be redone on the text `t`.
pub open spec fn redo_ready(t: Seq<char>, h: HistoryView) -> bool {
    h.redo.len() > 0 ==> ops_apply(t, h.redo.last().ops)
}

/// Undoes the newest transaction: applies its inverse operations and
/// restores the selection it started from. Returns whether there was one.
pub fn undo_edit(buffer: &mut EditorBuffer, st: &mut SelectionState) -> (r: bool)
    requires
        undo_ready(old(buffer).document.text(), old(buffer).history@),
    ensures
        r == (old(buffer).history@.undo.len() > 0),
        final(buffer).history@ == spec_undo(old(buffer).history@).0,
        history_wf(old(buffer).history@) && old(buffer).history@.depth == 0 && history_consistent(
            old(buffer).document.text(),
            old(buffer).history@,
        ) ==> history_consistent(final(buffer).document.text(), final(buffer).history@),
        !r ==> final(buffer).document == old(buffer).document && *final(st) == *old(st),
        r ==> {
            let txn = old(buffer).history@.undo.last();
            &&& final(buffer).document.text() == apply_ops(old(buffer).document.text(), inverse_seq(txn.ops))
            &&& final(st).range == txn.selection_before
            &&& final(st).cursor == if old(st).reversed {
                txn.selection_before.start
            } else {
                txn.selection_before.end
            }
            &&& final(st).reversed == old(st).reversed
            &&& final(st).marked == old(st).marked
            &&& final(st).line_anchor == old(st).line_anchor
            &&& final(st).group_open == old(st).group_open
        },
{
    let txn = match buffer.undo() {
        Some(t) => t,
        None => {
            return false;
        },
    };
    let inverse = txn.inverse_ops();
    buffer.apply_edits(&inverse);
    proof {
        if history_wf(old(buffer).history@) && old(buffer).history@.depth == 0 && history_consistent(
            old(buffer).document.text(),
            old(buffer).history@,
        ) {
            lemma_undo_keeps_consistent(old(buffer).document.text(), old(buffer).history@);
        }
    }
    st.range = Range { start: txn.selection_before.start, end: txn.selection_before.end };
    st.cursor = if st.reversed {
        txn.selection_before.start
    } else {
        txn.selection_before.end
    };
    true
}

/// Redoes the newest undone transaction: applies its operations again and
/// restores the selection it ended with. Returns whether there was one.
pub fn redo_edit(buffer: &mut EditorBuffer, st: &mut SelectionState) -> (r: bool)
    requires
        redo_ready(old(buffer).document.text(), old(buffer).history@),
    ensures
        r == (old(buffer).history@.redo.len() > 0),
        final(buffer).history@ == spec_redo(old(buffer).history@).0,
        history_wf(old(buffer).history@) && old(buffer).history@.depth == 0 && history_consistent(
            old(buffer).document.text(),
            old(buffer).history@,
        ) ==> history_consistent(final(buffer).document.text(), final(buffer).history@),
        !r ==> final(buffer).document == old(buffer).document && *final(st) == *old(st),
        r ==> {
            let txn = old(buffer).history@.redo.last();
            &&& final(buffer).document.text() == apply_ops(old(buffer).document.text(), txn.ops)
            &&& final(st).range == txn.selection_after
            &&& final(st).cursor == if old(st).reversed {
                txn.selection_after.start
            } else {
                txn.selection_after.end
            }
            &&& final(st).reversed == old(st).reversed
            &&& final(st).marked == old(st).marked
            &&& final(st).line_anchor == old(st).line_anchor
            &&& final(st).group_open == old(st).group_open
        },
{
    let txn = match buffer.redo() {
        Some(t) => t,
        None => {
            return false;
        },
    };
    buffer.apply_edits(&txn.ops);
    proof {
        if history_wf(old(buffer).history@) && old(buffer).history@.depth == 0 && history_consistent(
            old(buffer).document.text(),
            old(buffer).history@,
        ) {
            lemma_redo_keeps_consistent(old(buffer).document.text(), old(buffer).history@);
        }
    }
    st.range = Range { start: txn.selection_after.start, end: txn.selection_after.end };
    st.cursor = if st.reversed {
        txn.selection_after.start
    } else {
        txn.selection_after.end
    };
    true
}

/// An edit that starts a new transaction can be undone right away, and
/// undoing it gives back the text from before the edit: when recording the
/// edit `op` on `t0` outside a group did not join it to the previous
/// transaction (there was none, it was closed to coalescing, or `op` is not
/// a small single-line insertion or deletion), the newest transaction is
/// `op` alone, ready to be undone, and undoing it restores `t0`.
pub proof fn lemma_edit_then_undo(t0: Seq<char>, op: EditOp, sel: Range<usize>, h0: HistoryView, h1: HistoryView)
    requires
        op_applies(t0, op),
        op.range.start + byte_len(op.new_text@) <= usize::MAX,
        h0.depth == 0,
        recorded(h0, op, sel, h1),
        h0.undo.len() == 0 || h0.undo.last().suppress_grouping || !op_mergeable(op),
    ensures
        h1.undo.len() > 0,
        h1.undo.last().ops == seq![op],
        h1.undo.last().selection_before == sel,
        undo_ready(apply_op(t0, op), h1),
        apply_ops(apply_op(t0, op), inverse_seq(h1.undo.last().ops)) == t0,
{
    let ops = h1.undo.last().ops;
    assert(ops =~= seq![op]);
    assert(ops_invertible(ops));
    assert(ops.drop_first() =~= Seq::<EditOp>::empty());
    assert(ops[0] == op);
    assert(ops_apply(apply_op(t0, op), ops.drop_first()));
    assert(apply_ops(apply_op(t0, op), ops.drop_first()) == apply_op(t0, op));
    assert(ops_apply(t0, ops));
    assert(apply_ops(t0, ops) == apply_op(t0, op));
    crate::buffer::lemma_inverse_ops_restore(t0, ops);
}

/// Moves the cursor to `offset` (snapped to a character boundary and
/// stepped off folded lines, preferring the direction of the move),
/// selecting nothing.
pub fn move_to(buffer: &EditorBuffer, display: &DisplayMap, st: &mut SelectionState, offset: usize)
    ensures
        ({
            let target = unhide_spec(
                display@,
                snap_spec(utf8_bytes(buffer.document.text()), offset as int),
                offset > old(st).cursor,
            );
            &&& final(st).cursor == target
            &&& final(st).range == caret(target as usize)
        }),
        final(st).reversed == old(st).reversed,
        final(st).marked == old(st).marked,
        final(st).line_anchor == old(st).line_anchor,
        final(st).group_open == old(st).group_open,
{
    let content = buffer.content();
    let target = move_target(content.as_str(), display, offset, offset > st.cursor);
    st.range = Range { start: target, end: target };
    st.cursor = target;
}

/// Applies an edit computed for code blocks: an empty one only moves the
/// cursor; any other replaces its range and places the cursor.
pub fn apply_code_edit(buffer: &mut EditorBuffer, display: &DisplayMap, st: &mut SelectionState, edit: CodeEdit)
    requires
        !(edit.range.start >= edit.range.end && edit@.text.len() == 0) ==> (edit.range.start <= edit.range.end
            && starts_char(old(buffer).document.text(), edit.range.start as int) && starts_char(
            old(buffer).document.text(),
            edit.range.end as int,
        )),
    ensures
        edit.range.start >= edit.range.end && edit@.text.len() == 0 ==> final(buffer).document == old(
            buffer,
        ).document && final(buffer).history@ == old(buffer).history@ && final(st).cursor == unhide_spec(
            display@,
            snap_spec(utf8_bytes(old(buffer).document.text()), edit.cursor_after as int),
            edit.cursor_after > old(st).cursor,
        ),
        !(edit.range.start >= edit.range.end && edit@.text.len() == 0) ==> final(buffer).document.text()
            == splice(
            old(buffer).document.text(),
            edit.range.start as int,
            edit.range.end as int,
            edit@.text,
        ) && final(st).cursor == edit.cursor_after && final(st).range == caret(edit.cursor_after),
        !(edit.range.start >= edit.range.end && edit@.text.len() == 0) ==> {
            let t0 = old(buffer).document.text();
            &&& final(buffer).document.dirty_spec()
            &&& final(buffer).document.file() == old(buffer).document.file()
            &&& exists|op: EditOp|
                #[trigger] recorded(old(buffer).history@, op, edit.range, final(buffer).history@) && op.range
                    == edit.range && op.old_text@ == between(t0, edit.range.start as int, edit.range.end as int)
                    && op.new_text@ == edit@.text && op.cursor_before == old(st).cursor && op.cursor_after
                    == edit.cursor_after
        },
        final(st).marked is None || final(st).marked == old(st).marked,
{
    if edit.range.start >= edit.range.end && edit.text.as_str().unicode_len() == 0 {
        move_to(buffer, display, st, edit.cursor_after);
        return;
    }
    st.range = Range { start: edit.range.start, end: edit.range.end };
    st.marked = None;
    edit_text_with_cursor(buffer, st, edit.text.as_str(), edit.cursor_after);
}

/// Undo followed by redo gives everything back: on a history in step with
/// the text `t`, once `undo_edit` has undone the newest transaction,
/// `redo_edit` is ready, redoes that same transaction (and so puts back the
/// selection it ended with), turns the text back into `t` and the history
/// back into `h`.
pub proof fn lemma_undo_then_redo_restores(t: Seq<char>, h: HistoryView)
    requires
        history_wf(h),
        h.depth == 0,
        crate::history_text::history_consistent(t, h),
        h.undo.len() > 0,
    ensures
        undo_ready(t, h),
        redo_ready(apply_ops(t, inverse_seq(h.undo.last().ops)), spec_undo(h).0),
        spec_undo(h).0.redo.last() == h.undo.last(),
        apply_ops(apply_ops(t, inverse_seq(h.undo.last().ops)), spec_undo(h).0.redo.last().ops) == t,
        spec_redo(spec_undo(h).0).0 == h,
{
    lemma_undo_keeps_consistent(t, h);
    crate::history_text::lemma_redo_after_undo(t, h.undo.last().ops);
    crate::undo::lemma_undo_then_redo(h);
}

/// When the history is in step with the text and no group is open, the
/// newest transaction can be undone and the newest undone one redone.
pub proof fn lemma_consistent_history_ready(t: Seq<char>, h: HistoryView)
    requires
        history_wf(h),
        h.depth == 0,
        crate::history_text::history_consistent(t, h),
    ensures
        undo_ready(t, h),
        redo_ready(t, h),
{
}

} // verus!
