//! Whole-line positions in the editor's text (for line-wise visual mode),
//! diagram embed lines, and moving between table cells.
use std::ops::Range;

use vstd::prelude::*;

use crate::bytes::{line_end, line_end_of, line_start, line_start_of};
use crate::code_edit::fence::{copy_range, trim, trimmed};
use crate::resource::first_index;
use crate::text::{chars_of, lowercase_equals, lowercase_is, string_of, utf8_bytes};

verus! {

broadcast use vstd::string::group_string_axioms;

// ─── Lines ─────────────────────────────────────────────────────────────────

/// Where the line holding `offset` starts, with offsets past the end taken
/// as the end.
pub open spec fn line_start_clamped(b: Seq<u8>, offset: int) -> int {
    line_start(b, if offset < b.len() { offset } else { b.len() as int })
}

/// Where the line starting at `ls` ends, its newline included (the end of
/// the text for the last line).
pub open spec fn line_after(b: Seq<u8>, ls: int) -> int {
    let e = line_end(b, ls);
    if e < b.len() {
        e + 1
    } else {
        b.len() as int
    }
}

/// The start of the line holding `offset` (offsets past the end are taken
/// as the end).
pub fn line_start_at(content: &str, offset: usize) -> (r: usize)
    ensures
        r == line_start_clamped(utf8_bytes(content@), offset as int),
{
    let bytes = content.as_bytes();
    let o = if offset < bytes.len() {
        offset
    } else {
        bytes.len()
    };
    line_start_of(bytes, o)
}

/// The end of the line that starts at `line_start`, its newline included.
pub fn line_end_including_newline(content: &str, line_start: usize) -> (r: usize)
    requires
        line_start <= utf8_bytes(content@).len(),
    ensures
        r == line_after(utf8_bytes(content@), line_start as int),
        line_start <= r <= utf8_bytes(content@).len(),
{
    let bytes = content.as_bytes();
    let e = line_end_of(bytes, line_start);
    if e < bytes.len() {
        e + 1
    } else {
        bytes.len()
    }
}

/// From the line starting at `t`, `n` lines down, stopping at the last line.
pub open spec fn lines_down(b: Seq<u8>, t: int, n: nat) -> int
    decreases n,
{
    if n == 0 {
        t
    } else {
        let next = line_after(b, t);
        if next >= b.len() {
            t
        } else {
            lines_down(b, next, (n - 1) as nat)
        }
    }
}

/// From the line starting at `t`, `n` lines up, stopping at the first line.
pub open spec fn lines_up(b: Seq<u8>, t: int, n: nat) -> int
    decreases n,
{
    if n == 0 || t <= 0 {
        t
    } else {
        lines_up(b, line_start_clamped(b, t - 1), (n - 1) as nat)
    }
}

/// The start of the line `delta` lines below (above, when negative) the
/// line holding `start`, clamped to the first and last lines.
pub open spec fn move_line_spec(b: Seq<u8>, start: int, delta: int) -> int {
    let t = line_start_clamped(b, start);
    if delta >= 0 {
        lines_down(b, t, delta as nat)
    } else {
        lines_up(b, t, (-delta) as nat)
    }
}

/// Moves `delta` lines from the line holding `start`.
pub fn move_line_start(content: &str, start: usize, delta: isize) -> (r: usize)
    ensures
        r == move_line_spec(utf8_bytes(content@), start as int, delta as int),
{
    let bytes = content.as_bytes();
    let len = bytes.len();
    let mut target = line_start_at(content, start);
    proof {
        crate::bytes::lemma_scan_back_prev(
            bytes@,
            (if start < len {
                start as int
            } else {
                len as int
            }),
            crate::bytes::Class::NotNewline,
        );
    }
    if delta >= 0 {
        let n = delta as usize;
        let mut i: usize = 0;
        while i < n
            invariant
                i <= n,
                n == delta,
                len == bytes@.len(),
                bytes@ == utf8_bytes(content@),
                target <= len,
                lines_down(bytes@, target as int, (n - i) as nat) == move_line_spec(
                    bytes@,
                    start as int,
                    delta as int,
                ),
            ensures
                target == move_line_spec(bytes@, start as int, delta as int),
            decreases n - i,
        {
            let next = line_end_including_newline(content, target);
            if next >= len {
                break;
            }
            target = next;
            i = i + 1;
        }
    } else {
        let n: usize = if delta == isize::MIN {
            (isize::MAX as usize) + 1
        } else {
            (-delta) as usize
        };
        let mut i: usize = 0;
        while i < n
            invariant
                i <= n,
                n == -delta,
                len == bytes@.len(),
                bytes@ == utf8_bytes(content@),
                target <= len,
                lines_up(bytes@, target as int, (n - i) as nat) == move_line_spec(
                    bytes@,
                    start as int,
                    delta as int,
                ),
            ensures
                target == move_line_spec(bytes@, start as int, delta as int),
            decreases n - i,
        {
            if target == 0 {
                break;
            }
            proof {
                crate::bytes::lemma_scan_back_prev(bytes@, target - 1, crate::bytes::Class::NotNewline);
            }
            target = line_start_at(content, target - 1);
            i = i + 1;
        }
    }
    target
}

/// The whole lines from the one holding the smaller of two offsets through
/// the one holding the larger, the last newline included.
pub open spec fn visual_range_spec(b: Seq<u8>, anchor: int, target: int) -> (int, int) {
    let lo = if anchor < target {
        anchor
    } else {
        target
    };
    let hi = if anchor < target {
        target
    } else {
        anchor
    };
    (line_start_clamped(b, lo), line_after(b, line_start_clamped(b, hi)))
}

/// The byte range of the lines a line-wise visual selection covers.
pub fn visual_line_range(content: &str, anchor: usize, target: usize) -> (r: Range<usize>)
    ensures
        (r.start as int, r.end as int) == visual_range_spec(utf8_bytes(content@), anchor as int, target as int),
{
    let lo = if anchor < target {
        anchor
    } else {
        target
    };
    let hi = if anchor < target {
        target
    } else {
        anchor
    };
    let first = line_start_at(content, lo);
    let last = line_start_at(content, hi);
    proof {
        let b = utf8_bytes(content@);
        crate::bytes::lemma_scan_back_prev(
            b,
            (if hi < b.len() {
                hi as int
            } else {
                b.len() as int
            }),
            crate::bytes::Class::NotNewline,
        );
    }
    Range { start: first, end: line_end_including_newline(content, last) }
}

// ─── Diagram embeds ────────────────────────────────────────────────────────

/// The target of a line that holds nothing but a wikilink to a diagram:
/// `[[name.diagram]]` or `[[name.diagram|alias]]` (white space around is
/// ignored, `.diagram` in any case).
pub open spec fn diagram_target_spec(line: Seq<char>) -> Option<Seq<char>> {
    let t = trim(line);
    if t.len() >= 4 && t[0] == '[' && t[1] == '[' && t[t.len() - 2] == ']' && t[t.len() - 1]
        == ']' {
        let inner = t.subrange(2, t.len() - 2);
        let bar = first_index(inner, '|', 0);
        let target = trim(
            if bar < 0 {
                inner
            } else {
                inner.take(bar)
            },
        );
        if target.len() >= 8 && lowercase_is(
            target.skip(target.len() - 8),
            seq!['.', 'd', 'i', 'a', 'g', 'r', 'a', 'm'],
        ) {
            Some(target)
        } else {
            None
        }
    } else {
        None
    }
}

/// The diagram a line embeds, if the line is a wikilink to one.
pub fn diagram_link_target(line_text: &str) -> (r: Option<String>)
    ensures
        match r {
            Some(s) => diagram_target_spec(line_text@) == Some(s@),
            None => diagram_target_spec(line_text@) is None,
        },
{
    let cs = chars_of(line_text);
    let t = trimmed(&cs);
    let n = t.len();
    if !(n >= 4 && t[0] == '[' && t[1] == '[' && t[n - 2] == ']' && t[n - 1] == ']') {
        return None;
    }
    let inner = copy_range(&t, 2, n - 2);
    let mut bar: usize = 0;
    while bar < inner.len() && inner[bar] != '|'
        invariant
            bar <= inner@.len(),
            first_index(inner@, '|', bar as int) == first_index(inner@, '|', 0),
        decreases inner@.len() - bar,
    {
        bar = bar + 1;
    }
    let head = copy_range(&inner, 0, bar);
    proof {
        if bar == inner@.len() {
            assert(head@ =~= inner@);
        } else {
            assert(head@ =~= inner@.take(bar as int));
        }
    }
    let target = trimmed(&head);
    let m = target.len();
    if m < 8 {
        return None;
    }
    let tail = copy_range(&target, m - 8, m);
    proof {
        reveal_strlit(".diagram");
        assert(".diagram"@ =~= seq!['.', 'd', 'i', 'a', 'g', 'r', 'a', 'm']);
        assert(tail@ =~= target@.skip(m - 8));
    }
    if lowercase_equals(&tail, ".diagram") {
        Some(string_of(&target))
    } else {
        None
    }
}

// ─── Table cells ───────────────────────────────────────────────────────────

/// Tab in a table: the cell after (`row`, `col`), skipping separator rows;
/// past the last row, the first cell of a new row (the flag says a row must
/// be added).
pub open spec fn next_cell_spec(row: int, col: int, sep: Seq<bool>, n: int, max_cols: int) -> (
    int,
    int,
    bool,
)
    decreases n - row + 1,
{
    let (r, c) = if col >= max_cols {
        (row + 1, 0)
    } else {
        (row, col)
    };
    if r >= n || r < 0 {
        (r, 0, true)
    } else if !sep[r] {
        (r, c, false)
    } else {
        next_cell_spec(r + 1, 0, sep, n, max_cols)
    }
}

/// Shift-Tab in a table: the cell before (`row`, `col`), skipping separator
/// rows; before the first cell, the first cell.
pub open spec fn prev_cell_spec(row: int, col: int, sep: Seq<bool>, max_cols: int) -> (int, int, bool)
    decreases row + 2,
{
    let (r, c) = if col < 0 {
        (row - 1, max_cols - 1)
    } else {
        (row, col)
    };
    if r < 0 || r >= sep.len() {
        (0, 0, false)
    } else if !sep[r] {
        (r, c, false)
    } else {
        prev_cell_spec(r - 1, max_cols - 1, sep, max_cols)
    }
}

/// The cell Tab moves to from (`row`, `col`) in a table of `rows`.
pub fn next_table_cell(
    row: usize,
    col: usize,
    rows: &[Vec<String>],
    is_separator: &[bool],
    max_cols: usize,
) -> (r: (usize, usize, bool))
    requires
        rows@.len() <= is_separator@.len(),
        rows@.len() < usize::MAX,
        row < usize::MAX,
        col < usize::MAX,
    ensures
        (r.0 as int, r.1 as int, r.2) == next_cell_spec(
            row as int,
            col as int + 1,
            is_separator@,
            rows@.len() as int,
            max_cols as int,
        ),
{
    let n = rows.len();
    let mut r = row;
    let mut c = col + 1;
    loop
        invariant
            n == rows@.len(),
            n <= is_separator@.len(),
            n < usize::MAX,
            r < usize::MAX,
            r <= row || r <= n,
            next_cell_spec(r as int, c as int, is_separator@, n as int, max_cols as int)
                == next_cell_spec(row as int, col as int + 1, is_separator@, n as int, max_cols as int),
        decreases n - r + 1,
    {
        if c >= max_cols {
            c = 0;
            r = r + 1;
        }
        if r >= n {
            return (r, 0, true);
        }
        if !is_separator[r] {
            return (r, c, false);
        }
        c = 0;
        r = r + 1;
    }
}

/// The cell Shift-Tab moves to from (`row`, `col`) in a table of `rows`.
pub fn prev_table_cell(
    row: usize,
    col: usize,
    rows: &[Vec<String>],
    is_separator: &[bool],
    max_cols: usize,
) -> (r: (usize, usize, bool))
    requires
        (if col == 0 {
            row - 1
        } else {
            row as int
        }) < is_separator@.len(),
        row <= isize::MAX,
        col <= isize::MAX,
        1 <= max_cols <= isize::MAX,
    ensures
        (r.0 as int, r.1 as int, r.2) == prev_cell_spec(row as int, col as int - 1, is_separator@, max_cols as int),
{
    let ghost sep = is_separator@;
    let mut r: isize = row as isize;
    let mut c: isize = col as isize - 1;
    loop
        invariant
            sep == is_separator@,
            -1 <= r <= row,
            c < 0 ==> r - 1 < sep.len(),
            c >= 0 ==> r < sep.len(),
            row <= isize::MAX,
            -1 <= c <= isize::MAX,
            1 <= max_cols <= isize::MAX,
            prev_cell_spec(r as int, c as int, sep, max_cols as int) == prev_cell_spec(
                row as int,
                col as int - 1,
                sep,
                max_cols as int,
            ),
        decreases r + 2,
    {
        if c < 0 {
            c = max_cols as isize - 1;
            r = r - 1;
        }
        if r < 0 {
            return (0, 0, false);
        }
        if !is_separator[r as usize] {
            return (r as usize, c as usize, false);
        }
        c = max_cols as isize - 1;
        r = r - 1;
    }
}

} // verus!
