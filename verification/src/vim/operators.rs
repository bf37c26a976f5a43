//! Applying vim operators to the range a motion spans.
use std::ops::Range;

use vstd::prelude::*;

use crate::bytes::{line_start, line_start_of};
use crate::commands::{CommandView, EditorCommand};
use crate::text::{boundary, slice_text, text_between, to_owned, utf8_bytes};
use super::motion::{goto_line, motion_target};
use super::{ActionView, Motion, Operator, VimAction};

verus! {

/// The byte range a motion spans from `cursor`: whole lines for `Line`
/// (from the start of the cursor's line through `count` newlines), otherwise
/// between the cursor and the motion's target.
pub open spec fn op_range(m: Motion, b: Seq<u8>, t: Seq<char>, cursor: int, count: nat) -> (int, int) {
    if m == Motion::Line {
        (line_start(b, cursor), goto_line(b, cursor, count))
    } else {
        let target = motion_target(m, b, t, cursor, count);
        if target < cursor {
            (target, cursor)
        } else {
            (cursor, target)
        }
    }
}

/// What applying an operator to the bytes from `start` to `end` of `t`
/// yields: nothing for an empty range; otherwise delete (and enter insert
/// mode for `Change`) or yank the text in the range. The second part says
/// whether the range starts and ends characters, which slicing needs.
pub open spec fn apply_op(op: Operator, start: int, end: int, t: Seq<char>) -> (ActionView, bool) {
    let b = utf8_bytes(t);
    if start == end {
        (ActionView::NoAction, true)
    } else {
        let ok = 0 <= start <= end <= b.len() && boundary(b, start) && boundary(b, end);
        let yanked = text_between(t, start, end);
        let r = Range { start: start as usize, end: end as usize };
        (
            match op {
                Operator::Delete => ActionView::OperatorResult {
                    delete_range: r,
                    yank_text: yanked,
                    enter_insert: false,
                },
                Operator::Change => ActionView::OperatorResult {
                    delete_range: r,
                    yank_text: yanked,
                    enter_insert: true,
                },
                Operator::Yank => ActionView::Commands(seq![CommandView::YankText(yanked)]),
                Operator::Indent | Operator::Dedent => ActionView::NoAction,
            },
            ok,
        )
    }
}

/// Compute the byte range for a motion (used by operators).
pub fn compute_motion_range(motion: &Motion, content: &str, cursor: usize, count: usize) -> (r: (
    usize,
    usize,
))
    requires
        cursor <= utf8_bytes(content@).len(),
    ensures
        (r.0 as int, r.1 as int) == op_range(*motion, utf8_bytes(content@), content@, cursor as int, count as nat),
        r.0 <= r.1 <= utf8_bytes(content@).len(),
{
    let bytes = content.as_bytes();
    match motion {
        Motion::Line => {
            let ls = line_start_of(bytes, cursor);
            let len = bytes.len();
            let mut end = cursor;
            let mut i: usize = 0;
            while i < count
                invariant
                    i <= count,
                    len == bytes@.len(),
                    end <= len,
                    ls == line_start(bytes@, cursor as int),
                    ls <= cursor <= end,
                    *motion == Motion::Line,
                    bytes@ == utf8_bytes(content@),
                    goto_line(bytes@, end as int, (count - i) as nat) == goto_line(bytes@, cursor as int, count as nat),
                decreases count - i,
            {
                let e = crate::bytes::line_end_of(bytes, end);
                if e < len {
                    end = e + 1;
                } else {
                    assert(goto_line(bytes@, end as int, (count - i) as nat) == len);
                    end = len;
                    return (ls, end);
                }
                i = i + 1;
            }
            (ls, end)
        },
        _ => {
            let target = super::targets::compute_motion_target(motion, content, cursor, count);
            if target < cursor {
                (target, cursor)
            } else {
                (cursor, target)
            }
        },
    }
}

/// Apply an operator to a range.
pub fn apply_operator(op: Operator, start: usize, end: usize, content: &str) -> (a: VimAction)
    requires
        apply_op(op, start as int, end as int, content@).1,
    ensures
        a@ == apply_op(op, start as int, end as int, content@).0,
{
    if start == end {
        return VimAction::NoAction;
    }
    let yanked = to_owned(slice_text(content, start, end));
    match op {
        Operator::Delete => VimAction::OperatorResult {
            delete_range: Range { start, end },
            yank_text: yanked,
            enter_insert: false,
        },
        Operator::Change => VimAction::OperatorResult {
            delete_range: Range { start, end },
            yank_text: yanked,
            enter_insert: true,
        },
        Operator::Yank => {
            let mut v: Vec<EditorCommand> = Vec::new();
            v.push(EditorCommand::YankText(yanked));
            assert(crate::commands::commands_view(v@) =~= seq![CommandView::YankText(text_between(content@, start as int, end as int))]);
            VimAction::Commands(v)
        },
        Operator::Indent | Operator::Dedent => VimAction::NoAction,
    }
}

} // verus!
