//! Normal-mode key handling.
use std::ops::Range;

use vstd::prelude::*;

use crate::bytes::{
    line_end, line_end_of, line_start, line_start_of, next_boundary, next_char_boundary, nl,
    prev_boundary, prev_char_boundary, scan_forward, scan_fwd, Class,
};
use crate::commands::{commands_view, CommandView, EditorCommand};
use crate::keymap::EditorMode;
use crate::text::{
    boundary, char_at, char_at_byte, char_is_uppercase, char_lowercase, char_to_lowercase,
    char_to_uppercase, char_uppercase, ends_with_newline, to_owned, uppercase_char, utf8_bytes,
};
use super::motion::first_nonblank_target;
use super::operators::{apply_op, apply_operator, compute_motion_range, op_range};
use super::targets::compute_motion_target;
use super::{
    eff_count,
    cleared, resolve_spec, ActionView, Motion, Operator, VimAction, VimState, VimView, WaitingFor,
};

verus! {

/// The offset just past the character at `pos`, unless `pos` is at a
/// newline or at the end of the text.
pub open spec fn char_step(b: Seq<u8>, pos: int) -> int {
    if pos < b.len() && b[pos] != nl() {
        next_boundary(b, pos)
    } else {
        pos
    }
}

/// `J`: where the deletion that joins the line whose newline is at `nlpos`
/// ends: past the blanks that begin the next line, or just past the newline
/// when nothing but blanks follows it.
pub open spec fn join_end(b: Seq<u8>, nlpos: int) -> int {
    let q = scan_fwd(b, nlpos + 1, Class::Blank);
    if q < b.len() {
        q
    } else {
        nlpos + 1
    }
}

/// `<<`: how many leading spaces of the line starting at `ls` go: at most four.
pub open spec fn dedent_width(b: Seq<u8>, ls: int) -> int {
    let n = scan_fwd(b, ls, Class::SpaceChar) - ls;
    if n < 4 {
        n
    } else {
        4
    }
}

/// Keys that switch mode or start insertion: i I a A o O v V u :
pub open spec fn is_mode_key(k: char) -> bool {
    k == 'i' || k == 'I' || k == 'a' || k == 'A' || k == 'o' || k == 'O' || k == 'v' || k == 'V'
        || k == 'u' || k == ':'
}

/// What a mode key does, in a text `t` with the cursor at byte `cursor`.
pub open spec fn mode_key_spec(k: char, t: Seq<char>, cursor: int) -> ActionView {
    let b = utf8_bytes(t);
    if k == 'i' {
        ActionView::ChangeMode(EditorMode::Insert)
    } else if k == 'I' {
        ActionView::InsertAt(first_nonblank_target(b, t, cursor) as usize)
    } else if k == 'a' {
        ActionView::InsertAt(char_step(b, cursor) as usize)
    } else if k == 'A' {
        ActionView::InsertAt(line_end(b, cursor) as usize)
    } else if k == 'o' {
        ActionView::Commands(
            seq![CommandView::MoveToOffset(line_end(b, cursor) as usize), CommandView::InsertNewline],
        )
    } else if k == 'O' {
        ActionView::Commands(
            seq![
                CommandView::MoveToOffset(line_start(b, cursor) as usize),
                CommandView::InsertNewline,
                CommandView::MoveUp,
            ],
        )
    } else if k == 'v' {
        ActionView::ChangeMode(EditorMode::Visual)
    } else if k == 'V' {
        ActionView::ChangeMode(EditorMode::VisualLine)
    } else if k == 'u' {
        ActionView::Command(CommandView::Undo)
    } else {
        ActionView::ChangeMode(EditorMode::Command)
    }
}

/// Keys that edit around the cursor at once: s S C D Y J x X ~
pub open spec fn is_edit_key(k: char) -> bool {
    k == 's' || k == 'S' || k == 'C' || k == 'D' || k == 'Y' || k == 'J' || k == 'x' || k == 'X'
        || k == '~'
}

/// An operator applied to `count` whole lines from the cursor's line.
pub open spec fn line_op(op: Operator, t: Seq<char>, cursor: int, count: nat) -> (ActionView, bool) {
    let (start, end) = op_range(Motion::Line, utf8_bytes(t), t, cursor, count);
    apply_op(op, start, end, t)
}

/// What an edit key does; the second part says whether it slices the text
/// at character boundaries only.
pub open spec fn edit_key_spec(k: char, t: Seq<char>, cursor: int) -> (ActionView, bool) {
    let b = utf8_bytes(t);
    let len = b.len() as int;
    if k == 's' || k == 'x' {
        let e = char_step(b, cursor);
        if e > cursor {
            apply_op(if k == 's' { Operator::Change } else { Operator::Delete }, cursor, e, t)
        } else if k == 's' {
            (ActionView::ChangeMode(EditorMode::Insert), true)
        } else {
            (ActionView::NoAction, true)
        }
    } else if k == 'S' {
        line_op(Operator::Change, t, cursor, 1)
    } else if k == 'Y' {
        line_op(Operator::Yank, t, cursor, 1)
    } else if k == 'C' || k == 'D' {
        let le = line_end(b, cursor);
        if le > cursor {
            apply_op(if k == 'C' { Operator::Change } else { Operator::Delete }, cursor, le, t)
        } else if k == 'C' {
            (ActionView::ChangeMode(EditorMode::Insert), true)
        } else {
            (ActionView::NoAction, true)
        }
    } else if k == 'J' {
        let le = line_end(b, cursor);
        if le < len {
            (
                ActionView::OperatorResult {
                    delete_range: Range { start: le as usize, end: join_end(b, le) as usize },
                    yank_text: Seq::<char>::empty(),
                    enter_insert: false,
                },
                true,
            )
        } else {
            (ActionView::NoAction, true)
        }
    } else if k == 'X' {
        let ls = line_start(b, cursor);
        let start = if cursor > ls {
            prev_boundary(b, cursor)
        } else {
            cursor
        };
        if start < cursor {
            apply_op(Operator::Delete, start, cursor, t)
        } else {
            (ActionView::NoAction, true)
        }
    } else {
        // `~`
        if cursor < len {
            let ch = char_at_byte(t, cursor);
            (
                if ch == '\n' {
                    ActionView::NoAction
                } else {
                    ActionView::ReplaceAndAdvance(
                        if uppercase_char(ch) {
                            char_lowercase(ch)
                        } else {
                            char_uppercase(ch)
                        },
                        Range { start: cursor as usize, end: next_boundary(b, cursor) as usize },
                    )
                },
                boundary(b, cursor),
            )
        } else {
            (ActionView::NoAction, true)
        }
    }
}

/// Keys that name an operator: d c y > <
pub open spec fn key_operator(k: char) -> Option<Operator> {
    if k == 'd' {
        Some(Operator::Delete)
    } else if k == 'c' {
        Some(Operator::Change)
    } else if k == 'y' {
        Some(Operator::Yank)
    } else if k == '>' {
        Some(Operator::Indent)
    } else if k == '<' {
        Some(Operator::Dedent)
    } else {
        None
    }
}

/// An operator key typed twice (`dd`, `cc`, `yy`, `>>`, `<<`) acts on the
/// cursor's line (`dd`, `cc` and `yy` on as many lines as the count says);
/// typed once it waits for a motion.
pub open spec fn operator_key_spec(s: VimView, op: Operator, t: Seq<char>, cursor: int) -> (
    VimView,
    ActionView,
    bool,
) {
    let b = utf8_bytes(t);
    if s.pending_operator == Some(op) {
        let ls = line_start(b, cursor);
        match op {
            Operator::Indent => (
                cleared(s),
                ActionView::Commands(
                    seq![
                        CommandView::MoveToOffset(ls as usize),
                        CommandView::InsertText(seq![' ', ' ', ' ', ' ']),
                    ],
                ),
                true,
            ),
            Operator::Dedent => {
                let w = dedent_width(b, ls);
                (
                    cleared(s),
                    if w > 0 {
                        ActionView::OperatorResult {
                            delete_range: Range { start: ls as usize, end: (ls + w) as usize },
                            yank_text: Seq::<char>::empty(),
                            enter_insert: false,
                        }
                    } else {
                        ActionView::NoAction
                    },
                    true,
                )
            },
            _ => {
                let (a, ok) = line_op(op, t, cursor, eff_count(s) as nat);
                (cleared(s), a, ok)
            },
        }
    } else {
        (VimView { pending_operator: Some(op), ..s }, ActionView::NoAction, true)
    }
}

/// `p` and `P`: paste the register after (`p`) or before (`P`) the cursor;
/// text that ends with a newline goes in whole lines.
pub open spec fn paste_spec(k: char, reg: Seq<char>, t: Seq<char>, cursor: int) -> ActionView {
    let b = utf8_bytes(t);
    if reg.len() == 0 {
        ActionView::NoAction
    } else if reg.last() == '\n' {
        let target = if k == 'p' {
            let le = line_end(b, cursor);
            if le < b.len() {
                le + 1
            } else {
                b.len() as int
            }
        } else {
            line_start(b, cursor)
        };
        ActionView::Commands(
            seq![CommandView::MoveToOffset(target as usize), CommandView::InsertText(reg)],
        )
    } else if k == 'p' {
        ActionView::Commands(
            seq![
                CommandView::MoveToOffset(next_boundary(b, cursor) as usize),
                CommandView::InsertText(reg),
            ],
        )
    } else {
        ActionView::Commands(seq![CommandView::InsertText(reg)])
    }
}

/// Keys that wait for one more key: f F t T r g
pub open spec fn key_waits_for(k: char) -> Option<WaitingFor> {
    if k == 'f' {
        Some(WaitingFor::FindChar)
    } else if k == 'F' {
        Some(WaitingFor::FindCharBackward)
    } else if k == 't' {
        Some(WaitingFor::TilChar)
    } else if k == 'T' {
        Some(WaitingFor::TilCharBackward)
    } else if k == 'r' {
        Some(WaitingFor::Replace)
    } else if k == 'g' {
        Some(WaitingFor::GPrefix)
    } else {
        None
    }
}

/// The same character search in the other direction (`,`).
pub open spec fn reversed_search(m: Motion) -> Motion {
    match m {
        Motion::FindChar(c) => Motion::FindCharBackward(c),
        Motion::FindCharBackward(c) => Motion::FindChar(c),
        Motion::TilChar(c) => Motion::TilCharBackward(c),
        Motion::TilCharBackward(c) => Motion::TilChar(c),
        other => other,
    }
}

/// Keys that are motions: h l j k w W b B e E 0 ^ $ _ { } %
pub open spec fn key_motion(k: char) -> Option<Motion> {
    if k == 'h' {
        Some(Motion::Left)
    } else if k == 'l' {
        Some(Motion::Right)
    } else if k == 'j' {
        Some(Motion::Down)
    } else if k == 'k' {
        Some(Motion::Up)
    } else if k == 'w' {
        Some(Motion::WordForward)
    } else if k == 'W' {
        Some(Motion::BigWordForward)
    } else if k == 'b' {
        Some(Motion::WordBackward)
    } else if k == 'B' {
        Some(Motion::BigWordBackward)
    } else if k == 'e' {
        Some(Motion::WordEnd)
    } else if k == 'E' {
        Some(Motion::BigWordEnd)
    } else if k == '0' {
        Some(Motion::LineStart)
    } else if k == '^' || k == '_' {
        Some(Motion::FirstNonWhitespace)
    } else if k == '$' {
        Some(Motion::LineEnd)
    } else if k == '{' {
        Some(Motion::ParagraphBackward)
    } else if k == '}' {
        Some(Motion::ParagraphForward)
    } else if k == '%' {
        Some(Motion::MatchingBracket)
    } else {
        None
    }
}

/// A one-character key in normal mode, once counts and awaited keys are
/// dealt with. The third part says whether the key is handled without
/// slicing the text inside a character.
pub open spec fn char_key_spec(s: VimView, k: char, t: Seq<char>, cursor: int) -> (
    VimView,
    ActionView,
    bool,
) {
    if is_mode_key(k) {
        (cleared(s), mode_key_spec(k, t, cursor), true)
    } else if is_edit_key(k) {
        let (a, ok) = edit_key_spec(k, t, cursor);
        (cleared(s), a, ok)
    } else if key_operator(k) is Some {
        operator_key_spec(s, key_operator(k)->0, t, cursor)
    } else if k == 'p' || k == 'P' {
        (cleared(s), paste_spec(k, s.register_content, t, cursor), true)
    } else if k == '.' {
        (
            cleared(s),
            match s.last_change {
                Some(cs) => ActionView::Commands(cs),
                None => ActionView::NoAction,
            },
            true,
        )
    } else if key_waits_for(k) is Some {
        (VimView { waiting: key_waits_for(k), ..s }, ActionView::NoAction, true)
    } else if k == ';' || k == ',' {
        match s.last_char_search {
            Some(m) => resolve_spec(
                s,
                if k == ';' {
                    m
                } else {
                    reversed_search(m)
                },
                t,
                cursor,
            ),
            None => (s, ActionView::NoAction, true),
        }
    } else if key_motion(k) is Some {
        resolve_spec(s, key_motion(k)->0, t, cursor)
    } else if k == 'G' {
        resolve_spec(
            cleared(s),
            match s.count {
                Some(n) => Motion::GotoLine(n),
                None => Motion::DocEnd,
            },
            t,
            cursor,
        )
    } else {
        (cleared(s), ActionView::NoAction, true)
    }
}

/// A key in normal mode that is not a count digit and not awaited: a
/// one-character command, or a named key such as "escape", which only
/// clears what was pending.
pub open spec fn dispatch_spec(s: VimView, key: Seq<char>, t: Seq<char>, cursor: int) -> (
    VimView,
    ActionView,
    bool,
) {
    if key.len() == 1 {
        char_key_spec(s, key[0], t, cursor)
    } else {
        (cleared(s), ActionView::NoAction, true)
    }
}

/// The offset past the character at `pos` unless it is a newline or the end.
fn char_step_exec(bytes: &[u8], pos: usize) -> (r: usize)
    requires
        pos <= bytes@.len(),
    ensures
        r == char_step(bytes@, pos as int),
{
    if pos < bytes.len() && bytes[pos] != 10 {
        next_char_boundary(bytes, pos)
    } else {
        pos
    }
}

fn mode_key(k: char, content: &str, cursor: usize) -> (a: VimAction)
    requires
        is_mode_key(k),
        cursor <= utf8_bytes(content@).len(),
    ensures
        a@ == mode_key_spec(k, content@, cursor as int),
{
    let bytes = content.as_bytes();
    if k == 'i' {
        VimAction::ChangeMode(EditorMode::Insert)
    } else if k == 'I' {
        VimAction::InsertAt(compute_motion_target(&Motion::FirstNonWhitespace, content, cursor, 1))
    } else if k == 'a' {
        VimAction::InsertAt(char_step_exec(bytes, cursor))
    } else if k == 'A' {
        VimAction::InsertAt(line_end_of(bytes, cursor))
    } else if k == 'o' {
        let le = line_end_of(bytes, cursor);
        let v = vec![EditorCommand::MoveToOffset(le), EditorCommand::InsertNewline];
        assert(commands_view(v@) =~= seq![CommandView::MoveToOffset(le), CommandView::InsertNewline]);
        VimAction::Commands(v)
    } else if k == 'O' {
        let ls = line_start_of(bytes, cursor);
        let v = vec![
            EditorCommand::MoveToOffset(ls),
            EditorCommand::InsertNewline,
            EditorCommand::MoveUp,
        ];
        assert(commands_view(v@) =~= seq![
            CommandView::MoveToOffset(ls),
            CommandView::InsertNewline,
            CommandView::MoveUp,
        ]);
        VimAction::Commands(v)
    } else if k == 'v' {
        VimAction::ChangeMode(EditorMode::Visual)
    } else if k == 'V' {
        VimAction::ChangeMode(EditorMode::VisualLine)
    } else if k == 'u' {
        VimAction::Command(EditorCommand::Undo)
    } else {
        VimAction::ChangeMode(EditorMode::Command)
    }
}

fn edit_key(k: char, content: &str, cursor: usize) -> (a: VimAction)
    requires
        is_edit_key(k),
        cursor <= utf8_bytes(content@).len(),
        edit_key_spec(k, content@, cursor as int).1,
    ensures
        a@ == edit_key_spec(k, content@, cursor as int).0,
{
    let bytes = content.as_bytes();
    let len = bytes.len();
    if k == 's' || k == 'x' {
        let e = char_step_exec(bytes, cursor);
        if e > cursor {
            apply_operator(if k == 's' { Operator::Change } else { Operator::Delete }, cursor, e, content)
        } else if k == 's' {
            VimAction::ChangeMode(EditorMode::Insert)
        } else {
            VimAction::NoAction
        }
    } else if k == 'S' || k == 'Y' {
        let (start, end) = compute_motion_range(&Motion::Line, content, cursor, 1);
        apply_operator(if k == 'S' { Operator::Change } else { Operator::Yank }, start, end, content)
    } else if k == 'C' || k == 'D' {
        let le = line_end_of(bytes, cursor);
        if le > cursor {
            apply_operator(if k == 'C' { Operator::Change } else { Operator::Delete }, cursor, le, content)
        } else if k == 'C' {
            VimAction::ChangeMode(EditorMode::Insert)
        } else {
            VimAction::NoAction
        }
    } else if k == 'J' {
        let le = line_end_of(bytes, cursor);
        if le < len {
            let q = scan_forward(bytes, le + 1, Class::Blank);
            let trimmed = if q < len {
                q
            } else {
                le + 1
            };
            VimAction::OperatorResult {
                delete_range: Range { start: le, end: trimmed },
                yank_text: String::new(),
                enter_insert: false,
            }
        } else {
            VimAction::NoAction
        }
    } else if k == 'X' {
        let ls = line_start_of(bytes, cursor);
        let start = if cursor > ls {
            prev_char_boundary(bytes, cursor)
        } else {
            cursor
        };
        if start < cursor {
            apply_operator(Operator::Delete, start, cursor, content)
        } else {
            VimAction::NoAction
        }
    } else {
        // `~`: toggle the case of the character under the cursor.
        if cursor < len {
            let ch = char_at(content, cursor);
            if ch == '\n' {
                return VimAction::NoAction;
            }
            let toggled = if char_is_uppercase(ch) {
                char_to_lowercase(ch)
            } else {
                char_to_uppercase(ch)
            };
            let end = next_char_boundary(bytes, cursor);
            VimAction::ReplaceAndAdvance(toggled, Range { start: cursor, end })
        } else {
            VimAction::NoAction
        }
    }
}

/// The operator a key names, if any.
fn operator_of_key(k: char) -> (r: Option<Operator>)
    ensures
        r == key_operator(k),
{
    if k == 'd' {
        Some(Operator::Delete)
    } else if k == 'c' {
        Some(Operator::Change)
    } else if k == 'y' {
        Some(Operator::Yank)
    } else if k == '>' {
        Some(Operator::Indent)
    } else if k == '<' {
        Some(Operator::Dedent)
    } else {
        None
    }
}

fn operator_key(state: &mut VimState, op: Operator, content: &str, cursor: usize) -> (a: VimAction)
    requires
        cursor <= utf8_bytes(content@).len(),
        operator_key_spec(old(state)@, op, content@, cursor as int).2,
    ensures
        final(state)@ == operator_key_spec(old(state)@, op, content@, cursor as int).0,
        a@ == operator_key_spec(old(state)@, op, content@, cursor as int).1,
{
    let repeated = match (state.pending_operator, op) {
        (Some(Operator::Delete), Operator::Delete) => true,
        (Some(Operator::Change), Operator::Change) => true,
        (Some(Operator::Yank), Operator::Yank) => true,
        (Some(Operator::Indent), Operator::Indent) => true,
        (Some(Operator::Dedent), Operator::Dedent) => true,
        _ => false,
    };
    if !repeated {
        state.pending_operator = Some(op);
        return VimAction::NoAction;
    }
    let count = state.effective_count();
    state.clear_pending();
    let bytes = content.as_bytes();
    match op {
        Operator::Indent => {
            let ls = line_start_of(bytes, cursor);
            let indent = to_owned("    ");
            proof {
                reveal_strlit("    ");
                assert("    "@ =~= seq![' ', ' ', ' ', ' ']);
            }
            let v = vec![EditorCommand::MoveToOffset(ls), EditorCommand::InsertText(indent)];
            assert(commands_view(v@) =~= seq![
                CommandView::MoveToOffset(ls),
                CommandView::InsertText(seq![' ', ' ', ' ', ' ']),
            ]);
            VimAction::Commands(v)
        },
        Operator::Dedent => {
            let ls = line_start_of(bytes, cursor);
            proof {
                crate::bytes::lemma_scan_fwd(bytes@, ls as int, Class::SpaceChar);
            }
            let n = scan_forward(bytes, ls, Class::SpaceChar) - ls;
            let w = if n < 4 {
                n
            } else {
                4
            };
            if w > 0 {
                VimAction::OperatorResult {
                    delete_range: Range { start: ls, end: ls + w },
                    yank_text: String::new(),
                    enter_insert: false,
                }
            } else {
                VimAction::NoAction
            }
        },
        _ => {
            let (start, end) = compute_motion_range(&Motion::Line, content, cursor, count);
            apply_operator(op, start, end, content)
        },
    }
}

fn paste_key(k: char, reg: &String, content: &str, cursor: usize) -> (a: VimAction)
    requires
        k == 'p' || k == 'P',
        cursor <= utf8_bytes(content@).len(),
    ensures
        a@ == paste_spec(k, reg@, content@, cursor as int),
{
    let text = reg.clone();
    if text.as_str().is_empty() {
        return VimAction::NoAction;
    }
    let bytes = content.as_bytes();
    let v = if ends_with_newline(text.as_str()) {
        let target = if k == 'p' {
            let le = line_end_of(bytes, cursor);
            if le < bytes.len() {
                le + 1
            } else {
                bytes.len()
            }
        } else {
            line_start_of(bytes, cursor)
        };
        vec![EditorCommand::MoveToOffset(target), EditorCommand::InsertText(text)]
    } else if k == 'p' {
        let target = next_char_boundary(bytes, cursor);
        vec![EditorCommand::MoveToOffset(target), EditorCommand::InsertText(text)]
    } else {
        vec![EditorCommand::InsertText(text)]
    };
    assert(commands_view(v@) =~= paste_spec(k, reg@, content@, cursor as int)->Commands_0);
    VimAction::Commands(v)
}

/// Copies a list of commands.
fn copy_commands(cs: &Vec<EditorCommand>) -> (r: Vec<EditorCommand>)
    ensures
        commands_view(r@) == commands_view(cs@),
{
    let mut r: Vec<EditorCommand> = Vec::new();
    let mut i: usize = 0;
    while i < cs.len()
        invariant
            i <= cs@.len(),
            r@ == cs@.take(i as int),
        decreases cs@.len() - i,
    {
        r.push(cs[i].clone());
        i = i + 1;
        assert(r@ =~= cs@.take(i as int));
    }
    assert(cs@.take(cs@.len() as int) =~= cs@);
    r
}

/// The awaited-key state a key starts, if any.
fn waiting_of_key(k: char) -> (r: Option<WaitingFor>)
    ensures
        r == key_waits_for(k),
{
    if k == 'f' {
        Some(WaitingFor::FindChar)
    } else if k == 'F' {
        Some(WaitingFor::FindCharBackward)
    } else if k == 't' {
        Some(WaitingFor::TilChar)
    } else if k == 'T' {
        Some(WaitingFor::TilCharBackward)
    } else if k == 'r' {
        Some(WaitingFor::Replace)
    } else if k == 'g' {
        Some(WaitingFor::GPrefix)
    } else {
        None
    }
}

/// The motion a key names, if any.
fn motion_of_key(k: char) -> (r: Option<Motion>)
    ensures
        r == key_motion(k),
{
    if k == 'h' {
        Some(Motion::Left)
    } else if k == 'l' {
        Some(Motion::Right)
    } else if k == 'j' {
        Some(Motion::Down)
    } else if k == 'k' {
        Some(Motion::Up)
    } else if k == 'w' {
        Some(Motion::WordForward)
    } else if k == 'W' {
        Some(Motion::BigWordForward)
    } else if k == 'b' {
        Some(Motion::WordBackward)
    } else if k == 'B' {
        Some(Motion::BigWordBackward)
    } else if k == 'e' {
        Some(Motion::WordEnd)
    } else if k == 'E' {
        Some(Motion::BigWordEnd)
    } else if k == '0' {
        Some(Motion::LineStart)
    } else if k == '^' || k == '_' {
        Some(Motion::FirstNonWhitespace)
    } else if k == '$' {
        Some(Motion::LineEnd)
    } else if k == '{' {
        Some(Motion::ParagraphBackward)
    } else if k == '}' {
        Some(Motion::ParagraphForward)
    } else if k == '%' {
        Some(Motion::MatchingBracket)
    } else {
        None
    }
}

/// The reverse of a character search.
fn reverse_search(m: Motion) -> (r: Motion)
    ensures
        r == reversed_search(m),
{
    match m {
        Motion::FindChar(c) => Motion::FindCharBackward(c),
        Motion::FindCharBackward(c) => Motion::FindChar(c),
        Motion::TilChar(c) => Motion::TilCharBackward(c),
        Motion::TilCharBackward(c) => Motion::TilChar(c),
        other => other,
    }
}

/// Whether the bytes from `start` to `end` can be handed to an operator:
/// an empty range, or one that starts and ends characters.
fn range_ok(content: &str, start: usize, end: usize) -> (r: bool)
    ensures
        r == apply_op(Operator::Delete, start as int, end as int, content@).1,
{
    let bytes = content.as_bytes();
    let n = bytes.len();
    if start == end {
        return true;
    }
    start <= end && end <= n && (start == n || !(bytes[start] >= 0x80 && bytes[start] <= 0xbf)) && (end == n
        || !(bytes[end] >= 0x80 && bytes[end] <= 0xbf))
}

/// Whether resolving the motion `m` slices the text at character starts
/// only (it slices only when an operator is pending).
pub fn resolve_ok(state: &VimState, m: Motion, content: &str, cursor: usize) -> (r: bool)
    requires
        cursor <= utf8_bytes(content@).len(),
    ensures
        r == resolve_spec(state@, m, content@, cursor as int).2,
{
    match state.pending_operator {
        Some(op) => {
            let (start, end) = compute_motion_range(&m, content, cursor, state.effective_count());
            range_ok(content, start, end)
        },
        None => true,
    }
}

/// Whether the edit key `k` slices the text at character starts only.
fn edit_key_ok(k: char, content: &str, cursor: usize) -> (r: bool)
    requires
        is_edit_key(k),
        cursor <= utf8_bytes(content@).len(),
    ensures
        r == edit_key_spec(k, content@, cursor as int).1,
{
    let bytes = content.as_bytes();
    let len = bytes.len();
    if k == 's' || k == 'x' {
        let e = char_step_exec(bytes, cursor);
        e <= cursor || range_ok(content, cursor, e)
    } else if k == 'S' || k == 'Y' {
        let (start, end) = compute_motion_range(&Motion::Line, content, cursor, 1);
        range_ok(content, start, end)
    } else if k == 'C' || k == 'D' {
        let le = line_end_of(bytes, cursor);
        le <= cursor || range_ok(content, cursor, le)
    } else if k == 'J' {
        true
    } else if k == 'X' {
        let ls = line_start_of(bytes, cursor);
        let start = if cursor > ls {
            prev_char_boundary(bytes, cursor)
        } else {
            cursor
        };
        start >= cursor || range_ok(content, start, cursor)
    } else {
        cursor >= len || !(bytes[cursor] >= 0x80 && bytes[cursor] <= 0xbf)
    }
}

/// Whether `handle_normal_key` can take this key (one that is not a count
/// digit nor awaited): no range it slices splits a character.
pub fn dispatch_ok(state: &VimState, key: &str, content: &str, cursor: usize) -> (r: bool)
    requires
        cursor <= utf8_bytes(content@).len(),
    ensures
        r == dispatch_spec(state@, key@, content@, cursor as int).2,
{
    if key.unicode_len() != 1 {
        return true;
    }
    let k = key.get_char(0);
    if k == 'i' || k == 'I' || k == 'a' || k == 'A' || k == 'o' || k == 'O' || k == 'v' || k == 'V'
        || k == 'u' || k == ':' {
        return true;
    }
    if k == 's' || k == 'S' || k == 'C' || k == 'D' || k == 'Y' || k == 'J' || k == 'x' || k == 'X'
        || k == '~' {
        return edit_key_ok(k, content, cursor);
    }
    match operator_of_key(k) {
        Some(op) => {
            let repeated = match (state.pending_operator, op) {
                (Some(Operator::Delete), Operator::Delete) => true,
                (Some(Operator::Change), Operator::Change) => true,
                (Some(Operator::Yank), Operator::Yank) => true,
                _ => false,
            };
            if repeated {
                let (start, end) = compute_motion_range(&Motion::Line, content, cursor, state.effective_count());
                return range_ok(content, start, end);
            }
            return true;
        },
        None => {},
    }
    if k == 'p' || k == 'P' || k == '.' {
        return true;
    }
    match waiting_of_key(k) {
        Some(_) => {
            return true;
        },
        None => {},
    }
    if k == ';' || k == ',' {
        return match state.last_char_search {
            Some(m) => {
                let motion = if k == ';' {
                    m
                } else {
                    reverse_search(m)
                };
                resolve_ok(state, motion, content, cursor)
            },
            None => true,
        };
    }
    match motion_of_key(k) {
        Some(m) => {
            return resolve_ok(state, m, content, cursor);
        },
        None => {},
    }
    true
}

pub fn handle_normal_key(state: &mut VimState, key: &str, content: &str, cursor: usize) -> (a: VimAction)
    requires
        cursor <= utf8_bytes(content@).len(),
        dispatch_spec(old(state)@, key@, content@, cursor as int).2,
    ensures
        final(state)@ == dispatch_spec(old(state)@, key@, content@, cursor as int).0,
        a@ == dispatch_spec(old(state)@, key@, content@, cursor as int).1,
{
    if key.unicode_len() != 1 {
        state.clear_pending();
        return VimAction::NoAction;
    }
    let k = key.get_char(0);
    if k == 'i' || k == 'I' || k == 'a' || k == 'A' || k == 'o' || k == 'O' || k == 'v' || k == 'V'
        || k == 'u' || k == ':' {
        state.clear_pending();
        return mode_key(k, content, cursor);
    }
    if k == 's' || k == 'S' || k == 'C' || k == 'D' || k == 'Y' || k == 'J' || k == 'x' || k == 'X'
        || k == '~' {
        state.clear_pending();
        return edit_key(k, content, cursor);
    }
    match operator_of_key(k) {
        Some(op) => {
            return operator_key(state, op, content, cursor);
        },
        None => {},
    }
    if k == 'p' || k == 'P' {
        state.clear_pending();
        return paste_key(k, &state.register_content, content, cursor);
    }
    if k == '.' {
        state.clear_pending();
        return match &state.last_change {
            Some(change) => VimAction::Commands(copy_commands(&change.commands)),
            None => VimAction::NoAction,
        };
    }
    match waiting_of_key(k) {
        Some(w) => {
            state.waiting_for_char = Some(w);
            return VimAction::NoAction;
        },
        None => {},
    }
    if k == ';' || k == ',' {
        return match state.last_char_search {
            Some(m) => {
                let motion = if k == ';' {
                    m
                } else {
                    reverse_search(m)
                };
                state.resolve_motion_or_operator(motion, content, cursor)
            },
            None => VimAction::NoAction,
        };
    }
    match motion_of_key(k) {
        Some(m) => {
            return state.resolve_motion_or_operator(m, content, cursor);
        },
        None => {},
    }
    if k == 'G' {
        let count = state.count;
        state.clear_pending();
        let m = match count {
            Some(n) => Motion::GotoLine(n),
            None => Motion::DocEnd,
        };
        return state.resolve_motion_or_operator(m, content, cursor);
    }
    state.clear_pending();
    VimAction::NoAction
}

} // verus!
