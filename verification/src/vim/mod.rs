//! Vim emulation: the per-editor state machine that turns keys into actions.
pub mod motion;
pub mod normal;
pub mod operators;
pub mod targets;
pub mod visual;

use std::ops::Range;

use vstd::prelude::*;

use crate::commands::{commands_view, CommandView, EditorCommand};
use crate::keymap::EditorMode;
use crate::text::utf8_bytes;
use self::motion::motion_target;
use self::operators::{apply_op, op_range};

verus! {

/// Vim operator types.
#[derive(Clone, Copy, Debug, PartialEq, Eq, Structural)]
pub enum Operator {
    Delete,
    Change,
    Yank,
    Indent,
    Dedent,
}

/// Vim motion types.
#[derive(Clone, Copy, Debug, PartialEq, Eq, Structural)]
pub enum Motion {
    Left,
    Right,
    Up,
    Down,
    WordForward,
    WordBackward,
    WordEnd,
    /// `W`
    BigWordForward,
    /// `B`
    BigWordBackward,
    /// `E`
    BigWordEnd,
    /// `0`
    LineStart,
    /// `^`
    FirstNonWhitespace,
    /// `$`
    LineEnd,
    /// `dd`, `yy`, `cc`: the entire line
    Line,
    /// `gg`
    DocStart,
    /// `G`
    DocEnd,
    /// `{n}G`
    GotoLine(usize),
    /// `f{char}`
    FindChar(char),
    /// `t{char}`
    TilChar(char),
    /// `F{char}`
    FindCharBackward(char),
    /// `T{char}`
    TilCharBackward(char),
    /// `}`
    ParagraphForward,
    /// `{`
    ParagraphBackward,
    /// `%`
    MatchingBracket,
    /// `>` (motion for operator)
    Indent,
    /// `<` (motion for operator)
    Dedent,
}

/// What we're waiting for after a key press.
#[derive(Clone, Copy, Debug, PartialEq, Eq, Structural)]
pub enum WaitingFor {
    /// `f`
    FindChar,
    /// `t`
    TilChar,
    /// `F`
    FindCharBackward,
    /// `T`
    TilCharBackward,
    /// `r`
    Replace,
    /// `g` (waiting for the second key: `gg`, ...)
    GPrefix,
}

/// A recorded change for dot-repeat.
#[derive(Debug)]
pub struct RecordedChange {
    pub commands: Vec<EditorCommand>,
}

/// Per-editor vim state.
pub struct VimState {
    /// Whether vim mode is enabled.
    pub enabled: bool,
    /// Pending operator (after d, c, y: waiting for a motion).
    pub pending_operator: Option<Operator>,
    /// Accumulated count prefix (e.g. the "3" in "3dw").
    pub count: Option<usize>,
    /// Named register for yank/paste.
    pub register: char,
    /// Yank register contents.
    pub register_content: String,
    /// Pending input state for f/t/r/g.
    pub waiting_for_char: Option<WaitingFor>,
    /// Last change for dot-repeat.
    pub last_change: Option<RecordedChange>,
    /// Last f/t/F/T search for ; and , repeat.
    pub last_char_search: Option<Motion>,
}

/// What the vim state holds.
pub struct VimView {
    pub enabled: bool,
    pub pending_operator: Option<Operator>,
    pub count: Option<usize>,
    pub register: char,
    pub register_content: Seq<char>,
    pub waiting: Option<WaitingFor>,
    pub last_change: Option<Seq<CommandView>>,
    pub last_char_search: Option<Motion>,
}

impl View for VimState {
    type V = VimView;

    open spec fn view(&self) -> VimView {
        VimView {
            enabled: self.enabled,
            pending_operator: self.pending_operator,
            count: self.count,
            register: self.register,
            register_content: self.register_content@,
            waiting: self.waiting_for_char,
            last_change: match self.last_change {
                Some(c) => Some(commands_view(c.commands@)),
                None => None,
            },
            last_char_search: self.last_char_search,
        }
    }
}

/// Result of processing a vim key.
#[derive(Debug)]
pub enum VimAction {
    /// Do nothing (key consumed, waiting for more input).
    NoAction,
    /// Execute a single editor command.
    Command(EditorCommand),
    /// Execute multiple commands in sequence.
    Commands(Vec<EditorCommand>),
    /// Replace character(s) at cursor.
    ReplaceChar(char, usize),
    /// Replace text at range and advance cursor (for ~ toggle case).
    ReplaceAndAdvance(String, Range<usize>),
    /// Change mode.
    ChangeMode(EditorMode),
    /// Switch to insert mode at a specific offset.
    InsertAt(usize),
    /// Delete a range and optionally enter insert mode.
    OperatorResult { delete_range: Range<usize>, yank_text: String, enter_insert: bool },
    /// Request the command palette (vim ":" key).
    RequestCommand,
}

/// What an action holds, with sequences in place of vectors and strings.
pub enum ActionView {
    NoAction,
    Command(CommandView),
    Commands(Seq<CommandView>),
    ReplaceChar(char, usize),
    ReplaceAndAdvance(Seq<char>, Range<usize>),
    ChangeMode(EditorMode),
    InsertAt(usize),
    OperatorResult { delete_range: Range<usize>, yank_text: Seq<char>, enter_insert: bool },
    RequestCommand,
}

impl View for VimAction {
    type V = ActionView;

    open spec fn view(&self) -> ActionView {
        match self {
            VimAction::NoAction => ActionView::NoAction,
            VimAction::Command(c) => ActionView::Command(c@),
            VimAction::Commands(cs) => ActionView::Commands(commands_view(cs@)),
            VimAction::ReplaceChar(c, n) => ActionView::ReplaceChar(*c, *n),
            VimAction::ReplaceAndAdvance(t, r) => ActionView::ReplaceAndAdvance(t@, *r),
            VimAction::ChangeMode(m) => ActionView::ChangeMode(*m),
            VimAction::InsertAt(o) => ActionView::InsertAt(*o),
            VimAction::OperatorResult { delete_range, yank_text, enter_insert } =>
                ActionView::OperatorResult {
                delete_range: *delete_range,
                yank_text: yank_text@,
                enter_insert: *enter_insert,
            },
            VimAction::RequestCommand => ActionView::RequestCommand,
        }
    }
}

/// The state with no operator, count or awaited key pending.
pub open spec fn cleared(s: VimView) -> VimView {
    VimView { pending_operator: None, count: None, waiting: None, ..s }
}

/// The count to use: the typed prefix, or 1.
pub open spec fn eff_count(s: VimView) -> usize {
    match s.count {
        Some(c) => c,
        None => 1,
    }
}

/// The accumulated count after typing `digit`.
pub open spec fn pushed_count(s: VimView, digit: u8) -> int {
    (match s.count {
        Some(c) => c as int,
        None => 0,
    }) * 10 + digit
}

/// A motion typed in normal mode: it moves the cursor, or, when an operator
/// is pending, applies that operator to the text it spans. The third part
/// says whether the range the operator slices starts and ends characters.
pub open spec fn resolve_spec(s: VimView, m: Motion, t: Seq<char>, cursor: int) -> (VimView, ActionView, bool) {
    let count = eff_count(s);
    match s.pending_operator {
        Some(op) => {
            let (start, end) = op_range(m, utf8_bytes(t), t, cursor, count as nat);
            let (a, ok) = apply_op(op, start, end, t);
            (VimView { pending_operator: None, count: None, ..s }, a, ok)
        },
        None => (
            VimView { count: None, ..s },
            ActionView::Command(
                CommandView::MoveToOffset(motion_target(m, utf8_bytes(t), t, cursor, count as nat) as usize),
            ),
            true,
        ),
    }
}

/// The key is one ASCII digit that extends the count ("0" only once a
/// count has started).
pub open spec fn is_count_key(s: VimView, key: Seq<char>) -> bool {
    key.len() > 0 && '0' <= key[0] <= '9' && (key[0] != '0' || s.count is Some)
}

/// A key in normal mode: a character awaited by f/t/F/T/r/g, a count digit,
/// or a command. The third part says whether the key is handled without
/// panicking: count overflow, or an operator range that splits a character.
pub open spec fn normal_key_spec(s: VimView, key: Seq<char>, t: Seq<char>, cursor: int) -> (
    VimView,
    ActionView,
    bool,
) {
    match s.waiting {
        Some(w) => {
            let s1 = VimView { waiting: None, ..s };
            if key.len() == 1 {
                let ch = key[0];
                match w {
                    WaitingFor::FindChar => resolve_spec(
                        VimView { last_char_search: Some(Motion::FindChar(ch)), ..s1 },
                        Motion::FindChar(ch),
                        t,
                        cursor,
                    ),
                    WaitingFor::TilChar => resolve_spec(
                        VimView { last_char_search: Some(Motion::TilChar(ch)), ..s1 },
                        Motion::TilChar(ch),
                        t,
                        cursor,
                    ),
                    WaitingFor::FindCharBackward => resolve_spec(
                        VimView { last_char_search: Some(Motion::FindCharBackward(ch)), ..s1 },
                        Motion::FindCharBackward(ch),
                        t,
                        cursor,
                    ),
                    WaitingFor::TilCharBackward => resolve_spec(
                        VimView { last_char_search: Some(Motion::TilCharBackward(ch)), ..s1 },
                        Motion::TilCharBackward(ch),
                        t,
                        cursor,
                    ),
                    WaitingFor::Replace => (
                        cleared(s1),
                        ActionView::ReplaceChar(ch, eff_count(s1)),
                        true,
                    ),
                    WaitingFor::GPrefix => (
                        cleared(s1),
                        if ch == 'g' || ch == 'd' {
                            ActionView::Command(CommandView::MoveToOffset(0))
                        } else {
                            ActionView::NoAction
                        },
                        true,
                    ),
                }
            } else {
                (cleared(s1), ActionView::NoAction, true)
            }
        },
        None => {
            if is_count_key(s, key) {
                let n = pushed_count(s, (key[0] as u32 - '0' as u32) as u8);
                (
                    VimView { count: Some(n as usize), ..s },
                    ActionView::NoAction,
                    n <= usize::MAX,
                )
            } else {
                normal::dispatch_spec(s, key, t, cursor)
            }
        },
    }
}

impl VimState {
    pub fn new() -> (v: Self)
        ensures
            v@ == (VimView {
                enabled: false,
                pending_operator: None,
                count: None,
                register: '"',
                register_content: Seq::<char>::empty(),
                waiting: None,
                last_change: None,
                last_char_search: None,
            }),
    {
        VimState {
            enabled: false,
            pending_operator: None,
            count: None,
            register: '"',
            register_content: String::new(),
            waiting_for_char: None,
            last_change: None,
            last_char_search: None,
        }
    }

    /// Check if we're in operator-pending state.
    pub fn is_operator_pending(&self) -> (r: bool)
        ensures
            r == (self.pending_operator is Some),
    {
        self.pending_operator.is_some()
    }

    /// Check if we're waiting for a character input (f, t, r, g).
    pub fn is_waiting(&self) -> (r: bool)
        ensures
            r == (self.waiting_for_char is Some),
    {
        self.waiting_for_char.is_some()
    }

    /// Get the effective count (default 1).
    pub fn effective_count(&self) -> (r: usize)
        ensures
            r == eff_count(self@),
    {
        match self.count {
            Some(c) => c,
            None => 1,
        }
    }

    /// Push a digit to the count accumulator.
    pub fn push_count_digit(&mut self, digit: u8)
        requires
            pushed_count(old(self)@, digit) <= usize::MAX,
        ensures
            final(self)@ == (VimView { count: Some(pushed_count(old(self)@, digit) as usize), ..old(self)@ }),
    {
        let current: usize = match self.count {
            Some(c) => c,
            None => 0,
        };
        self.count = Some(current * 10 + digit as usize);
    }

    /// Clear all pending state.
    pub fn clear_pending(&mut self)
        ensures
            final(self)@ == cleared(old(self)@),
    {
        self.pending_operator = None;
        self.count = None;
        self.waiting_for_char = None;
    }

    /// Whether `handle_normal_key` can take this key: the cursor lies in
    /// the text, a count digit keeps the count within `usize`, and no range
    /// the key would slice splits a character.
    pub fn normal_key_ok(&self, key: &str, content: &str, cursor: usize) -> (r: bool)
        ensures
            r == (cursor <= utf8_bytes(content@).len() && normal_key_spec(self@, key@, content@, cursor as int).2),
    {
        if cursor > crate::text::str_byte_len(content) {
            return false;
        }
        match self.waiting_for_char {
            Some(waiting) => {
                if key.unicode_len() != 1 {
                    return true;
                }
                let ch = key.get_char(0);
                match waiting {
                    WaitingFor::FindChar => normal::resolve_ok(self, Motion::FindChar(ch), content, cursor),
                    WaitingFor::TilChar => normal::resolve_ok(self, Motion::TilChar(ch), content, cursor),
                    WaitingFor::FindCharBackward => normal::resolve_ok(
                        self,
                        Motion::FindCharBackward(ch),
                        content,
                        cursor,
                    ),
                    WaitingFor::TilCharBackward => normal::resolve_ok(
                        self,
                        Motion::TilCharBackward(ch),
                        content,
                        cursor,
                    ),
                    WaitingFor::Replace | WaitingFor::GPrefix => true,
                }
            },
            None => {
                if key.unicode_len() > 0 {
                    let digit = key.get_char(0);
                    if digit >= '0' && digit <= '9' && (digit != '0' || self.count.is_some()) {
                        let d = (digit as u32 - '0' as u32) as usize;
                        let current: usize = match self.count {
                            Some(c) => c,
                            None => 0,
                        };
                        return match current.checked_mul(10) {
                            Some(m) => m.checked_add(d).is_some(),
                            None => false,
                        };
                    }
                }
                normal::dispatch_ok(self, key, content, cursor)
            },
        }
    }

    /// Process a key in Normal mode.
    pub fn handle_normal_key(&mut self, key: &str, content: &str, cursor: usize) -> (a: VimAction)
        requires
            cursor <= utf8_bytes(content@).len(),
            normal_key_spec(old(self)@, key@, content@, cursor as int).2,
        ensures
            final(self)@ == normal_key_spec(old(self)@, key@, content@, cursor as int).0,
            a@ == normal_key_spec(old(self)@, key@, content@, cursor as int).1,
    {
        match self.waiting_for_char {
            Some(waiting) => {
                self.waiting_for_char = None;
                let n = key.unicode_len();
                if n == 1 {
                    let ch = key.get_char(0);
                    return match waiting {
                        WaitingFor::FindChar => {
                            self.last_char_search = Some(Motion::FindChar(ch));
                            self.resolve_motion_or_operator(Motion::FindChar(ch), content, cursor)
                        },
                        WaitingFor::TilChar => {
                            self.last_char_search = Some(Motion::TilChar(ch));
                            self.resolve_motion_or_operator(Motion::TilChar(ch), content, cursor)
                        },
                        WaitingFor::FindCharBackward => {
                            self.last_char_search = Some(Motion::FindCharBackward(ch));
                            self.resolve_motion_or_operator(Motion::FindCharBackward(ch), content, cursor)
                        },
                        WaitingFor::TilCharBackward => {
                            self.last_char_search = Some(Motion::TilCharBackward(ch));
                            self.resolve_motion_or_operator(Motion::TilCharBackward(ch), content, cursor)
                        },
                        WaitingFor::Replace => {
                            let count = self.effective_count();
                            self.clear_pending();
                            VimAction::ReplaceChar(ch, count)
                        },
                        WaitingFor::GPrefix => {
                            self.clear_pending();
                            if ch == 'g' {
                                // gg: go to document start
                                VimAction::Command(EditorCommand::MoveToOffset(0))
                            } else if ch == 'd' {
                                // gd: go to definition (the document start for now)
                                VimAction::Command(EditorCommand::MoveToOffset(0))
                            } else {
                                VimAction::NoAction
                            }
                        },
                    };
                }
                self.clear_pending();
                return VimAction::NoAction;
            },
            None => {},
        }
        // Count digits (0 is special: only a count if digits came before).
        if key.unicode_len() > 0 {
            let digit = key.get_char(0);
            if digit >= '0' && digit <= '9' && (digit != '0' || self.count.is_some()) {
                let d = (digit as u32 - '0' as u32) as u8;
                self.push_count_digit(d);
                return VimAction::NoAction;
            }
        }
        normal::handle_normal_key(self, key, content, cursor)
    }

    /// Process a key in Visual mode.
    pub fn handle_visual_key(&mut self, key: &str, content: &str, cursor: usize) -> (a: VimAction)
        requires
            cursor <= utf8_bytes(content@).len(),
        ensures
            final(self)@ == visual::visual_key_spec(old(self)@, key@, content@, cursor as int).0,
            a@ == visual::visual_key_spec(old(self)@, key@, content@, cursor as int).1,
    {
        visual::handle_visual_key(self, key, content, cursor)
    }

    /// Resolve a motion: either move to its target, or apply the pending
    /// operator to the range it spans.
    fn resolve_motion_or_operator(&mut self, motion: Motion, content: &str, cursor: usize) -> (a:
        VimAction)
        requires
            cursor <= utf8_bytes(content@).len(),
            resolve_spec(old(self)@, motion, content@, cursor as int).2,
        ensures
            final(self)@ == resolve_spec(old(self)@, motion, content@, cursor as int).0,
            a@ == resolve_spec(old(self)@, motion, content@, cursor as int).1,
    {
        let count = self.effective_count();
        match self.pending_operator {
            Some(op) => {
                self.pending_operator = None;
                self.count = None;
                let (start, end) = operators::compute_motion_range(&motion, content, cursor, count);
                operators::apply_operator(op, start, end, content)
            },
            None => {
                self.count = None;
                let target = targets::compute_motion_target(&motion, content, cursor, count);
                VimAction::Command(EditorCommand::MoveToOffset(target))
            },
        }
    }
}

} // verus!
