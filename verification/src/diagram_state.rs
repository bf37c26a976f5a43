//! Editing state of an open diagram that is independent of geometry: the
//! active tool, the selected elements, and the whole-document undo
//! history.
use vstd::prelude::*;

use crate::number::{decimal, decimal_digits};
use crate::text::{str_eq, string_of, to_owned};

verus! {

/// The active editing tool.
#[derive(Clone, Copy, Debug, PartialEq, Eq, Structural)]
pub enum Tool {
    Select,
    Rectangle,
    Ellipse,
    Diamond,
    Arrow,
    Line,
    Draw,
    Text,
}

/// The element type a tool creates.
pub open spec fn tool_element_type(t: Tool) -> Option<Seq<char>> {
    match t {
        Tool::Select => None,
        Tool::Rectangle => Some("rectangle"@),
        Tool::Ellipse => Some("ellipse"@),
        Tool::Diamond => Some("diamond"@),
        Tool::Arrow => Some("arrow"@),
        Tool::Line => Some("line"@),
        Tool::Draw => Some("freedraw"@),
        Tool::Text => Some("text"@),
    }
}

impl Tool {
    /// The excalidraw element type this tool creates (none for Select).
    pub fn element_type(self) -> (r: Option<&'static str>)
        ensures
            match r {
                Some(s) => tool_element_type(self) == Some(s@),
                None => tool_element_type(self) is None,
            },
    {
        match self {
            Tool::Select => None,
            Tool::Rectangle => Some("rectangle"),
            Tool::Ellipse => Some("ellipse"),
            Tool::Diamond => Some("diamond"),
            Tool::Arrow => Some("arrow"),
            Tool::Line => Some("line"),
            Tool::Draw => Some("freedraw"),
            Tool::Text => Some("text"),
        }
    }
}

/// The indices of the selected elements.
pub struct ElementSelection {
    pub selected: Vec<usize>,
}

impl ElementSelection {
    /// Nothing selected.
    pub fn new() -> (s: Self)
        ensures
            s.selected@ == Seq::<usize>::empty(),
    {
        ElementSelection { selected: Vec::new() }
    }

    /// Select just the element `index`.
    pub fn select_only(&mut self, index: usize)
        ensures
            final(self).selected@ == seq![index],
    {
        self.selected = vec![index];
    }

    /// Select nothing.
    pub fn clear_selection(&mut self)
        ensures
            final(self).selected@ == Seq::<usize>::empty(),
    {
        self.selected.clear();
    }

    /// Whether the element `index` is selected.
    pub fn is_selected(&self, index: usize) -> (r: bool)
        ensures
            r == self.selected@.contains(index),
    {
        let mut i: usize = 0;
        while i < self.selected.len()
            invariant
                i <= self.selected@.len(),
                forall|j: int| 0 <= j < i ==> self.selected@[j] != index,
            decreases self.selected@.len() - i,
        {
            if self.selected[i] == index {
                return true;
            }
            i = i + 1;
        }
        false
    }

    /// Toggle an element's membership in the selection (Ctrl+click): the
    /// first occurrence is removed, or the element is added at the end.
    pub fn toggle_select(&mut self, index: usize)
        ensures
            final(self).selected@ == toggled(old(self).selected@, index),
    {
        proof {
            lemma_first_pos(self.selected@, index, 0);
        }
        let mut i: usize = 0;
        while i < self.selected.len()
            invariant
                i <= self.selected@.len(),
                self.selected@ == old(self).selected@,
                first_pos(self.selected@, index, i as int) == first_pos(self.selected@, index, 0),
            decreases self.selected@.len() - i,
        {
            if self.selected[i] == index {
                self.selected.remove(i);
                return;
            }
            i = i + 1;
        }
        self.selected.push(index);
    }
}

/// The position of the first `x` in `s` at or after `i`, or `s.len()`.
pub open spec fn first_pos(s: Seq<usize>, x: usize, i: int) -> int
    decreases s.len() - i,
{
    if i < 0 || i >= s.len() {
        s.len() as int
    } else if s[i] == x {
        i
    } else {
        first_pos(s, x, i + 1)
    }
}

/// The selection `s` with `x` toggled: its first occurrence removed, or `x`
/// appended.
pub open spec fn toggled(s: Seq<usize>, x: usize) -> Seq<usize> {
    let p = first_pos(s, x, 0);
    if p < s.len() {
        s.remove(p)
    } else {
        s.push(x)
    }
}

pub proof fn lemma_first_pos(s: Seq<usize>, x: usize, i: int)
    requires
        0 <= i <= s.len(),
    ensures
        i <= first_pos(s, x, i) <= s.len(),
        first_pos(s, x, i) < s.len() ==> s[first_pos(s, x, i)] == x,
        forall|j: int| i <= j < first_pos(s, x, i) ==> s[j] != x,
    decreases s.len() - i,
{
    if i < s.len() && s[i] != x {
        lemma_first_pos(s, x, i + 1);
    }
}

/// Toggling an element twice selects the same elements as before (for a
/// selection that lists no element twice).
pub proof fn lemma_toggle_twice(s: Seq<usize>, x: usize)
    requires
        s.no_duplicates(),
    ensures
        toggled(toggled(s, x), x).to_set() == s.to_set(),
{
    lemma_first_pos(s, x, 0);
    let p = first_pos(s, x, 0);
    let once = toggled(s, x);
    lemma_first_pos(once, x, 0);
    if p < s.len() {
        assert forall|j: int| 0 <= j < once.len() implies once[j] != x by {
            if j < p {
                assert(once[j] == s[j]);
            } else {
                assert(once[j] == s[j + 1]);
            }
        }
        assert(first_pos(once, x, 0) == once.len());
        let twice = once.push(x);
        assert forall|y: usize| #[trigger] twice.to_set().contains(y) == s.to_set().contains(y) by {
            if s.contains(y) {
                let k = choose|k: int| 0 <= k < s.len() && s[k] == y;
                if k < p {
                    assert(twice[k] == y);
                } else if k == p {
                    assert(twice[once.len() as int] == y);
                } else {
                    assert(twice[k - 1] == y);
                }
            }
            if twice.contains(y) {
                let k = choose|k: int| 0 <= k < twice.len() && twice[k] == y;
                if k == once.len() {
                    assert(s[p] == y);
                } else if k < p {
                    assert(s[k] == y);
                } else {
                    assert(s[k + 1] == y);
                }
            }
        }
        assert(twice.to_set() =~= s.to_set());
    } else {
        assert(once[s.len() as int] == x);
        assert forall|j: int| 0 <= j < s.len() implies once[j] != x by {
            assert(once[j] == s[j]);
        }
        assert(first_pos(once, x, 0) == s.len());
        assert(once.remove(s.len() as int) =~= s);
    }
}

/// Whole-document undo history of a diagram: snapshots taken before each
/// change, at most `UNDO_CAP` of them kept.
pub struct SnapshotHistory<T> {
    pub undo_stack: Vec<T>,
    pub redo_stack: Vec<T>,
}

/// How many snapshots the undo stack keeps.
pub const UNDO_CAP: usize = 100;

impl<T> SnapshotHistory<T> {
    /// An empty history.
    pub fn new() -> (h: Self)
        ensures
            h.undo_stack@ == Seq::<T>::empty(),
            h.redo_stack@ == Seq::<T>::empty(),
    {
        SnapshotHistory { undo_stack: Vec::new(), redo_stack: Vec::new() }
    }

    /// Records a snapshot of the document before a change; the oldest one
    /// goes when more than `UNDO_CAP` are kept. A new change forgets what
    /// could be redone.
    pub fn push_undo(&mut self, snapshot: T)
        ensures
            final(self).undo_stack@ == (if old(self).undo_stack@.len() + 1 > UNDO_CAP {
                old(self).undo_stack@.push(snapshot).skip(1)
            } else {
                old(self).undo_stack@.push(snapshot)
            }),
            final(self).redo_stack@ == Seq::<T>::empty(),
    {
        self.undo_stack.push(snapshot);
        if self.undo_stack.len() > UNDO_CAP {
            let ghost before = self.undo_stack@;
            self.undo_stack.remove(0);
            assert(self.undo_stack@ =~= before.skip(1));
        }
        self.redo_stack.clear();
    }

    /// Drops the newest snapshot (a change that turned out to do nothing).
    pub fn discard_last_undo(&mut self)
        ensures
            final(self).undo_stack@ == (if old(self).undo_stack@.len() > 0 {
                old(self).undo_stack@.drop_last()
            } else {
                old(self).undo_stack@
            }),
            final(self).redo_stack@ == old(self).redo_stack@,
    {
        let _ = self.undo_stack.pop();
    }

    /// Undo: the document goes back to the newest snapshot, and what it was
    /// can be redone. False, changing nothing, when there is nothing to undo.
    pub fn undo(&mut self, file: &mut T) -> (r: bool)
        ensures
            r == (old(self).undo_stack@.len() > 0),
            r ==> *final(file) == old(self).undo_stack@.last() && final(self).undo_stack@ == old(
                self,
            ).undo_stack@.drop_last() && final(self).redo_stack@ == old(self).redo_stack@.push(
                *old(file),
            ),
            !r ==> *final(file) == *old(file) && final(self).undo_stack@ == old(self).undo_stack@
                && final(self).redo_stack@ == old(self).redo_stack@,
    {
        match self.undo_stack.pop() {
            Some(mut prev) => {
                std::mem::swap(file, &mut prev);
                self.redo_stack.push(prev);
                true
            },
            None => false,
        }
    }

    /// Redo: the document goes forward to the newest undone state.
    pub fn redo(&mut self, file: &mut T) -> (r: bool)
        ensures
            r == (old(self).redo_stack@.len() > 0),
            r ==> *final(file) == old(self).redo_stack@.last() && final(self).redo_stack@ == old(
                self,
            ).redo_stack@.drop_last() && final(self).undo_stack@ == old(self).undo_stack@.push(
                *old(file),
            ),
            !r ==> *final(file) == *old(file) && final(self).undo_stack@ == old(self).undo_stack@
                && final(self).redo_stack@ == old(self).redo_stack@,
    {
        match self.redo_stack.pop() {
            Some(mut next) => {
                std::mem::swap(file, &mut next);
                self.undo_stack.push(next);
                true
            },
            None => false,
        }
    }
}

/// The undo stack never holds more than `UNDO_CAP` snapshots once it held
/// no more before a push.
pub proof fn lemma_push_keeps_cap<T>(stack: Seq<T>, snapshot: T)
    requires
        stack.len() <= UNDO_CAP,
    ensures
        (if stack.len() + 1 > UNDO_CAP {
            stack.push(snapshot).skip(1)
        } else {
            stack.push(snapshot)
        }).len() <= UNDO_CAP,
{
}

/// Undoing and then redoing gives back the document and both stacks.
pub proof fn lemma_undo_then_redo<T>(undo: Seq<T>, redo: Seq<T>, file: T)
    requires
        undo.len() > 0,
    ensures
        ({
            let (u1, r1, f1) = (undo.drop_last(), redo.push(file), undo.last());
            &&& r1.last() == file
            &&& r1.drop_last() == redo
            &&& u1.push(f1) == undo
        }),
{
    assert(undo.drop_last().push(undo.last()) =~= undo);
    assert(redo.push(file).drop_last() =~= redo);
}

// ─── Commands ──────────────────────────────────────────────────────────────

/// What a diagram command asks for.
#[derive(Clone, Copy, Debug, PartialEq, Eq, Structural)]
pub enum DiagramCommand {
    ZoomIn,
    ZoomOut,
    ResetZoom,
    Center,
    Save,
    Delete,
    SetTool(Tool),
    Undo,
    Redo,
}

/// The diagram command with id `id`, if the diagram handles it.
pub open spec fn diagram_command_spec(id: Seq<char>) -> Option<DiagramCommand> {
    if id == "diagram-zoom-in"@ {
        Some(DiagramCommand::ZoomIn)
    } else if id == "diagram-zoom-out"@ {
        Some(DiagramCommand::ZoomOut)
    } else if id == "diagram-reset-zoom"@ {
        Some(DiagramCommand::ResetZoom)
    } else if id == "diagram-center"@ {
        Some(DiagramCommand::Center)
    } else if id == "diagram-save"@ {
        Some(DiagramCommand::Save)
    } else if id == "diagram-delete"@ {
        Some(DiagramCommand::Delete)
    } else if id == "diagram-tool-select"@ {
        Some(DiagramCommand::SetTool(Tool::Select))
    } else if id == "diagram-tool-rectangle"@ {
        Some(DiagramCommand::SetTool(Tool::Rectangle))
    } else if id == "diagram-tool-ellipse"@ {
        Some(DiagramCommand::SetTool(Tool::Ellipse))
    } else if id == "diagram-tool-diamond"@ {
        Some(DiagramCommand::SetTool(Tool::Diamond))
    } else if id == "diagram-tool-arrow"@ {
        Some(DiagramCommand::SetTool(Tool::Arrow))
    } else if id == "diagram-tool-line"@ {
        Some(DiagramCommand::SetTool(Tool::Line))
    } else if id == "diagram-tool-draw"@ {
        Some(DiagramCommand::SetTool(Tool::Draw))
    } else if id == "diagram-tool-text"@ {
        Some(DiagramCommand::SetTool(Tool::Text))
    } else if id == "diagram-undo"@ {
        Some(DiagramCommand::Undo)
    } else if id == "diagram-redo"@ {
        Some(DiagramCommand::Redo)
    } else {
        None
    }
}

/// The diagram command with id `id`; none for commands the diagram leaves
/// to others.
pub fn diagram_command(id: &str) -> (r: Option<DiagramCommand>)
    ensures
        r == diagram_command_spec(id@),
{
    if str_eq(id, "diagram-zoom-in") {
        Some(DiagramCommand::ZoomIn)
    } else if str_eq(id, "diagram-zoom-out") {
        Some(DiagramCommand::ZoomOut)
    } else if str_eq(id, "diagram-reset-zoom") {
        Some(DiagramCommand::ResetZoom)
    } else if str_eq(id, "diagram-center") {
        Some(DiagramCommand::Center)
    } else if str_eq(id, "diagram-save") {
        Some(DiagramCommand::Save)
    } else if str_eq(id, "diagram-delete") {
        Some(DiagramCommand::Delete)
    } else if str_eq(id, "diagram-tool-select") {
        Some(DiagramCommand::SetTool(Tool::Select))
    } else if str_eq(id, "diagram-tool-rectangle") {
        Some(DiagramCommand::SetTool(Tool::Rectangle))
    } else if str_eq(id, "diagram-tool-ellipse") {
        Some(DiagramCommand::SetTool(Tool::Ellipse))
    } else if str_eq(id, "diagram-tool-diamond") {
        Some(DiagramCommand::SetTool(Tool::Diamond))
    } else if str_eq(id, "diagram-tool-arrow") {
        Some(DiagramCommand::SetTool(Tool::Arrow))
    } else if str_eq(id, "diagram-tool-line") {
        Some(DiagramCommand::SetTool(Tool::Line))
    } else if str_eq(id, "diagram-tool-draw") {
        Some(DiagramCommand::SetTool(Tool::Draw))
    } else if str_eq(id, "diagram-tool-text") {
        Some(DiagramCommand::SetTool(Tool::Text))
    } else if str_eq(id, "diagram-undo") {
        Some(DiagramCommand::Undo)
    } else if str_eq(id, "diagram-redo") {
        Some(DiagramCommand::Redo)
    } else {
        None
    }
}

/// Switches to `tool`; any tool but Select drops the selection.
pub fn set_tool(current: &mut Tool, selection: &mut ElementSelection, tool: Tool)
    ensures
        *final(current) == tool,
        tool == Tool::Select ==> final(selection).selected@ == old(selection).selected@,
        tool != Tool::Select ==> final(selection).selected@ == Seq::<usize>::empty(),
{
    *current = tool;
    if tool != Tool::Select {
        selection.clear_selection();
    }
}

/// The message after deleting `n` elements: none when nothing was deleted.
pub open spec fn deleted_message_spec(n: nat) -> Option<Seq<char>> {
    if n > 0 {
        Some("Deleted "@ + decimal(n) + " element(s)"@)
    } else {
        None
    }
}

/// The message after deleting `n` elements.
pub fn deleted_message(n: usize) -> (r: Option<String>)
    ensures
        match r {
            Some(m) => deleted_message_spec(n as nat) == Some(m@),
            None => deleted_message_spec(n as nat) is None,
        },
{
    if n == 0 {
        return None;
    }
    let mut m = to_owned("Deleted ");
    m.append(string_of(&decimal_digits(n)).as_str());
    m.append(" element(s)");
    Some(m)
}

/// The message after an undo (`redo` false) or a redo that did (`done`)
/// or did not find a step.
pub open spec fn history_message_spec(redo: bool, done: bool) -> Seq<char> {
    if redo {
        if done {
            "Redo"@
        } else {
            "Nothing to redo"@
        }
    } else if done {
        "Undo"@
    } else {
        "Nothing to undo"@
    }
}

/// The message after an undo or a redo.
pub fn history_message(redo: bool, done: bool) -> (r: String)
    ensures
        r@ == history_message_spec(redo, done),
{
    if redo {
        if done {
            to_owned("Redo")
        } else {
            to_owned("Nothing to redo")
        }
    } else if done {
        to_owned("Undo")
    } else {
        to_owned("Nothing to undo")
    }
}

} // verus!
