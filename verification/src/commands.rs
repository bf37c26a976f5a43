//! Editor operations that keybindings, commands and plugins trigger.
use std::ops::Range;

use vstd::prelude::*;

use crate::keymap::EditorMode;

verus! {

/// All editor operations that can be triggered by keybindings, commands, or plugins.
#[derive(Debug, PartialEq)]
pub enum EditorCommand {
    // Cursor movement
    MoveLeft,
    MoveRight,
    MoveUp,
    MoveDown,
    MoveLineStart,
    MoveLineEnd,
    MoveToOffset(usize),
    // Selection
    SelectLeft,
    SelectRight,
    SelectUp,
    SelectDown,
    SelectToOffset(usize),
    SelectAll,
    DeleteSelection,
    YankSelection,
    // Editing
    InsertChar(char),
    InsertNewline,
    InsertTab,
    InsertText(String),
    DeleteBackward,
    DeleteForward,
    DeleteRange(Range<usize>),
    // Clipboard / Yank
    YankText(String),
    // History
    Undo,
    Redo,
    // Table
    TableNextCell,
    TablePrevCell,
    // Mode
    EnterMode(EditorMode),
    ToggleVimMode,
    // Visual mode operations
    IndentSelection,
    DedentSelection,
    JoinSelection,
    ToggleCaseSelection,
    UppercaseSelection,
    LowercaseSelection,
    // Outline
    OutlineCycleFold,
    OutlineGlobalCycle,
    OutlinePromote,
    OutlineDemote,
    OutlineMoveUp,
    OutlineMoveDown,
    OutlineNextHeading,
    OutlinePrevHeading,
}

/// What a command holds, with character sequences in place of strings.
pub enum CommandView {
    MoveLeft,
    MoveRight,
    MoveUp,
    MoveDown,
    MoveLineStart,
    MoveLineEnd,
    MoveToOffset(usize),
    SelectLeft,
    SelectRight,
    SelectUp,
    SelectDown,
    SelectToOffset(usize),
    SelectAll,
    DeleteSelection,
    YankSelection,
    InsertChar(char),
    InsertNewline,
    InsertTab,
    InsertText(Seq<char>),
    DeleteBackward,
    DeleteForward,
    DeleteRange(Range<usize>),
    YankText(Seq<char>),
    Undo,
    Redo,
    TableNextCell,
    TablePrevCell,
    EnterMode(EditorMode),
    ToggleVimMode,
    IndentSelection,
    DedentSelection,
    JoinSelection,
    ToggleCaseSelection,
    UppercaseSelection,
    LowercaseSelection,
    OutlineCycleFold,
    OutlineGlobalCycle,
    OutlinePromote,
    OutlineDemote,
    OutlineMoveUp,
    OutlineMoveDown,
    OutlineNextHeading,
    OutlinePrevHeading,
}

impl View for EditorCommand {
    type V = CommandView;

    open spec fn view(&self) -> CommandView {
        match *self {
            EditorCommand::MoveLeft => CommandView::MoveLeft,
            EditorCommand::MoveRight => CommandView::MoveRight,
            EditorCommand::MoveUp => CommandView::MoveUp,
            EditorCommand::MoveDown => CommandView::MoveDown,
            EditorCommand::MoveLineStart => CommandView::MoveLineStart,
            EditorCommand::MoveLineEnd => CommandView::MoveLineEnd,
            EditorCommand::MoveToOffset(x) => CommandView::MoveToOffset(x),
            EditorCommand::SelectLeft => CommandView::SelectLeft,
            EditorCommand::SelectRight => CommandView::SelectRight,
            EditorCommand::SelectUp => CommandView::SelectUp,
            EditorCommand::SelectDown => CommandView::SelectDown,
            EditorCommand::SelectToOffset(x) => CommandView::SelectToOffset(x),
            EditorCommand::SelectAll => CommandView::SelectAll,
            EditorCommand::DeleteSelection => CommandView::DeleteSelection,
            EditorCommand::YankSelection => CommandView::YankSelection,
            EditorCommand::InsertChar(x) => CommandView::InsertChar(x),
            EditorCommand::InsertNewline => CommandView::InsertNewline,
            EditorCommand::InsertTab => CommandView::InsertTab,
            EditorCommand::InsertText(t) => CommandView::InsertText(t@),
            EditorCommand::DeleteBackward => CommandView::DeleteBackward,
            EditorCommand::DeleteForward => CommandView::DeleteForward,
            EditorCommand::DeleteRange(x) => CommandView::DeleteRange(x),
            EditorCommand::YankText(t) => CommandView::YankText(t@),
            EditorCommand::Undo => CommandView::Undo,
            EditorCommand::Redo => CommandView::Redo,
            EditorCommand::TableNextCell => CommandView::TableNextCell,
            EditorCommand::TablePrevCell => CommandView::TablePrevCell,
            EditorCommand::EnterMode(x) => CommandView::EnterMode(x),
            EditorCommand::ToggleVimMode => CommandView::ToggleVimMode,
            EditorCommand::IndentSelection => CommandView::IndentSelection,
            EditorCommand::DedentSelection => CommandView::DedentSelection,
            EditorCommand::JoinSelection => CommandView::JoinSelection,
            EditorCommand::ToggleCaseSelection => CommandView::ToggleCaseSelection,
            EditorCommand::UppercaseSelection => CommandView::UppercaseSelection,
            EditorCommand::LowercaseSelection => CommandView::LowercaseSelection,
            EditorCommand::OutlineCycleFold => CommandView::OutlineCycleFold,
            EditorCommand::OutlineGlobalCycle => CommandView::OutlineGlobalCycle,
            EditorCommand::OutlinePromote => CommandView::OutlinePromote,
            EditorCommand::OutlineDemote => CommandView::OutlineDemote,
            EditorCommand::OutlineMoveUp => CommandView::OutlineMoveUp,
            EditorCommand::OutlineMoveDown => CommandView::OutlineMoveDown,
            EditorCommand::OutlineNextHeading => CommandView::OutlineNextHeading,
            EditorCommand::OutlinePrevHeading => CommandView::OutlinePrevHeading,
        }
    }
}

/// The views of a sequence of commands.
pub open spec fn commands_view(cs: Seq<EditorCommand>) -> Seq<CommandView> {
    cs.map_values(|c: EditorCommand| c@)
}

impl Clone for EditorCommand {
    fn clone(&self) -> (r: Self)
        ensures
            r == *self,
    {
        match self {
            EditorCommand::MoveLeft => EditorCommand::MoveLeft,
            EditorCommand::MoveRight => EditorCommand::MoveRight,
            EditorCommand::MoveUp => EditorCommand::MoveUp,
            EditorCommand::MoveDown => EditorCommand::MoveDown,
            EditorCommand::MoveLineStart => EditorCommand::MoveLineStart,
            EditorCommand::MoveLineEnd => EditorCommand::MoveLineEnd,
            EditorCommand::MoveToOffset(o) => EditorCommand::MoveToOffset(*o),
            EditorCommand::SelectLeft => EditorCommand::SelectLeft,
            EditorCommand::SelectRight => EditorCommand::SelectRight,
            EditorCommand::SelectUp => EditorCommand::SelectUp,
            EditorCommand::SelectDown => EditorCommand::SelectDown,
            EditorCommand::SelectToOffset(o) => EditorCommand::SelectToOffset(*o),
            EditorCommand::SelectAll => EditorCommand::SelectAll,
            EditorCommand::DeleteSelection => EditorCommand::DeleteSelection,
            EditorCommand::YankSelection => EditorCommand::YankSelection,
            EditorCommand::InsertChar(c) => EditorCommand::InsertChar(*c),
            EditorCommand::InsertNewline => EditorCommand::InsertNewline,
            EditorCommand::InsertTab => EditorCommand::InsertTab,
            EditorCommand::InsertText(t) => EditorCommand::InsertText(t.clone()),
            EditorCommand::DeleteBackward => EditorCommand::DeleteBackward,
            EditorCommand::DeleteForward => EditorCommand::DeleteForward,
            EditorCommand::DeleteRange(r) => EditorCommand::DeleteRange(Range { start: r.start, end: r.end }),
            EditorCommand::YankText(t) => EditorCommand::YankText(t.clone()),
            EditorCommand::Undo => EditorCommand::Undo,
            EditorCommand::Redo => EditorCommand::Redo,
            EditorCommand::TableNextCell => EditorCommand::TableNextCell,
            EditorCommand::TablePrevCell => EditorCommand::TablePrevCell,
            EditorCommand::EnterMode(m) => EditorCommand::EnterMode(*m),
            EditorCommand::ToggleVimMode => EditorCommand::ToggleVimMode,
            EditorCommand::IndentSelection => EditorCommand::IndentSelection,
            EditorCommand::DedentSelection => EditorCommand::DedentSelection,
            EditorCommand::JoinSelection => EditorCommand::JoinSelection,
            EditorCommand::ToggleCaseSelection => EditorCommand::ToggleCaseSelection,
            EditorCommand::UppercaseSelection => EditorCommand::UppercaseSelection,
            EditorCommand::LowercaseSelection => EditorCommand::LowercaseSelection,
            EditorCommand::OutlineCycleFold => EditorCommand::OutlineCycleFold,
            EditorCommand::OutlineGlobalCycle => EditorCommand::OutlineGlobalCycle,
            EditorCommand::OutlinePromote => EditorCommand::OutlinePromote,
            EditorCommand::OutlineDemote => EditorCommand::OutlineDemote,
            EditorCommand::OutlineMoveUp => EditorCommand::OutlineMoveUp,
            EditorCommand::OutlineMoveDown => EditorCommand::OutlineMoveDown,
            EditorCommand::OutlineNextHeading => EditorCommand::OutlineNextHeading,
            EditorCommand::OutlinePrevHeading => EditorCommand::OutlinePrevHeading,
        }
    }
}

} // verus!
