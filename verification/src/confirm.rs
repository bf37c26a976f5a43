//! What confirming the minibuffer does, for each kind of list it shows:
//! the choice (or what was typed) becomes one action for the application.
use vstd::prelude::*;

use crate::command::{Candidate, CandidateView};
use crate::config::{is_known_theme, theme_id_table};
use crate::palette::candidates_view;
use crate::text::to_owned;

verus! {

broadcast use vstd::string::group_string_axioms;

/// Which list the minibuffer shows.
#[derive(Debug, PartialEq, Eq)]
pub enum DelegateKind {
    Command,
    NoteSearch,
    WikilinkAutocomplete,
    VaultSwitch,
    VaultOpen,
    TagList,
    /// The notes with a tag.
    TagNotes(String),
    Orphans,
    ContentSearch,
    Theme,
    /// A list that the focused item (named by its id) supplies.
    Item(String),
}

/// What confirming the minibuffer asks the application to do.
#[derive(Debug, PartialEq, Eq)]
pub enum ConfirmAction {
    /// Run the command with this id, given the typed line.
    RunCommand { id: String, input: String },
    /// Run the typed line as an editor command.
    ExCommand(String),
    /// Create a note with this title and open it.
    CreateNote(String),
    /// Open the note at this path.
    OpenNote(String),
    /// Complete the wikilink being typed with this title.
    InsertWikilink(String),
    /// Open the vault at this path, then the note finder.
    SwitchVault(String),
    /// Open the vault at this path if it is a directory, else report that
    /// it is not one.
    OpenVaultDir(String),
    /// List the notes with this tag.
    ShowTagNotes(String),
    /// Switch to the theme with this id.
    SelectTheme(String),
    /// Hand the confirmation to the focused item with this id, with the
    /// index of the chosen entry, if any.
    ItemConfirm { id: String, chosen: Option<usize> },
    /// Nothing to do.
    Nothing,
}

/// What a confirm action holds.
pub enum ConfirmView {
    RunCommand(Seq<char>, Seq<char>),
    ExCommand(Seq<char>),
    CreateNote(Seq<char>),
    OpenNote(Seq<char>),
    InsertWikilink(Seq<char>),
    SwitchVault(Seq<char>),
    OpenVaultDir(Seq<char>),
    ShowTagNotes(Seq<char>),
    SelectTheme(Seq<char>),
    ItemConfirm(Seq<char>, Option<int>),
    Nothing,
}

/// A confirm action as plain values.
pub open spec fn confirm_view(a: ConfirmAction) -> ConfirmView {
    match a {
        ConfirmAction::RunCommand { id, input } => ConfirmView::RunCommand(id@, input@),
        ConfirmAction::ExCommand(s) => ConfirmView::ExCommand(s@),
        ConfirmAction::CreateNote(s) => ConfirmView::CreateNote(s@),
        ConfirmAction::OpenNote(s) => ConfirmView::OpenNote(s@),
        ConfirmAction::InsertWikilink(s) => ConfirmView::InsertWikilink(s@),
        ConfirmAction::SwitchVault(s) => ConfirmView::SwitchVault(s@),
        ConfirmAction::OpenVaultDir(s) => ConfirmView::OpenVaultDir(s@),
        ConfirmAction::ShowTagNotes(s) => ConfirmView::ShowTagNotes(s@),
        ConfirmAction::SelectTheme(s) => ConfirmView::SelectTheme(s@),
        ConfirmAction::ItemConfirm { id, chosen } => ConfirmView::ItemConfirm(
            id@,
            match chosen {
                Some(i) => Some(i as int),
                None => None,
            },
        ),
        ConfirmAction::Nothing => ConfirmView::Nothing,
    }
}

/// The entry at `selected`, if there is one.
pub open spec fn chosen_entry(cands: Seq<CandidateView>, selected: int) -> Option<CandidateView> {
    if 0 <= selected < cands.len() {
        Some(cands[selected])
    } else {
        None
    }
}

/// What confirming does: with an entry chosen, act on it (its data is a
/// command id, a path, a title, a tag or a theme id, by kind); with none,
/// some kinds act on the typed text instead.
pub open spec fn confirm_spec(kind: DelegateKind, cands: Seq<CandidateView>, selected: int, input: Seq<char>) -> ConfirmView {
    let chosen = chosen_entry(cands, selected);
    match kind {
        DelegateKind::Command => match chosen {
            Some(c) => ConfirmView::RunCommand(c.data, input),
            None => if input.len() > 0 {
                ConfirmView::ExCommand(input)
            } else {
                ConfirmView::Nothing
            },
        },
        DelegateKind::NoteSearch => match chosen {
            Some(c) => if c.is_action {
                ConfirmView::CreateNote(input)
            } else {
                ConfirmView::OpenNote(c.data)
            },
            None => if input.len() > 0 {
                ConfirmView::CreateNote(input)
            } else {
                ConfirmView::Nothing
            },
        },
        DelegateKind::WikilinkAutocomplete => match chosen {
            Some(c) => ConfirmView::InsertWikilink(c.data),
            None => if input.len() > 0 {
                ConfirmView::InsertWikilink(input)
            } else {
                ConfirmView::Nothing
            },
        },
        DelegateKind::VaultSwitch => match chosen {
            Some(c) => ConfirmView::SwitchVault(c.data),
            None => ConfirmView::Nothing,
        },
        DelegateKind::VaultOpen => match chosen {
            Some(c) => ConfirmView::OpenVaultDir(c.data),
            None => if input.len() > 0 {
                ConfirmView::OpenVaultDir(input)
            } else {
                ConfirmView::Nothing
            },
        },
        DelegateKind::TagList => match chosen {
            Some(c) => ConfirmView::ShowTagNotes(c.data),
            None => ConfirmView::Nothing,
        },
        DelegateKind::Theme => match chosen {
            Some(c) => if theme_id_table().contains(c.data) {
                ConfirmView::SelectTheme(c.data)
            } else {
                ConfirmView::Nothing
            },
            None => ConfirmView::Nothing,
        },
        DelegateKind::Item(id) => ConfirmView::ItemConfirm(
            id@,
            if 0 <= selected < cands.len() {
                Some(selected)
            } else {
                None
            },
        ),
        _ => match chosen {
            Some(c) => ConfirmView::OpenNote(c.data),
            None => ConfirmView::Nothing,
        },
    }
}

/// What confirming the minibuffer does, given its kind, its entries, the
/// index of the highlighted one and the typed text.
pub fn confirm_action(kind: &DelegateKind, candidates: &Vec<Candidate>, selected: usize, input: &str) -> (r:
    ConfirmAction)
    ensures
        confirm_view(r) == confirm_spec(*kind, candidates_view(candidates@), selected as int, input@),
{
    let ghost cv = candidates_view(candidates@);
    let has = selected < candidates.len();
    proof {
        if has {
            assert(cv[selected as int] == candidates@[selected as int]@);
        }
    }
    let typed = input.unicode_len() > 0;
    match kind {
        DelegateKind::Command => if has {
            ConfirmAction::RunCommand {
                id: to_owned(candidates[selected].data.as_str()),
                input: to_owned(input),
            }
        } else if typed {
            ConfirmAction::ExCommand(to_owned(input))
        } else {
            ConfirmAction::Nothing
        },
        DelegateKind::NoteSearch => if has {
            if candidates[selected].is_action {
                ConfirmAction::CreateNote(to_owned(input))
            } else {
                ConfirmAction::OpenNote(to_owned(candidates[selected].data.as_str()))
            }
        } else if typed {
            ConfirmAction::CreateNote(to_owned(input))
        } else {
            ConfirmAction::Nothing
        },
        DelegateKind::WikilinkAutocomplete => if has {
            ConfirmAction::InsertWikilink(to_owned(candidates[selected].data.as_str()))
        } else if typed {
            ConfirmAction::InsertWikilink(to_owned(input))
        } else {
            ConfirmAction::Nothing
        },
        DelegateKind::VaultSwitch => if has {
            ConfirmAction::SwitchVault(to_owned(candidates[selected].data.as_str()))
        } else {
            ConfirmAction::Nothing
        },
        DelegateKind::VaultOpen => if has {
            ConfirmAction::OpenVaultDir(to_owned(candidates[selected].data.as_str()))
        } else if typed {
            ConfirmAction::OpenVaultDir(to_owned(input))
        } else {
            ConfirmAction::Nothing
        },
        DelegateKind::TagList => if has {
            ConfirmAction::ShowTagNotes(to_owned(candidates[selected].data.as_str()))
        } else {
            ConfirmAction::Nothing
        },
        DelegateKind::Theme => if has && is_known_theme(candidates[selected].data.as_str()) {
            ConfirmAction::SelectTheme(to_owned(candidates[selected].data.as_str()))
        } else {
            ConfirmAction::Nothing
        },
        DelegateKind::Item(id) => ConfirmAction::ItemConfirm {
            id: to_owned(id.as_str()),
            chosen: if has {
                Some(selected)
            } else {
                None
            },
        },
        _ => if has {
            ConfirmAction::OpenNote(to_owned(candidates[selected].data.as_str()))
        } else {
            ConfirmAction::Nothing
        },
    }
}

} // verus!
