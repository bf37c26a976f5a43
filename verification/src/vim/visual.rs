//! Visual-mode key handling.
use vstd::prelude::*;

use crate::commands::{commands_view, CommandView, EditorCommand};
use crate::keymap::EditorMode;
use crate::text::{str_eq, utf8_bytes};
use super::motion::motion_target;
use super::targets::compute_motion_target;
use super::{cleared, ActionView, Motion, VimAction, VimState, VimView};

verus! {

/// The name of the escape key.
pub open spec fn escape_key() -> Seq<char> {
    seq!['e', 's', 'c', 'a', 'p', 'e']
}

/// Keys that act on the selection, with the command they run and the mode
/// they return to: d x c s S y > < J ~ u U
pub open spec fn selection_key(k: char) -> Option<(CommandView, EditorMode)> {
    if k == 'd' || k == 'x' {
        Some((CommandView::DeleteSelection, EditorMode::Normal))
    } else if k == 'c' || k == 's' || k == 'S' {
        Some((CommandView::DeleteSelection, EditorMode::Insert))
    } else if k == 'y' {
        Some((CommandView::YankSelection, EditorMode::Normal))
    } else if k == '>' {
        Some((CommandView::IndentSelection, EditorMode::Normal))
    } else if k == '<' {
        Some((CommandView::DedentSelection, EditorMode::Normal))
    } else if k == 'J' {
        Some((CommandView::JoinSelection, EditorMode::Normal))
    } else if k == '~' {
        Some((CommandView::ToggleCaseSelection, EditorMode::Normal))
    } else if k == 'u' {
        Some((CommandView::LowercaseSelection, EditorMode::Normal))
    } else if k == 'U' {
        Some((CommandView::UppercaseSelection, EditorMode::Normal))
    } else {
        None
    }
}

/// Keys that switch mode from visual mode: v V :
pub open spec fn visual_mode_key(k: char) -> Option<EditorMode> {
    if k == 'v' {
        Some(EditorMode::Normal)
    } else if k == 'V' {
        Some(EditorMode::VisualLine)
    } else if k == ':' {
        Some(EditorMode::Command)
    } else {
        None
    }
}

/// Keys that extend the selection one step: h l j k
pub open spec fn select_step_key(k: char) -> Option<CommandView> {
    if k == 'h' {
        Some(CommandView::SelectLeft)
    } else if k == 'l' {
        Some(CommandView::SelectRight)
    } else if k == 'j' {
        Some(CommandView::SelectDown)
    } else if k == 'k' {
        Some(CommandView::SelectUp)
    } else {
        None
    }
}

/// Keys that extend the selection to where a motion goes: w W b B e E 0 ^ _ $ G g { } %
pub open spec fn select_motion_key(k: char) -> Option<Motion> {
    if k == 'w' {
        Some(Motion::WordForward)
    } else if k == 'W' {
        Some(Motion::BigWordForward)
    } else if k == 'b' {
        Some(Motion::WordBackward)
    } else if k == 'B' {
        Some(Motion::BigWordBackward)
    } else if k == 'e' {
        Some(Motion::WordEnd)
    } else if k == 'E' {
        Some(Motion::BigWordEnd)
    } else if k == '0' {
        Some(Motion::LineStart)
    } else if k == '^' || k == '_' {
        Some(Motion::FirstNonWhitespace)
    } else if k == '$' {
        Some(Motion::LineEnd)
    } else if k == 'G' {
        Some(Motion::DocEnd)
    } else if k == 'g' {
        Some(Motion::DocStart)
    } else if k == '{' {
        Some(Motion::ParagraphBackward)
    } else if k == '}' {
        Some(Motion::ParagraphForward)
    } else if k == '%' {
        Some(Motion::MatchingBracket)
    } else {
        None
    }
}

/// A key in visual mode: escape and the mode keys go back to another mode,
/// operator keys act on the selection and leave visual mode, motion keys
/// extend the selection (one step each, counts do not apply), anything else
/// is ignored.
pub open spec fn visual_key_spec(s: VimView, key: Seq<char>, t: Seq<char>, cursor: int) -> (
    VimView,
    ActionView,
) {
    if key == escape_key() {
        (cleared(s), ActionView::ChangeMode(EditorMode::Normal))
    } else if key.len() != 1 {
        (s, ActionView::NoAction)
    } else {
        let k = key[0];
        if selection_key(k) is Some {
            let (c, m) = selection_key(k)->0;
            (cleared(s), ActionView::Commands(seq![c, CommandView::EnterMode(m)]))
        } else if visual_mode_key(k) is Some {
            (cleared(s), ActionView::ChangeMode(visual_mode_key(k)->0))
        } else if select_step_key(k) is Some {
            (s, ActionView::Command(select_step_key(k)->0))
        } else if select_motion_key(k) is Some {
            (
                s,
                ActionView::Command(
                    CommandView::SelectToOffset(
                        motion_target(select_motion_key(k)->0, utf8_bytes(t), t, cursor, 1) as usize,
                    ),
                ),
            )
        } else {
            (s, ActionView::NoAction)
        }
    }
}

fn selection_command(k: char) -> (r: Option<(EditorCommand, EditorMode)>)
    ensures
        match r {
            Some((c, m)) => selection_key(k) == Some((c@, m)),
            None => selection_key(k) is None,
        },
{
    if k == 'd' || k == 'x' {
        Some((EditorCommand::DeleteSelection, EditorMode::Normal))
    } else if k == 'c' || k == 's' || k == 'S' {
        Some((EditorCommand::DeleteSelection, EditorMode::Insert))
    } else if k == 'y' {
        Some((EditorCommand::YankSelection, EditorMode::Normal))
    } else if k == '>' {
        Some((EditorCommand::IndentSelection, EditorMode::Normal))
    } else if k == '<' {
        Some((EditorCommand::DedentSelection, EditorMode::Normal))
    } else if k == 'J' {
        Some((EditorCommand::JoinSelection, EditorMode::Normal))
    } else if k == '~' {
        Some((EditorCommand::ToggleCaseSelection, EditorMode::Normal))
    } else if k == 'u' {
        Some((EditorCommand::LowercaseSelection, EditorMode::Normal))
    } else if k == 'U' {
        Some((EditorCommand::UppercaseSelection, EditorMode::Normal))
    } else {
        None
    }
}

fn mode_of_key(k: char) -> (r: Option<EditorMode>)
    ensures
        r == visual_mode_key(k),
{
    if k == 'v' {
        Some(EditorMode::Normal)
    } else if k == 'V' {
        Some(EditorMode::VisualLine)
    } else if k == ':' {
        Some(EditorMode::Command)
    } else {
        None
    }
}

fn select_step(k: char) -> (r: Option<EditorCommand>)
    ensures
        match r {
            Some(c) => select_step_key(k) == Some(c@),
            None => select_step_key(k) is None,
        },
{
    if k == 'h' {
        Some(EditorCommand::SelectLeft)
    } else if k == 'l' {
        Some(EditorCommand::SelectRight)
    } else if k == 'j' {
        Some(EditorCommand::SelectDown)
    } else if k == 'k' {
        Some(EditorCommand::SelectUp)
    } else {
        None
    }
}

fn select_motion(k: char) -> (r: Option<Motion>)
    ensures
        r == select_motion_key(k),
{
    if k == 'w' {
        Some(Motion::WordForward)
    } else if k == 'W' {
        Some(Motion::BigWordForward)
    } else if k == 'b' {
        Some(Motion::WordBackward)
    } else if k == 'B' {
        Some(Motion::BigWordBackward)
    } else if k == 'e' {
        Some(Motion::WordEnd)
    } else if k == 'E' {
        Some(Motion::BigWordEnd)
    } else if k == '0' {
        Some(Motion::LineStart)
    } else if k == '^' || k == '_' {
        Some(Motion::FirstNonWhitespace)
    } else if k == '$' {
        Some(Motion::LineEnd)
    } else if k == 'G' {
        Some(Motion::DocEnd)
    } else if k == 'g' {
        Some(Motion::DocStart)
    } else if k == '{' {
        Some(Motion::ParagraphBackward)
    } else if k == '}' {
        Some(Motion::ParagraphForward)
    } else if k == '%' {
        Some(Motion::MatchingBracket)
    } else {
        None
    }
}

pub fn handle_visual_key(state: &mut VimState, key: &str, content: &str, cursor: usize) -> (a: VimAction)
    requires
        cursor <= utf8_bytes(content@).len(),
    ensures
        final(state)@ == visual_key_spec(old(state)@, key@, content@, cursor as int).0,
        a@ == visual_key_spec(old(state)@, key@, content@, cursor as int).1,
{
    proof {
        reveal_strlit("escape");
        assert("escape"@ =~= escape_key());
    }
    if str_eq(key, "escape") {
        state.clear_pending();
        return VimAction::ChangeMode(EditorMode::Normal);
    }
    if key.unicode_len() != 1 {
        assert(key@ != escape_key());
        return VimAction::NoAction;
    }
    let k = key.get_char(0);
    match selection_command(k) {
        Some((c, m)) => {
            state.clear_pending();
            let v = vec![c, EditorCommand::EnterMode(m)];
            proof {
                let (cv, mv) = selection_key(k)->0;
                assert(commands_view(v@) =~= seq![cv, CommandView::EnterMode(mv)]);
            }
            return VimAction::Commands(v);
        },
        None => {},
    }
    match mode_of_key(k) {
        Some(m) => {
            state.clear_pending();
            return VimAction::ChangeMode(m);
        },
        None => {},
    }
    match select_step(k) {
        Some(c) => {
            return VimAction::Command(c);
        },
        None => {},
    }
    match select_motion(k) {
        Some(m) => {
            let target = compute_motion_target(&m, content, cursor, 1);
            VimAction::Command(EditorCommand::SelectToOffset(target))
        },
        None => VimAction::NoAction,
    }
}

} // verus!
