use memex::commands::EditorCommand;
use memex::keymap::EditorMode;
use memex::vim::{Motion, Operator, VimAction, VimState, WaitingFor};

fn moved_to(a: &VimAction) -> Option<usize> {
    match a {
        VimAction::Command(EditorCommand::MoveToOffset(o)) => Some(*o),
        _ => None,
    }
}

#[test]
fn new_state_is_idle() {
    let s = VimState::new();
    assert!(!s.enabled);
    assert!(!s.is_operator_pending());
    assert!(!s.is_waiting());
    assert_eq!(s.effective_count(), 1);
    assert_eq!(s.register, '"');
}

#[test]
fn counts_accumulate_and_apply_to_motions() {
    let mut s = VimState::new();
    let text = "abcdefgh";
    assert!(matches!(s.handle_normal_key("3", text, 0), VimAction::NoAction));
    assert_eq!(s.effective_count(), 3);
    let a = s.handle_normal_key("l", text, 0);
    assert_eq!(moved_to(&a), Some(3));
    assert_eq!(s.count, None);
    s.push_count_digit(1);
    s.push_count_digit(2);
    assert_eq!(s.effective_count(), 12);
    s.clear_pending();
    assert_eq!(s.effective_count(), 1);
}

#[test]
fn zero_is_line_start_without_count() {
    let mut s = VimState::new();
    let text = "one\ntwo three";
    let a = s.handle_normal_key("0", text, 8);
    assert_eq!(moved_to(&a), Some(4));
    s.handle_normal_key("1", text, 8);
    s.handle_normal_key("0", text, 8);
    assert_eq!(s.effective_count(), 10);
}

#[test]
fn word_motions() {
    let mut s = VimState::new();
    let text = "foo bar.baz\nqux";
    assert_eq!(moved_to(&s.handle_normal_key("w", text, 0)), Some(4));
    assert_eq!(moved_to(&s.handle_normal_key("w", text, 4)), Some(8));
    assert_eq!(moved_to(&s.handle_normal_key("W", text, 4)), Some(12));
    assert_eq!(moved_to(&s.handle_normal_key("e", text, 0)), Some(2));
    assert_eq!(moved_to(&s.handle_normal_key("b", text, 4)), Some(0));
    assert_eq!(moved_to(&s.handle_normal_key("$", text, 1)), Some(11));
    assert_eq!(moved_to(&s.handle_normal_key("j", text, 1)), Some(13));
    assert_eq!(moved_to(&s.handle_normal_key("G", text, 1)), Some(15));
}

#[test]
fn delete_word_yields_operator_result() {
    let mut s = VimState::new();
    let text = "foo bar";
    assert!(matches!(s.handle_normal_key("d", text, 0), VimAction::NoAction));
    assert_eq!(s.pending_operator, Some(Operator::Delete));
    match s.handle_normal_key("w", text, 0) {
        VimAction::OperatorResult { delete_range, yank_text, enter_insert } => {
            assert_eq!(delete_range, 0..4);
            assert_eq!(yank_text, "foo ");
            assert!(!enter_insert);
        }
        other => panic!("unexpected {:?}", other),
    }
    assert!(!s.is_operator_pending());
}

#[test]
fn dd_deletes_the_line_and_cw_changes() {
    let mut s = VimState::new();
    let text = "one\ntwo\nthree";
    s.handle_normal_key("d", text, 5);
    match s.handle_normal_key("d", text, 5) {
        VimAction::OperatorResult { delete_range, yank_text, .. } => {
            assert_eq!(delete_range, 4..8);
            assert_eq!(yank_text, "two\n");
        }
        other => panic!("unexpected {:?}", other),
    }
    s.handle_normal_key("c", text, 0);
    match s.handle_normal_key("w", text, 0) {
        VimAction::OperatorResult { enter_insert, .. } => assert!(enter_insert),
        other => panic!("unexpected {:?}", other),
    }
}

#[test]
fn yank_line_gives_yank_command() {
    let mut s = VimState::new();
    let text = "one\ntwo";
    match s.handle_normal_key("Y", text, 1) {
        VimAction::Commands(cmds) => {
            assert_eq!(cmds, vec![EditorCommand::YankText("one\n".to_string())]);
        }
        other => panic!("unexpected {:?}", other),
    }
}

#[test]
fn find_char_waits_then_moves_and_repeats() {
    let mut s = VimState::new();
    let text = "a,b,c";
    assert!(matches!(s.handle_normal_key("f", text, 0), VimAction::NoAction));
    assert_eq!(s.waiting_for_char, Some(WaitingFor::FindChar));
    assert_eq!(moved_to(&s.handle_normal_key(",", text, 0)), Some(1));
    assert_eq!(s.last_char_search, Some(Motion::FindChar(',')));
    assert_eq!(moved_to(&s.handle_normal_key(";", text, 1)), Some(3));
    assert_eq!(moved_to(&s.handle_normal_key(",", text, 3)), Some(1));
    s.handle_normal_key("t", text, 0);
    assert_eq!(moved_to(&s.handle_normal_key("c", text, 0)), Some(3));
}

#[test]
fn replace_and_toggle_case() {
    let mut s = VimState::new();
    let text = "aB\n";
    s.handle_normal_key("r", text, 0);
    assert!(matches!(s.handle_normal_key("x", text, 0), VimAction::ReplaceChar('x', 1)));
    match s.handle_normal_key("~", text, 1) {
        VimAction::ReplaceAndAdvance(t, r) => {
            assert_eq!(t, "b");
            assert_eq!(r, 1..2);
        }
        other => panic!("unexpected {:?}", other),
    }
    assert!(matches!(s.handle_normal_key("~", text, 2), VimAction::NoAction));
}

#[test]
fn x_deletes_char_but_not_newline() {
    let mut s = VimState::new();
    let text = "é\n";
    match s.handle_normal_key("x", text, 0) {
        VimAction::OperatorResult { delete_range, yank_text, .. } => {
            assert_eq!(delete_range, 0..2);
            assert_eq!(yank_text, "é");
        }
        other => panic!("unexpected {:?}", other),
    }
    assert!(matches!(s.handle_normal_key("x", text, 2), VimAction::NoAction));
}

#[test]
fn insert_and_append_positions() {
    let mut s = VimState::new();
    let text = "  ab\ncd";
    assert!(matches!(s.handle_normal_key("i", text, 3), VimAction::ChangeMode(EditorMode::Insert)));
    assert!(matches!(s.handle_normal_key("I", text, 3), VimAction::InsertAt(2)));
    assert!(matches!(s.handle_normal_key("a", text, 2), VimAction::InsertAt(3)));
    assert!(matches!(s.handle_normal_key("A", text, 0), VimAction::InsertAt(4)));
    match s.handle_normal_key("o", text, 0) {
        VimAction::Commands(c) => {
            assert_eq!(c, vec![EditorCommand::MoveToOffset(4), EditorCommand::InsertNewline])
        }
        other => panic!("unexpected {:?}", other),
    }
}

#[test]
fn join_lines_deletes_newline_and_indent() {
    let mut s = VimState::new();
    let text = "ab\n   cd";
    match s.handle_normal_key("J", text, 0) {
        VimAction::OperatorResult { delete_range, yank_text, enter_insert } => {
            assert_eq!(delete_range, 2..6);
            assert_eq!(yank_text, "");
            assert!(!enter_insert);
        }
        other => panic!("unexpected {:?}", other),
    }
}

#[test]
fn indent_and_dedent_lines() {
    let mut s = VimState::new();
    let text = "x\n      y";
    s.handle_normal_key(">", text, 8);
    match s.handle_normal_key(">", text, 8) {
        VimAction::Commands(c) => assert_eq!(
            c,
            vec![EditorCommand::MoveToOffset(2), EditorCommand::InsertText("    ".into())]
        ),
        other => panic!("unexpected {:?}", other),
    }
    s.handle_normal_key("<", text, 8);
    match s.handle_normal_key("<", text, 8) {
        VimAction::OperatorResult { delete_range, .. } => assert_eq!(delete_range, 2..6),
        other => panic!("unexpected {:?}", other),
    }
}

#[test]
fn paste_linewise_and_charwise() {
    let mut s = VimState::new();
    let text = "ab\ncd";
    assert!(matches!(s.handle_normal_key("p", text, 0), VimAction::NoAction));
    s.register_content = "line\n".to_string();
    match s.handle_normal_key("p", text, 0) {
        VimAction::Commands(c) => assert_eq!(
            c,
            vec![EditorCommand::MoveToOffset(3), EditorCommand::InsertText("line\n".into())]
        ),
        other => panic!("unexpected {:?}", other),
    }
    s.register_content = "z".to_string();
    match s.handle_normal_key("p", text, 0) {
        VimAction::Commands(c) => assert_eq!(
            c,
            vec![EditorCommand::MoveToOffset(1), EditorCommand::InsertText("z".into())]
        ),
        other => panic!("unexpected {:?}", other),
    }
    match s.handle_normal_key("P", text, 1) {
        VimAction::Commands(c) => assert_eq!(c, vec![EditorCommand::InsertText("z".into())]),
        other => panic!("unexpected {:?}", other),
    }
}

#[test]
fn escape_and_unknown_keys_clear_pending() {
    let mut s = VimState::new();
    let text = "abc";
    s.handle_normal_key("d", text, 0);
    s.handle_normal_key("2", text, 0);
    assert!(matches!(s.handle_normal_key("escape", text, 0), VimAction::NoAction));
    assert!(!s.is_operator_pending());
    assert_eq!(s.count, None);
    s.handle_normal_key("y", text, 0);
    assert!(matches!(s.handle_normal_key("Q", text, 0), VimAction::NoAction));
    assert!(!s.is_operator_pending());
}

#[test]
fn gg_and_matching_bracket() {
    let mut s = VimState::new();
    let text = "(a [b] c)";
    s.handle_normal_key("g", text, 5);
    assert_eq!(moved_to(&s.handle_normal_key("g", text, 5)), Some(0));
    assert_eq!(moved_to(&s.handle_normal_key("%", text, 0)), Some(8));
    assert_eq!(moved_to(&s.handle_normal_key("%", text, 5)), Some(3));
}

#[test]
fn dot_repeats_recorded_change() {
    let mut s = VimState::new();
    assert!(matches!(s.handle_normal_key(".", "x", 0), VimAction::NoAction));
    s.last_change = Some(memex::vim::RecordedChange {
        commands: vec![EditorCommand::InsertChar('q'), EditorCommand::MoveLeft],
    });
    match s.handle_normal_key(".", "x", 0) {
        VimAction::Commands(c) => {
            assert_eq!(c, vec![EditorCommand::InsertChar('q'), EditorCommand::MoveLeft])
        }
        other => panic!("unexpected {:?}", other),
    }
}

#[test]
fn visual_mode_keys() {
    let mut s = VimState::new();
    let text = "foo bar";
    assert!(matches!(
        s.handle_visual_key("escape", text, 0),
        VimAction::ChangeMode(EditorMode::Normal)
    ));
    match s.handle_visual_key("d", text, 0) {
        VimAction::Commands(c) => assert_eq!(
            c,
            vec![EditorCommand::DeleteSelection, EditorCommand::EnterMode(EditorMode::Normal)]
        ),
        other => panic!("unexpected {:?}", other),
    }
    match s.handle_visual_key("c", text, 0) {
        VimAction::Commands(c) => assert_eq!(
            c,
            vec![EditorCommand::DeleteSelection, EditorCommand::EnterMode(EditorMode::Insert)]
        ),
        other => panic!("unexpected {:?}", other),
    }
    assert!(matches!(
        s.handle_visual_key("w", text, 0),
        VimAction::Command(EditorCommand::SelectToOffset(4))
    ));
    assert!(matches!(s.handle_visual_key("h", text, 0), VimAction::Command(EditorCommand::SelectLeft)));
    assert!(matches!(s.handle_visual_key("Z", text, 0), VimAction::NoAction));
    assert!(matches!(
        s.handle_visual_key(":", text, 0),
        VimAction::ChangeMode(EditorMode::Command)
    ));
}

#[test]
fn count_then_goto_line() {
    let mut s = VimState::new();
    let text = "a\nb\nc";
    s.handle_normal_key("2", text, 0);
    assert_eq!(moved_to(&s.handle_normal_key("G", text, 0)), Some(2));
    assert_eq!(s.count, None);
}

#[test]
fn paragraph_motions() {
    let mut s = VimState::new();
    let text = "a\nb\n\nc\nd";
    assert_eq!(moved_to(&s.handle_normal_key("}", text, 0)), Some(3));
    assert_eq!(moved_to(&s.handle_normal_key("{", text, 7)), Some(4));
}
