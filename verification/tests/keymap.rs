use memex::commands::EditorCommand;
use memex::keymap::{EditorMode, KeyCombo, Keymap};

#[test]
fn test_key_combo_parse_simple() {
    let k = KeyCombo::parse("a");
    assert_eq!(k.key, "a");
    assert!(!k.ctrl);
    assert!(!k.shift);
}

#[test]
fn test_key_combo_parse_ctrl() {
    let k = KeyCombo::parse("ctrl-z");
    assert_eq!(k.key, "z");
    assert!(k.ctrl);
    assert!(!k.shift);
}

#[test]
fn test_key_combo_parse_ctrl_shift() {
    let k = KeyCombo::parse("ctrl-shift-z");
    assert_eq!(k.key, "z");
    assert!(k.ctrl);
    assert!(k.shift);
}

#[test]
fn test_key_combo_parse_shift_left() {
    let k = KeyCombo::parse("shift-left");
    assert_eq!(k.key, "left");
    assert!(!k.ctrl);
    assert!(k.shift);
}

#[test]
fn test_default_keymap_resolves() {
    let km = Keymap::new();
    let key = KeyCombo::parse("ctrl-z");
    let cmd = km.resolve(EditorMode::Insert, &key);
    assert_eq!(cmd, Some(EditorCommand::Undo));
}

#[test]
fn test_bind_override() {
    let mut km = Keymap::new();
    km.bind(EditorMode::Insert, "ctrl-z", EditorCommand::Redo);
    let key = KeyCombo::parse("ctrl-z");
    let cmd = km.resolve(EditorMode::Insert, &key);
    assert_eq!(cmd, Some(EditorCommand::Redo));
}

#[test]
fn test_unbind() {
    let mut km = Keymap::new();
    km.unbind(EditorMode::Insert, "ctrl-z");
    let key = KeyCombo::parse("ctrl-z");
    let cmd = km.resolve(EditorMode::Insert, &key);
    assert_eq!(cmd, None);
}

#[test]
fn test_no_match_returns_none() {
    let km = Keymap::new();
    let key = KeyCombo::parse("f12");
    let cmd = km.resolve(EditorMode::Insert, &key);
    assert_eq!(cmd, None);
}

#[test]
fn alt_modifier_and_unknown_prefix_parse() {
    let k = KeyCombo::parse("alt-x");
    assert_eq!(k.key, "x");
    assert!(k.alt);
    assert!(!k.ctrl);
    let k = KeyCombo::parse("ctrl--");
    assert!(k.ctrl);
    assert_eq!(k.key, "-");
}

#[test]
fn from_keystroke_keeps_modifiers() {
    let k = KeyCombo::from_keystroke("s", true, false, true);
    assert_eq!(k.key, "s");
    assert!(k.ctrl);
    assert!(!k.shift);
    assert!(k.alt);
}

#[test]
fn bind_then_resolve_gives_bound_command_in_that_mode_only() {
    let mut km = Keymap::new();
    km.bind(EditorMode::Normal, "ctrl-k", EditorCommand::MoveUp);
    let key = KeyCombo::parse("ctrl-k");
    assert_eq!(km.resolve(EditorMode::Normal, &key), Some(EditorCommand::MoveUp));
    assert_eq!(km.resolve(EditorMode::Visual, &key), None);
}

#[test]
fn unbind_then_resolve_gives_none() {
    let mut km = Keymap::new();
    km.bind(EditorMode::Insert, "ctrl-q", EditorCommand::Redo);
    km.unbind(EditorMode::Insert, "ctrl-q");
    assert_eq!(km.resolve(EditorMode::Insert, &KeyCombo::parse("ctrl-q")), None);
}

#[test]
fn mode_labels() {
    assert_eq!(EditorMode::Insert.label(), "INSERT");
    assert_eq!(EditorMode::Normal.label(), "NORMAL");
}

#[test]
fn binding_a_key_leaves_other_keys_alone() {
    let mut km = Keymap::new();
    let undo_key = KeyCombo::parse("ctrl-z");
    let before = km.resolve(EditorMode::Insert, &undo_key);
    km.bind(EditorMode::Insert, "ctrl-k", EditorCommand::MoveUp);
    assert_eq!(km.resolve(EditorMode::Insert, &undo_key), before);
    assert_eq!(km.resolve(EditorMode::Normal, &KeyCombo::parse("ctrl-k")), None);
}
