use memex::command::{command_to_candidate, global_commands};

#[test]
fn palette_lists_global_commands() {
    let cmds = global_commands();
    assert_eq!(cmds.len(), 29);
    assert_eq!(cmds[0].id, "write");
    assert_eq!(cmds[0].aliases, &["w", "save"]);
    assert_eq!(cmds.last().unwrap().id, "theme");
    assert!(cmds.iter().any(|c| c.id == "set-vim" && c.binding.is_none()));
}

#[test]
fn candidate_shows_binding_in_detail() {
    let cmds = global_commands();
    let c = command_to_candidate(&cmds[0]);
    assert_eq!(c.label, "Save");
    assert_eq!(c.detail.as_deref(), Some("Save current note to disk  [:w]"));
    assert!(!c.is_action);
    assert_eq!(c.data, "write");
    let vim = cmds.iter().find(|c| c.id == "set-vim").unwrap();
    let c = command_to_candidate(vim);
    assert_eq!(c.detail.as_deref(), Some("Enable vim keybindings"));
}
