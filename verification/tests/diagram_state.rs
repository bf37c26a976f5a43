use memex::diagram_state::{
    deleted_message, diagram_command, history_message, set_tool, DiagramCommand, ElementSelection, SnapshotHistory, Tool,
    UNDO_CAP,
};

#[test]
fn tools_create_their_element_types() {
    assert_eq!(Tool::Select.element_type(), None);
    assert_eq!(Tool::Draw.element_type(), Some("freedraw"));
    assert_eq!(Tool::Rectangle.element_type(), Some("rectangle"));
}

#[test]
fn selection_toggles() {
    let mut sel = ElementSelection::new();
    sel.select_only(3);
    assert!(sel.is_selected(3));
    sel.toggle_select(5);
    assert_eq!(sel.selected, vec![3, 5]);
    sel.toggle_select(3);
    assert_eq!(sel.selected, vec![5]);
    sel.toggle_select(3);
    assert_eq!(sel.selected, vec![5, 3]);
    sel.clear_selection();
    assert!(!sel.is_selected(5));
}

#[test]
fn snapshots_undo_and_redo() {
    let mut history: SnapshotHistory<String> = SnapshotHistory::new();
    let mut doc = "v1".to_string();
    history.push_undo(doc.clone());
    doc = "v2".to_string();
    assert!(history.undo(&mut doc));
    assert_eq!(doc, "v1");
    assert!(!history.undo(&mut doc));
    assert!(history.redo(&mut doc));
    assert_eq!(doc, "v2");
    assert!(!history.redo(&mut doc));
    history.push_undo("x".to_string());
    history.discard_last_undo();
    assert_eq!(history.undo_stack, vec!["v1".to_string()]);
}

#[test]
fn undo_history_is_capped() {
    let mut history: SnapshotHistory<usize> = SnapshotHistory::new();
    for i in 0..(UNDO_CAP + 5) {
        history.push_undo(i);
    }
    assert_eq!(history.undo_stack.len(), UNDO_CAP);
    assert_eq!(history.undo_stack[0], 5);
}

#[test]
fn diagram_commands_are_recognised() {
    assert_eq!(diagram_command("diagram-zoom-in"), Some(DiagramCommand::ZoomIn));
    assert_eq!(diagram_command("diagram-tool-arrow"), Some(DiagramCommand::SetTool(Tool::Arrow)));
    assert_eq!(diagram_command("diagram-redo"), Some(DiagramCommand::Redo));
    assert_eq!(diagram_command("outline-cycle-fold"), None);
}

#[test]
fn choosing_a_drawing_tool_drops_the_selection() {
    let mut tool = Tool::Select;
    let mut sel = ElementSelection::new();
    sel.select_only(3);
    set_tool(&mut tool, &mut sel, Tool::Select);
    assert_eq!(sel.selected, vec![3]);
    set_tool(&mut tool, &mut sel, Tool::Rectangle);
    assert_eq!(tool, Tool::Rectangle);
    assert!(sel.selected.is_empty());
}

#[test]
fn diagram_messages() {
    assert_eq!(deleted_message(2), Some("Deleted 2 element(s)".to_string()));
    assert_eq!(deleted_message(0), None);
    assert_eq!(history_message(false, true), "Undo");
    assert_eq!(history_message(true, false), "Nothing to redo");
}
