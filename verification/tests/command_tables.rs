use memex::command_tables::{diagram_commands, editor_commands, graph_commands};

#[test]
fn editor_commands_are_the_outline_commands() {
    let cmds = editor_commands();
    assert_eq!(cmds.len(), 8);
    assert_eq!(cmds[0].id, "outline-cycle-fold");
    assert_eq!(cmds[0].aliases, &["fold", "toggle-fold"]);
    assert_eq!(cmds[0].binding, Some("Tab"));
    assert_eq!(cmds[7].id, "outline-prev-heading");
}

#[test]
fn diagram_and_graph_commands() {
    let d = diagram_commands();
    assert_eq!(d.len(), 16);
    assert_eq!(d[0].id, "diagram-zoom-in");
    assert_eq!(d[9].binding, None);
    assert_eq!(d[15].id, "diagram-redo");
    let g = graph_commands();
    assert_eq!(g.len(), 6);
    assert_eq!(g[5].binding, Some("q"));
}
