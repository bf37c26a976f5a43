use memex::app_commands::{app_command, diagram_name, find_attachment, links_block, renamed_aliases, AppCommand};

#[test]
fn plain_commands_and_aliases() {
    assert_eq!(app_command("command-palette", ""), AppCommand::CommandPalette);
    assert_eq!(app_command("notes", ""), AppCommand::FindNote);
    assert_eq!(app_command("write", "w"), AppCommand::Write);
    assert_eq!(app_command("wq", "wq"), AppCommand::WriteQuit);
    assert_eq!(app_command("daily", ""), AppCommand::Journal);
    assert_eq!(app_command("grep", ""), AppCommand::ContentSearch);
    assert_eq!(app_command("new-diagram", ""), AppCommand::NewDiagram);
    assert_eq!(app_command("paste-image", ""), AppCommand::Attach);
}

#[test]
fn commands_with_arguments() {
    assert_eq!(app_command("rename", "rename   New Title  "), AppCommand::Rename("New Title".to_string()));
    assert_eq!(app_command("rn", "rn Other"), AppCommand::Rename("Other".to_string()));
    assert_eq!(app_command("tag", "tag rust"), AppCommand::TagNotes("rust".to_string()));
    assert_eq!(app_command("moc", "moc ideas"), AppCommand::InsertLinksByTag("ideas".to_string()));
    assert_eq!(app_command("edit", "e notes/a.md"), AppCommand::Edit("notes/a.md".to_string()));
    assert_eq!(app_command("forget-vault", "forget-vault /tmp/v"), AppCommand::VaultForget("/tmp/v".to_string()));
}

#[test]
fn missing_arguments_give_usage_or_fallback() {
    assert_eq!(app_command("rename", "rename"), AppCommand::Message("usage: :rename <new title>".to_string()));
    assert_eq!(app_command("moc", "moc   "), AppCommand::Message("usage: :moc <tag>".to_string()));
    assert_eq!(app_command("edit", "edit"), AppCommand::Message("Specify a file path".to_string()));
    assert_eq!(app_command("vault-forget", ""), AppCommand::Message("usage: :vault-forget <path>".to_string()));
    assert_eq!(app_command("tag", "tag"), AppCommand::TagList);
}

#[test]
fn other_commands_go_to_the_pane() {
    assert_eq!(app_command("dd", "dd"), AppCommand::Pane);
    assert_eq!(app_command("set", "set vim"), AppCommand::Pane);
}

fn strings(v: &[&str]) -> Vec<String> {
    v.iter().map(|s| s.to_string()).collect()
}

#[test]
fn links_by_tag_are_sorted_list_items() {
    assert_eq!(links_block(&strings(&["beta", "Alpha", "alpha"])), "- [[Alpha]]\n- [[alpha]]\n- [[beta]]\n");
    assert_eq!(links_block(&Vec::new()), "");
}

#[test]
fn renaming_keeps_the_old_title_as_alias() {
    assert_eq!(renamed_aliases(Some("Old"), "New", &strings(&["a"])), strings(&["a", "Old"]));
    assert_eq!(renamed_aliases(Some("Old"), "New", &strings(&["Old"])), strings(&["Old"]));
    assert_eq!(renamed_aliases(Some(""), "New", &strings(&["a"])), strings(&["a"]));
    assert_eq!(renamed_aliases(Some("New"), "New", &strings(&[])), strings(&[]));
    assert_eq!(renamed_aliases(None, "New", &strings(&["a"])), strings(&["a"]));
}

#[test]
fn pdf_links_find_attachments_ignoring_ascii_case() {
    let paths = strings(&["/v/att/notes.md", "/v/att/Paper.PDF", "/v/att/paper.pdf"]);
    assert_eq!(find_attachment(&paths, "paper.pdf"), Some(1));
    assert_eq!(find_attachment(&paths, "other.pdf"), None);
}

#[test]
fn new_diagrams_are_numbered() {
    assert_eq!(diagram_name(1), "diagram-1.excalidraw");
    assert_eq!(diagram_name(12), "diagram-12.excalidraw");
}
