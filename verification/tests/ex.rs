use memex::ex::{handle_set_command, item_execute_command, parse_ex_command, ExCommand, ItemAction, VimSnapshot};

const NORMAL: VimSnapshot = VimSnapshot { vim_enabled: true, insert_active: false, visual_active: false };

#[test]
fn ex_commands_are_recognised() {
    assert_eq!(parse_ex_command("  w  "), ExCommand::Save);
    assert_eq!(parse_ex_command("write"), ExCommand::Save);
    assert_eq!(parse_ex_command("q"), ExCommand::Quit);
    assert_eq!(parse_ex_command("x"), ExCommand::SaveAndQuit);
    assert_eq!(parse_ex_command("set vim"), ExCommand::SetOption("vim".to_string()));
    assert_eq!(parse_ex_command("set"), ExCommand::SetOption(String::new()));
    assert_eq!(parse_ex_command("noh"), ExCommand::ClearHighlight);
    assert_eq!(parse_ex_command("e"), ExCommand::EditWithoutPath);
    assert_eq!(parse_ex_command("edit  notes/a.md "), ExCommand::Edit("notes/a.md".to_string()));
    assert_eq!(parse_ex_command("switch-vault"), ExCommand::VaultSwitch);
    assert_eq!(parse_ex_command("open-vault"), ExCommand::VaultOpen);
    assert_eq!(parse_ex_command("find"), ExCommand::NoteSearch);
    assert_eq!(parse_ex_command("foo bar"), ExCommand::Unknown("foo".to_string()));
}

#[test]
fn set_reports_and_switches_vim() {
    assert_eq!(handle_set_command("", &NORMAL), ("vim=true mode=NOR".to_string(), vec![]));
    let visual = VimSnapshot { vim_enabled: false, insert_active: true, visual_active: true };
    assert_eq!(handle_set_command("", &visual).0, "vim=false mode=VIS");
    let insert = VimSnapshot { vim_enabled: true, insert_active: true, visual_active: false };
    assert_eq!(handle_set_command("", &insert).0, "vim=true mode=INS");
    assert_eq!(
        handle_set_command("vim", &NORMAL),
        ("Vim mode enabled".to_string(), vec![ItemAction::SetVimEnabled(true), ItemAction::SyncVimFlags])
    );
    assert_eq!(
        handle_set_command("novim", &NORMAL),
        ("Vim mode disabled".to_string(), vec![ItemAction::SetVimEnabled(false), ItemAction::SyncVimFlags])
    );
    assert_eq!(handle_set_command("nu", &NORMAL).0, "Line numbers not yet implemented");
    assert_eq!(handle_set_command("wrap", &NORMAL).0, "Soft wrap is enabled");
    assert_eq!(handle_set_command("nowrap", &NORMAL).0, "Soft wrap cannot be disabled yet");
    assert_eq!(handle_set_command("xyz", &NORMAL).0, "Unknown option: xyz");
}

#[test]
fn palette_commands_of_the_editor() {
    assert_eq!(
        item_execute_command("toggle-vim", NORMAL),
        Some(vec![ItemAction::SetVimEnabled(false), ItemAction::SyncVimFlags])
    );
    assert_eq!(
        item_execute_command("set", NORMAL),
        Some(vec![ItemAction::SetMessage("vim=true mode=NOR".to_string())])
    );
    assert_eq!(item_execute_command("outline-promote", NORMAL), None);
}
