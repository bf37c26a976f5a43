use memex::command::Candidate;
use memex::confirm::{confirm_action, ConfirmAction, DelegateKind};

fn entry(data: &str, is_action: bool) -> Candidate {
    Candidate { label: data.to_string(), detail: None, is_action, data: data.to_string() }
}

#[test]
fn command_palette_runs_the_choice_or_the_typed_line() {
    let cands = vec![entry("write", false)];
    assert_eq!(
        confirm_action(&DelegateKind::Command, &cands, 0, "w"),
        ConfirmAction::RunCommand { id: "write".to_string(), input: "w".to_string() }
    );
    assert_eq!(confirm_action(&DelegateKind::Command, &vec![], 0, "set vim"), ConfirmAction::ExCommand("set vim".to_string()));
    assert_eq!(confirm_action(&DelegateKind::Command, &vec![], 0, ""), ConfirmAction::Nothing);
}

#[test]
fn note_finder_opens_or_creates() {
    let cands = vec![entry("a.md", false), entry("New", true)];
    assert_eq!(confirm_action(&DelegateKind::NoteSearch, &cands, 0, "a"), ConfirmAction::OpenNote("a.md".to_string()));
    assert_eq!(confirm_action(&DelegateKind::NoteSearch, &cands, 1, "New"), ConfirmAction::CreateNote("New".to_string()));
    assert_eq!(confirm_action(&DelegateKind::NoteSearch, &vec![], 0, "Other"), ConfirmAction::CreateNote("Other".to_string()));
}

#[test]
fn other_lists_act_on_the_chosen_entry() {
    let cands = vec![entry("/v", false)];
    assert_eq!(confirm_action(&DelegateKind::VaultSwitch, &cands, 0, ""), ConfirmAction::SwitchVault("/v".to_string()));
    assert_eq!(confirm_action(&DelegateKind::VaultSwitch, &cands, 1, "x"), ConfirmAction::Nothing);
    assert_eq!(confirm_action(&DelegateKind::VaultOpen, &vec![], 0, "/tmp/x"), ConfirmAction::OpenVaultDir("/tmp/x".to_string()));
    assert_eq!(confirm_action(&DelegateKind::TagList, &vec![entry("rust", false)], 0, ""), ConfirmAction::ShowTagNotes("rust".to_string()));
    assert_eq!(confirm_action(&DelegateKind::ContentSearch, &cands, 0, "q"), ConfirmAction::OpenNote("/v".to_string()));
    assert_eq!(
        confirm_action(&DelegateKind::WikilinkAutocomplete, &vec![], 0, "Typed"),
        ConfirmAction::InsertWikilink("Typed".to_string())
    );
    assert_eq!(
        confirm_action(&DelegateKind::Item("diagram".to_string()), &cands, 0, ""),
        ConfirmAction::ItemConfirm { id: "diagram".to_string(), chosen: Some(0) }
    );
}

#[test]
fn theme_picker_selects_only_known_themes() {
    assert_eq!(
        confirm_action(&DelegateKind::Theme, &vec![entry("nord", false)], 0, ""),
        ConfirmAction::SelectTheme("nord".to_string())
    );
    assert_eq!(confirm_action(&DelegateKind::Theme, &vec![entry("nope", false)], 0, ""), ConfirmAction::Nothing);
}
