use memex::candidates::{
    recent_vault_candidates, theme_candidates, vault_dir_candidates, note_candidates, orphan_candidates, tag_list_candidates, tag_notes_candidates,
    vault_switch_candidates, wikilink_candidates, wikilink_completion_op,
};
use memex::command::Candidate;

fn entry(label: &str, detail: Option<&str>, is_action: bool, data: &str) -> Candidate {
    Candidate {
        label: label.to_string(),
        detail: detail.map(|d| d.to_string()),
        is_action,
        data: data.to_string(),
    }
}

#[test]
fn tags_are_listed_with_counts() {
    let tags = vec![("rust".to_string(), 3usize), ("go".to_string(), 1usize)];
    assert_eq!(
        tag_list_candidates(&tags, ""),
        vec![entry("#rust", Some("3 notes"), false, "rust"), entry("#go", Some("1 note"), false, "go")]
    );
    assert_eq!(tag_list_candidates(&tags, "rus"), vec![entry("#rust", Some("3 notes"), false, "rust")]);
}

#[test]
fn tagged_notes_and_orphans() {
    let notes = vec![("Alpha".to_string(), "a.md".to_string()), ("Beta".to_string(), "b.md".to_string())];
    assert_eq!(tag_notes_candidates(&notes, "").len(), 2);
    assert_eq!(tag_notes_candidates(&notes, "Bet"), vec![entry("Beta", None, false, "b.md")]);
    let orphans = vec![
        Some(("A".to_string(), "a.md".to_string())),
        None,
        Some(("B".to_string(), "b.md".to_string())),
    ];
    assert_eq!(
        orphan_candidates(&orphans, ""),
        vec![entry("A", None, false, "a.md"), entry("B", None, false, "b.md")]
    );
    assert_eq!(orphan_candidates(&orphans, "B"), vec![entry("B", None, false, "b.md")]);
}

#[test]
fn vaults_are_named_by_their_folder() {
    let paths = vec!["/home/u/work".to_string(), "/home/u/notes".to_string()];
    assert_eq!(
        vault_switch_candidates(&paths, ""),
        vec![
            entry("work", Some("/home/u/work"), false, "/home/u/work"),
            entry("notes", Some("/home/u/notes"), false, "/home/u/notes")
        ]
    );
    assert_eq!(vault_switch_candidates(&paths, "notes")[0].label, "notes");
    assert_eq!(vault_switch_candidates(&["/".to_string()], "")[0].label, "vault");
}

#[test]
fn note_finder_offers_to_create_missing_notes() {
    let found = vec![("Alpha".to_string(), "a.md".to_string()), ("Paper".to_string(), "p.PDF".to_string())];
    assert_eq!(
        note_candidates(&found, "alp"),
        vec![
            entry("Alpha", None, false, "a.md"),
            entry("📄 Paper", None, false, "p.PDF"),
            entry("+ Create \"alp\"", None, true, "alp")
        ]
    );
    assert_eq!(note_candidates(&found, "alpha").len(), 2);
    assert_eq!(note_candidates(&[], "").len(), 0);
}

#[test]
fn wikilinks_list_titles_and_aliases() {
    let notes = vec![
        ("Alpha".to_string(), "a.md".to_string(), vec!["Al".to_string()]),
        ("Doc".to_string(), "d.pdf".to_string(), vec![]),
    ];
    assert_eq!(
        wikilink_candidates(&notes, ""),
        vec![entry("Alpha", None, false, "Alpha"), entry("Al", Some("alias of Alpha"), false, "Alpha")]
    );
    let only_alias = wikilink_candidates(&notes, "Al");
    assert_eq!(only_alias.len(), 2);
    assert!(only_alias.iter().all(|c| c.data == "Alpha"));
    assert!(wikilink_candidates(&notes, "zzz").is_empty());
}

#[test]
fn completing_a_wikilink() {
    let op = wikilink_completion_op("see [[", 6, "Alpha").unwrap();
    assert_eq!(op.range, 4..6);
    assert_eq!(op.old_text, "[[");
    assert_eq!(op.new_text, "[[Alpha]]");
    assert_eq!((op.cursor_before, op.cursor_after), (6, 13));
    assert!(wikilink_completion_op("see [", 5, "Alpha").is_none());
    assert!(wikilink_completion_op("[[", 1, "Alpha").is_none());
}

fn themes() -> Vec<(String, String, String)> {
    vec![
        ("solarized-light".to_string(), "Solarized Light".to_string(), "Warm light theme".to_string()),
        ("nord".to_string(), "Nord".to_string(), "Arctic blue".to_string()),
    ]
}

#[test]
fn theme_picker_lists_and_filters_themes() {
    let all = theme_candidates(&themes(), "nord", "");
    assert_eq!(
        all,
        vec![
            entry("Solarized Light", Some("Warm light theme"), true, "solarized-light"),
            entry("Nord", Some("Arctic blue (active)"), false, "nord"),
        ]
    );
    assert_eq!(theme_candidates(&themes(), "nord", "SOLAR"), vec![entry("Solarized Light", Some("Warm light theme"), true, "solarized-light")]);
    assert_eq!(theme_candidates(&themes(), "x", "-light").len(), 1);
    assert!(theme_candidates(&themes(), "nord", "zzz").is_empty());
}

#[test]
fn recent_vaults_mark_the_open_one() {
    let paths = vec!["/home/u/notes".to_string(), "/home/u/work/".to_string()];
    assert_eq!(
        recent_vault_candidates(&paths, Some("/home/u/work/")),
        vec![
            entry("notes", Some("/home/u/notes"), false, "/home/u/notes"),
            entry("work  (current)", Some("/home/u/work/"), false, "/home/u/work/"),
        ]
    );
    assert_eq!(recent_vault_candidates(&paths, None)[1].label, "work");
    let many: Vec<String> = (0..20).map(|i| format!("/v/{}", i)).collect();
    assert_eq!(recent_vault_candidates(&many, None).len(), 15);
}

#[test]
fn vault_opener_lists_visible_subdirectories_by_name() {
    let entries = vec![
        ("Zeta".to_string(), "/p/Zeta".to_string(), false),
        (".hidden".to_string(), "/p/.hidden".to_string(), false),
        ("alpha".to_string(), "/p/alpha".to_string(), true),
        ("Beta".to_string(), "/p/Beta".to_string(), false),
    ];
    assert_eq!(
        vault_dir_candidates(&entries, ""),
        vec![
            entry("alpha/  \u{2605}", Some("/p/alpha"), false, "/p/alpha"),
            entry("Beta/", Some("/p/Beta"), false, "/p/Beta"),
            entry("Zeta/", Some("/p/Zeta"), false, "/p/Zeta"),
        ]
    );
    assert_eq!(vault_dir_candidates(&entries, "b"), vec![entry("Beta/", Some("/p/Beta"), false, "/p/Beta")]);
    assert!(vault_dir_candidates(&entries, ".h").is_empty());
}
