use std::path::PathBuf;

use memex::command::global_commands;
use memex::palette::{palette_candidates, search_titles, MAX_RESULTS};

#[test]
fn empty_query_lists_first_commands_in_order() {
    let global = global_commands();
    let item = Vec::new();
    let list = palette_candidates(&item, &global, "");
    assert_eq!(list.len(), MAX_RESULTS);
    assert_eq!(list[0].data, "write");
    assert_eq!(list[1].data, "quit");
}

#[test]
fn item_commands_come_before_global_ones() {
    let global = global_commands();
    let item = vec![global[5]];
    let list = palette_candidates(&item, &global, "");
    assert_eq!(list[0].data, global[5].id);
    assert_eq!(list[1].data, "write");
}

#[test]
fn query_ranks_matching_commands() {
    let global = global_commands();
    let list = palette_candidates(&[], &global, "backlinks");
    assert!(!list.is_empty());
    assert!(list.len() <= MAX_RESULTS);
    assert_eq!(list[0].data, "backlinks");
    assert!(palette_candidates(&[], &global, "qqqqzzzzxxxx").is_empty());
}

#[test]
fn note_finder_ranks_titles() {
    let notes = vec![
        ("Groceries".to_string(), PathBuf::from("groceries.md")),
        ("Project plan".to_string(), PathBuf::from("plan.md")),
        ("Reading list".to_string(), PathBuf::from("reading.md")),
    ];
    let all = search_titles(&notes, "");
    assert_eq!(all.len(), 3);
    assert_eq!(all[1].0, "Project plan");
    let hits = search_titles(&notes, "plan");
    assert_eq!(hits.len(), 1);
    assert_eq!(hits[0].1, PathBuf::from("plan.md"));
    assert!(search_titles(&notes, "zzz").is_empty());
}
