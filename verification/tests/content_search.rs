use memex::command::Candidate;
use memex::content_search::{
    content_search_candidates, count_matches, extract_snippet, note_hit, search_needle, Hit, NoteMatch,
};

fn hit(count: usize, title: &str) -> Hit {
    Hit {
        count,
        title: title.to_string(),
        path: format!("{}.md", title),
        snippet: format!("about {}", title),
    }
}

#[test]
fn matches_are_counted_without_overlap() {
    assert_eq!(count_matches("abcabc", "abc"), 2);
    assert_eq!(count_matches("aaaa", "aa"), 2);
    assert_eq!(count_matches("aaa", "aa"), 1);
    assert_eq!(count_matches("hello", "xyz"), 0);
    assert_eq!(count_matches("ab", "abc"), 0);
    assert_eq!(count_matches("ééé", "é"), 3);
}

#[test]
fn hits_are_ranked_by_count_then_title() {
    let hits = vec![hit(1, "beta"), hit(3, "gamma"), hit(1, "alpha"), hit(3, "delta")];
    let r = content_search_candidates(&hits);
    let labels: Vec<&str> = r.iter().map(|c| c.label.as_str()).collect();
    assert_eq!(labels, vec!["delta (3×)", "gamma (3×)", "alpha", "beta"]);
    assert_eq!(
        r[2],
        Candidate {
            label: "alpha".to_string(),
            detail: Some("about alpha".to_string()),
            is_action: false,
            data: "alpha.md".to_string(),
        }
    );
}

#[test]
fn content_search_is_capped() {
    let hits: Vec<Hit> = (0..120).map(|i| hit(1, &format!("n{:03}", i))).collect();
    let r = content_search_candidates(&hits);
    assert_eq!(r.len(), 15);
    assert_eq!(r[0].label, "n000");
    assert!(content_search_candidates(&Vec::new()).is_empty());
}

#[test]
fn snippet_of_a_short_note_is_the_whole_line() {
    assert_eq!(extract_snippet("Hello World", "world", 60), Some("Hello World".to_string()));
    assert_eq!(extract_snippet("abc", "z", 60), Some("…".to_string()));
}

#[test]
fn snippet_is_cut_around_the_match() {
    assert_eq!(extract_snippet("abcdefghij", "f", 3), Some("…cdefghi…".to_string()));
    assert_eq!(extract_snippet("café au lait", "lait", 2), Some("…u lait".to_string()));
}

#[test]
fn snippet_keeps_only_its_first_line() {
    assert_eq!(
        extract_snippet("first line\nsecond match here\nthird", "match", 60),
        Some("first line".to_string())
    );
}

#[test]
fn snippet_cannot_be_cut_inside_a_character() {
    // U+1E9E lowercases to a shorter encoding, so the match offset in the
    // lowercase text falls inside the capital's encoding.
    assert_eq!(extract_snippet("\u{1E9E}a", "a", 60), None);
}

#[test]
fn notes_are_searched_case_insensitively() {
    assert_eq!(
        note_hit("rust", "Rust Notes", "r.md", "Rust is great. I like rust."),
        NoteMatch::Found(Hit {
            count: 2,
            title: "Rust Notes".to_string(),
            path: "r.md".to_string(),
            snippet: "Rust is great. I like rust.".to_string(),
        })
    );
    assert_eq!(note_hit("zzz", "T", "t.md", "nothing here"), NoteMatch::Absent);
    assert_eq!(note_hit("a", "T", "t.md", "\u{1E9E}a"), NoteMatch::Uncut);
}

#[test]
fn search_needle_is_trimmed_and_lowercased() {
    assert_eq!(search_needle("  Hello World "), Some("hello world".to_string()));
    assert_eq!(search_needle("   "), None);
    assert_eq!(search_needle(""), None);
}
