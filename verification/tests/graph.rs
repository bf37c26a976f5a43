use memex::graph::extract_wikilinks;
use memex::line_style::{StyleKind, StyleSpan};

/// The wikilink spans of each line, as the markdown parser marks them:
/// from each `[[` to the `]]` that closes it.
fn wikilink_spans(content: &str) -> Vec<Vec<StyleSpan>> {
    content
        .lines()
        .map(|line| {
            let mut spans = Vec::new();
            let mut from = 0;
            while let Some(open) = line[from..].find("[[") {
                let start = from + open;
                match line[start + 2..].find("]]") {
                    Some(close) => {
                        let end = start + 2 + close + 2;
                        spans.push(StyleSpan { range: start..end, kind: StyleKind::Wikilink });
                        from = end;
                    }
                    None => break,
                }
            }
            spans
        })
        .collect()
}

fn links_of(content: &str) -> Vec<String> {
    extract_wikilinks(content, &wikilink_spans(content))
}

#[test]
fn test_extract_wikilinks() {
    let content = "See [[my note]] and [[other page|display text]] here.";
    let links = links_of(content);
    assert_eq!(links, vec!["my note", "other page"]);
}

#[test]
fn test_extract_wikilinks_empty() {
    let content = "No links here.";
    let links = links_of(content);
    assert!(links.is_empty());
}

#[test]
fn test_extract_wikilinks_multiline() {
    let content = "# Title\n\nSee [[note a]].\n\nAlso [[note b]].\n";
    let links = links_of(content);
    assert_eq!(links, vec!["note a", "note b"]);
}

#[test]
fn link_targets_are_trimmed_and_empty_ones_skipped() {
    let links = links_of("[[  spaced  |alias]] [[ ]] [[|only alias]]\r\n[[last]]");
    assert_eq!(links, vec!["spaced", "last"]);
}

#[test]
fn spans_of_other_kinds_name_no_link() {
    let content = "**[[bold]]**";
    let spans = vec![vec![StyleSpan { range: 0..12, kind: StyleKind::Bold }]];
    assert!(extract_wikilinks(content, &spans).is_empty());
}

#[test]
fn no_text_has_no_links() {
    assert!(extract_wikilinks("", &Vec::new()).is_empty());
}
