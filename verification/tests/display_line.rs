use std::ops::Range;

use memex::display_line::{build_display_line, wikilink_at_offset, wikilink_label, wikilink_target};
use memex::display_map::DisplayMap;
use memex::line_style::{StyleKind, StyleSpan};

fn span(range: Range<usize>, kind: StyleKind) -> StyleSpan {
    StyleSpan { range, kind }
}

fn titles(entries: &[(&str, &str)]) -> Vec<(String, String)> {
    entries.iter().map(|(k, v)| (k.to_string(), v.to_string())).collect()
}

#[test]
fn note_wikilink_renders_canonical_title() {
    let source = "See [[id:abc]] now";
    let spans = vec![span(0..4, StyleKind::Normal), span(4..14, StyleKind::Wikilink), span(14..18, StyleKind::Normal)];
    let titles = titles(&[("id:abc", "My Note")]);

    let display = build_display_line(source, &spans, &titles, None);

    assert_eq!(display.text, "See My Note now");
}

#[test]
fn pdf_annotation_wikilink_renders_selected_text_alias() {
    let source = "[[paper.pdf#annotation=memex:abc|selected text]]";
    let spans = vec![span(0..source.len(), StyleKind::Wikilink)];

    let display = build_display_line(source, &spans, &[], None);

    assert_eq!(display.text, "selected text");
    assert_eq!(display.display_to_source[1], 0);
    assert_eq!(display.source_to_display[source.len()], display.text.len());
}

#[test]
fn unresolved_wikilink_renders_target_without_markup() {
    let source = "[[Missing Note]]";
    let spans = vec![span(0..source.len(), StyleKind::Wikilink)];

    let display = build_display_line(source, &spans, &[], None);

    assert_eq!(display.text, "Missing Note");
}

#[test]
fn wikilink_under_cursor_renders_raw_source() {
    let source = "See [[id:abc]] now";
    let spans = vec![span(0..4, StyleKind::Normal), span(4..14, StyleKind::Wikilink), span(14..18, StyleKind::Normal)];
    let titles = titles(&[("id:abc", "My Note")]);

    let display = build_display_line(source, &spans, &titles, Some(8));

    assert_eq!(display.text, source);
    assert_eq!(display.source_to_display[8], 8);
    assert_eq!(display.display_to_source[8], 8);
}

#[test]
fn only_wikilink_under_cursor_renders_raw_source() {
    let source = "[[id:a]] and [[id:b]]";
    let spans = vec![span(0..8, StyleKind::Wikilink), span(8..13, StyleKind::Normal), span(13..21, StyleKind::Wikilink)];
    let titles = titles(&[("id:a", "First"), ("id:b", "Second")]);

    let display = build_display_line(source, &spans, &titles, Some(3));

    assert_eq!(display.text, "[[id:a]] and Second");
}

#[test]
fn concealed_link_maps_offsets_to_its_label() {
    let source = "a [[x]] b";
    let spans = vec![span(0..2, StyleKind::Normal), span(2..7, StyleKind::Wikilink), span(7..9, StyleKind::Normal)];
    let display = build_display_line(source, &spans, &titles(&[("x", "Ex")]), None);
    assert_eq!(display.text, "a Ex b");
    assert_eq!(display.source_to_display, vec![0, 1, 2, 2, 2, 2, 2, 4, 5, 6]);
    assert_eq!(display.display_to_source, vec![0, 1, 2, 2, 7, 8, 9]);
    assert_eq!(display.spans, vec![span(0..2, StyleKind::Normal), span(2..4, StyleKind::Wikilink), span(4..6, StyleKind::Normal)]);
}

#[test]
fn wikilink_labels() {
    let t = titles(&[("my note", "My Note")]);
    assert_eq!(wikilink_label("[[My Note]]", &t), Some("My Note".to_string()));
    assert_eq!(wikilink_label("[[ my note ]]", &t), Some("My Note".to_string()));
    assert_eq!(wikilink_label("[[other|  shown ]]", &t), Some("shown".to_string()));
    assert_eq!(wikilink_label("[[my note| ]]", &t), Some("My Note".to_string()));
    assert_eq!(wikilink_label("[[Else]]", &t), Some("Else".to_string()));
    assert_eq!(wikilink_label("[[x]", &t), None);
    assert_eq!(wikilink_label("[[]]", &t), Some(String::new()));
}

#[test]
fn wikilink_targets() {
    assert_eq!(wikilink_target("[[my note]]"), Some("my note".to_string()));
    assert_eq!(wikilink_target("[[ other page |display text]]"), Some("other page".to_string()));
    assert_eq!(wikilink_target("[[ |alias]]"), None);
    assert_eq!(wikilink_target("[my note]"), None);
}

#[test]
fn plain_text_holds_no_wikilink() {
    let content = "plain words\nmore";
    let mut display = DisplayMap::new();
    display.update(content);
    assert_eq!(wikilink_at_offset(content, &display, 3), None);
    assert_eq!(wikilink_at_offset(content, &display, 14), None);
}
