use memex::line_style::{
    analyze_line, document_lines, heading_line_info, parse_inline_styles, LineKind, StyleKind, StyleSpan,
};

fn sp(start: usize, end: usize, kind: StyleKind) -> StyleSpan {
    StyleSpan { range: start..end, kind }
}

#[test]
fn empty_text_is_one_empty_plain_span() {
    assert_eq!(parse_inline_styles(""), vec![sp(0, 0, StyleKind::Normal)]);
}

#[test]
fn plain_text_is_one_span() {
    assert_eq!(parse_inline_styles("plain"), vec![sp(0, 5, StyleKind::Normal)]);
}

#[test]
fn bold_between_plain_text() {
    assert_eq!(
        parse_inline_styles("a **b** c"),
        vec![
            sp(0, 2, StyleKind::Normal),
            sp(2, 7, StyleKind::Bold),
            sp(7, 9, StyleKind::Normal)
        ]
    );
}

#[test]
fn each_inline_delimiter() {
    assert_eq!(parse_inline_styles("`x`"), vec![sp(0, 3, StyleKind::Code)]);
    assert_eq!(parse_inline_styles("***bi***"), vec![sp(0, 8, StyleKind::BoldItalic)]);
    assert_eq!(parse_inline_styles("*i*"), vec![sp(0, 3, StyleKind::Italic)]);
    assert_eq!(parse_inline_styles("~~s~~"), vec![sp(0, 5, StyleKind::Strikethrough)]);
}

#[test]
fn unclosed_double_star_falls_back_to_italic() {
    assert_eq!(
        parse_inline_styles("**open"),
        vec![sp(0, 2, StyleKind::Italic), sp(2, 6, StyleKind::Normal)]
    );
}

#[test]
fn multibyte_text_keeps_byte_offsets() {
    assert_eq!(
        parse_inline_styles("é `c`"),
        vec![sp(0, 3, StyleKind::Normal), sp(3, 6, StyleKind::Code)]
    );
}

#[test]
fn heading_line_splits_syntax_and_content() {
    let mut in_code = false;
    let info = analyze_line("# Title", &mut in_code);
    assert_eq!(info.kind, LineKind::Heading(1));
    assert_eq!(
        info.spans,
        vec![sp(0, 2, StyleKind::HeadingSyntax), sp(2, 7, StyleKind::Normal)]
    );
    assert!(!in_code);
}

#[test]
fn heading_content_keeps_inline_styles() {
    let info = heading_line_info("## a *b*", 2);
    assert_eq!(info.kind, LineKind::Heading(2));
    assert_eq!(
        info.spans,
        vec![
            sp(0, 3, StyleKind::HeadingSyntax),
            sp(3, 5, StyleKind::Normal),
            sp(5, 8, StyleKind::Italic)
        ]
    );
}

#[test]
fn indented_heading_syntax_ends_at_first_space() {
    let mut in_code = false;
    let info = analyze_line("  # x", &mut in_code);
    assert_eq!(info.kind, LineKind::Heading(1));
    assert_eq!(
        info.spans,
        vec![sp(0, 1, StyleKind::HeadingSyntax), sp(1, 5, StyleKind::Normal)]
    );
}

#[test]
fn not_headings() {
    let mut in_code = false;
    assert_eq!(analyze_line("####### seven", &mut in_code).kind, LineKind::Normal);
    assert_eq!(analyze_line("#tag", &mut in_code).kind, LineKind::Normal);
    assert_eq!(analyze_line("######", &mut in_code).kind, LineKind::Heading(6));
}

#[test]
fn fences_toggle_code_blocks() {
    let mut in_code = false;
    let open = analyze_line("```rust", &mut in_code);
    assert_eq!(open.kind, LineKind::CodeBlock);
    assert_eq!(open.spans, vec![sp(0, 7, StyleKind::CodeFence)]);
    assert!(in_code);

    let body = analyze_line("# not a heading", &mut in_code);
    assert_eq!(body.kind, LineKind::CodeBlock);
    assert_eq!(body.spans, vec![sp(0, 15, StyleKind::Code)]);

    let blank = analyze_line("", &mut in_code);
    assert_eq!(blank.spans, vec![sp(0, 1, StyleKind::Code)]);
    assert!(in_code);

    let close = analyze_line("  ```", &mut in_code);
    assert_eq!(close.kind, LineKind::CodeBlock);
    assert_eq!(close.spans, vec![sp(0, 5, StyleKind::CodeFence)]);
    assert!(!in_code);
}

#[test]
fn thematic_breaks() {
    let mut in_code = false;
    let dash = analyze_line("---", &mut in_code);
    assert_eq!(dash.kind, LineKind::ThematicBreak);
    assert_eq!(dash.spans, vec![sp(0, 3, StyleKind::HrSyntax)]);
    let stars = analyze_line("  ***  ", &mut in_code);
    assert_eq!(stars.kind, LineKind::ThematicBreak);
    assert_eq!(stars.spans, vec![sp(0, 7, StyleKind::HrSyntax)]);
    assert_eq!(analyze_line("___", &mut in_code).kind, LineKind::ThematicBreak);
    assert_eq!(analyze_line("----", &mut in_code).kind, LineKind::Normal);
}

#[test]
fn document_lines_carry_code_blocks_and_offsets() {
    let lines = document_lines("# A\n```\nx\n```\ntext");
    let kinds: Vec<LineKind> = lines.iter().map(|(info, _)| info.kind).collect();
    let offsets: Vec<usize> = lines.iter().map(|(_, off)| *off).collect();
    assert_eq!(
        kinds,
        vec![
            LineKind::Heading(1),
            LineKind::CodeBlock,
            LineKind::CodeBlock,
            LineKind::CodeBlock,
            LineKind::Normal
        ]
    );
    assert_eq!(offsets, vec![0, 4, 8, 10, 14]);
}

#[test]
fn empty_document_is_one_line() {
    let lines = document_lines("");
    assert_eq!(lines.len(), 1);
    assert_eq!(lines[0].0.kind, LineKind::Normal);
    assert_eq!(lines[0].1, 0);
    let trailing = document_lines("a\n");
    assert_eq!(trailing.len(), 2);
    assert_eq!(trailing[1].1, 2);
}
