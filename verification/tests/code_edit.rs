use memex::code_edit::{smart_backspace, smart_insert, CodeEdit};

fn edit(content: &str, cursor: usize, text: &str) -> Option<CodeEdit> {
    smart_insert(content, cursor..cursor, text)
}

#[test]
fn pairs_inside_code_block_only() {
    let doc = "```rust\nlet x = \n```";
    let cursor = doc.find("\n```").unwrap();
    assert_eq!(
        edit(doc, cursor, "("),
        Some(CodeEdit {
            range: cursor..cursor,
            text: "()".into(),
            cursor_after: cursor + 1,
        })
    );
    assert_eq!(smart_insert("plain", 5..5, "("), None);
}

#[test]
fn skips_existing_close_pair() {
    let doc = "```rust\ncall()\n```";
    let cursor = doc.find(')').unwrap();
    assert_eq!(
        edit(doc, cursor, ")"),
        Some(CodeEdit {
            range: cursor..cursor,
            text: String::new(),
            cursor_after: cursor + 1,
        })
    );
}

#[test]
fn backspace_deletes_empty_pair() {
    let doc = "```rust\ncall()\n```";
    let cursor = doc.find(')').unwrap();
    assert_eq!(
        smart_backspace(doc, cursor),
        Some(CodeEdit {
            range: cursor - 1..cursor + 1,
            text: String::new(),
            cursor_after: cursor - 1,
        })
    );
}

#[test]
fn enter_splits_brace_pair() {
    let doc = "```rust\nfn main() {}\n```";
    let cursor = doc.find('}').unwrap();
    assert_eq!(
        edit(doc, cursor, "\n"),
        Some(CodeEdit {
            range: cursor..cursor,
            text: "\n    \n".into(),
            cursor_after: cursor + 5,
        })
    );
}

#[test]
fn closing_brace_dedents_blank_line() {
    let doc = "```rust\n    \n```";
    let cursor = doc.find("\n```").unwrap();
    assert_eq!(
        edit(doc, cursor, "}"),
        Some(CodeEdit {
            range: cursor - 4..cursor,
            text: "}".into(),
            cursor_after: cursor - 3,
        })
    );
}

#[test]
fn python_colon_indents() {
    let doc = "```python\nif True:\n```";
    let cursor = doc.find("\n```").unwrap();
    assert_eq!(
        edit(doc, cursor, "\n"),
        Some(CodeEdit {
            range: cursor..cursor,
            text: "\n    ".into(),
            cursor_after: cursor + 5,
        })
    );
}

#[test]
fn selection_is_wrapped_in_brackets() {
    let doc = "```js\nfoo bar\n```";
    let start = doc.find("bar").unwrap();
    let r = smart_insert(doc, start..start + 3, "[").unwrap();
    assert_eq!(r.text, "[bar]");
    assert_eq!(r.range, start..start + 3);
    assert_eq!(r.cursor_after, start + 5);
}

#[test]
fn quote_next_to_word_is_not_paired() {
    let doc = "```rust\ndon\n```";
    let cursor = doc.find("n\n").unwrap() + 1;
    assert_eq!(edit(doc, cursor, "'"), None);
    let cursor = doc.find("don").unwrap();
    assert_eq!(edit(doc, cursor, "'"), None);
    let doc = "```rust\nx = \n```";
    let cursor = doc.find(" \n").unwrap() + 1;
    assert_eq!(edit(doc, cursor, "'").unwrap().text, "''");
}

#[test]
fn fence_without_language_is_not_a_code_block() {
    let doc = "```\nlet x = \n```";
    let cursor = doc.find("\n```").unwrap();
    assert_eq!(edit(doc, cursor, "("), None);
}

#[test]
fn cursor_on_closing_fence_is_outside() {
    let doc = "```rust\nx\n```";
    let cursor = doc.len();
    assert_eq!(edit(doc, cursor, "("), None);
}

#[test]
fn unclosed_block_reaches_end_of_text() {
    let doc = "```rust\nfoo";
    assert_eq!(edit(doc, doc.len(), "{").unwrap().text, "{}");
}

#[test]
fn multi_char_text_is_not_smart() {
    let doc = "```rust\n\n```";
    assert_eq!(edit(doc, 8, "ab"), None);
    assert_eq!(edit(doc, 8, "x"), None);
}

#[test]
fn newline_keeps_indentation() {
    let doc = "```rust\n    let x = 1;\n```";
    let cursor = doc.find(";").unwrap() + 1;
    let r = edit(doc, cursor, "\n").unwrap();
    assert_eq!(r.text, "\n    ");
    assert_eq!(r.cursor_after, cursor + 5);
}

#[test]
fn shell_keywords_indent() {
    let doc = "```bash\nif true; then\n```";
    let cursor = doc.find("\n```").unwrap();
    assert_eq!(edit(doc, cursor, "\n").unwrap().text, "\n    ");
    let doc = "```Bash\nfor x in y; do\n```";
    let cursor = doc.find("\n```").unwrap();
    assert_eq!(edit(doc, cursor, "\n").unwrap().text, "\n    ");
}

#[test]
fn tab_indent_is_removed_by_closing_bracket() {
    let doc = "```c\n\t\t\n```";
    let cursor = doc.find("\n```").unwrap();
    let r = edit(doc, cursor, "]").unwrap();
    assert_eq!(r.text, "\t]");
    assert_eq!(r.range, cursor - 2..cursor);
    assert_eq!(r.cursor_after, cursor);
}

#[test]
fn backspace_outside_pair_does_nothing() {
    let doc = "```rust\nab\n```";
    let cursor = doc.find("b").unwrap();
    assert_eq!(smart_backspace(doc, cursor), None);
    assert_eq!(smart_backspace("()", 1), None);
}

#[test]
fn multibyte_pair_positions() {
    let doc = "```rust\n\"é\"\n```";
    let cursor = doc.find("é").unwrap();
    assert_eq!(edit(doc, cursor, "("), Some(CodeEdit { range: cursor..cursor, text: "()".into(), cursor_after: cursor + 1 }));
}
