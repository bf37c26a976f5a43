use std::ops::Range;

use memex::buffer::EditorBuffer;
use memex::document::Document;
use memex::undo::EditOp;

fn edit(range: Range<usize>) -> EditOp {
    EditOp {
        range,
        old_text: String::new(),
        new_text: "change".into(),
        cursor_before: 0,
        cursor_after: 6,
    }
}

#[test]
fn replacing_document_resets_buffer_local_history() {
    let mut buffer = EditorBuffer::new(Document::scratch("before".into()));
    buffer.history.record(edit(0..0), 0..0);

    buffer.replace_document(Document::scratch("after".into()));

    assert_eq!(buffer.document.content(), "after");
    assert!(!buffer.history.can_undo());
}

#[test]
fn replace_range_edits_bytes_and_marks_dirty() {
    let mut buffer = EditorBuffer::new(Document::scratch("hello".into()));
    assert!(!buffer.is_dirty());
    buffer.replace_range(1..3, "EY");
    assert_eq!(buffer.content(), "hEYlo");
    assert_eq!(buffer.slice_bytes(0..2), "hE");
    assert!(buffer.is_dirty());
    assert_eq!(buffer.len_bytes(), 5);
}

#[test]
fn replace_range_with_multibyte_text() {
    let mut buffer = EditorBuffer::new(Document::scratch("aé b".into()));
    assert_eq!(buffer.len_bytes(), 5);
    assert_eq!(buffer.len_chars(), 4);
    buffer.replace_range(1..3, "ü!");
    assert_eq!(buffer.content(), "aü! b");
    assert_eq!(buffer.slice_bytes(1..4), "ü!");
}

#[test]
fn graphemes_step_over_whole_characters() {
    let buffer = EditorBuffer::new(Document::scratch("aé b".into()));
    assert_eq!(buffer.prev_grapheme(0), 0);
    assert_eq!(buffer.prev_grapheme(3), 1);
    assert_eq!(buffer.prev_grapheme(2), 0);
    assert_eq!(buffer.prev_grapheme(99), 4);
    assert_eq!(buffer.next_grapheme(0), 1);
    assert_eq!(buffer.next_grapheme(1), 3);
    assert_eq!(buffer.next_grapheme(4), 5);
    assert_eq!(buffer.next_grapheme(9), 5);
    assert_eq!(buffer.byte_to_char(2), 1);
    assert_eq!(buffer.char_to_byte(2), 3);
}

#[test]
fn undo_and_redo_move_transactions() {
    let mut buffer = EditorBuffer::new(Document::scratch("x".into()));
    buffer.record_edit(edit(0..0), 0..0);
    assert!(buffer.undo().is_some());
    assert!(buffer.undo().is_none());
    assert!(buffer.redo().is_some());
    assert!(buffer.redo().is_none());
}
