use std::path::PathBuf;

use memex::document::Document;

#[test]
fn scratch_document_has_no_file_to_save() {
    let document = Document::scratch("text".into());
    assert!(document.path().is_none());
    assert!(document.save_request().is_none());
    assert_eq!(document.content(), "text");
    assert!(!document.is_dirty());
}

#[test]
fn dirty_state_follows_edits_and_saves() {
    let path = PathBuf::from("/tmp/note.md");
    let mut document = Document::from_content(path.clone(), "before".into());
    assert_eq!(document.path(), Some(&path));
    document.mark_dirty();
    assert!(document.is_dirty());
    let (p, text) = document.save_request().unwrap();
    assert_eq!(p, &path);
    assert_eq!(text, "before");
    document.mark_saved();
    assert!(!document.is_dirty());
    document.mark_dirty();
    document.replace_content("after".into());
    assert!(!document.is_dirty());
    assert_eq!(document.content(), "after");
}

#[test]
fn scratch_document_cannot_be_saved() {
    let document = Document::scratch("text".into());
    assert!(document.save_request().is_none());
}
