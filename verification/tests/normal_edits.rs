use memex::buffer::EditorBuffer;
use memex::display_map::DisplayMap;
use memex::document::Document;
use memex::editing::{checkbox_at_offset, toggle_checkbox_op};
use memex::normal_edits::{
    change_line_cut, delete_char_backward_cut, delete_char_forward_cut, delete_to_end_cut,
    join_lines_range, paste_after_plan, paste_before_plan, substitute_cut, toggle_case_at,
    yank_line_text, Cut, PastePlan, replace_char_at, replace_chars_edit,
};

fn cut(range: std::ops::Range<usize>, text: &str) -> Cut {
    Cut { range, text: text.to_string() }
}

#[test]
fn x_and_shift_x_take_one_character() {
    assert_eq!(delete_char_forward_cut("aé b", 1), Some(cut(1..3, "é")));
    assert_eq!(delete_char_forward_cut("aé b", 5), None);
    assert_eq!(delete_char_backward_cut("aé b", 3), Some(cut(1..3, "é")));
    assert_eq!(delete_char_backward_cut("aé b", 0), None);
}

#[test]
fn substitute_stops_at_the_line_end() {
    let buffer = EditorBuffer::new(Document::scratch("abc\ndef".into()));
    assert_eq!(substitute_cut(&buffer, 1, 5), Some(cut(1..3, "bc")));
    assert_eq!(substitute_cut(&buffer, 1, 1), Some(cut(1..2, "b")));
    assert_eq!(substitute_cut(&buffer, 3, 2), None);
}

#[test]
fn yank_lines_with_counts() {
    assert_eq!(yank_line_text("ab\ncd\nef", 4, 1), "cd\n");
    assert_eq!(yank_line_text("ab\ncd\nef", 4, 2), "cd\nef");
    assert_eq!(yank_line_text("ab\ncd\nef", 4, 9), "cd\nef");
    assert_eq!(yank_line_text("ab\ncd\nef", 4, 0), "");
}

#[test]
fn join_and_line_cuts() {
    assert_eq!(join_lines_range("ab\n   cd", 0), Some(2..6));
    assert_eq!(join_lines_range("ab\n   cd", 5), None);
    assert_eq!(delete_to_end_cut("abc\nd", 1), Some(cut(1..3, "bc")));
    assert_eq!(delete_to_end_cut("abc\nd", 3), None);
    assert_eq!(change_line_cut("abc\nd", 1), cut(0..3, "abc"));
    assert_eq!(change_line_cut("abc\nd", 4), cut(4..5, "d"));
}

#[test]
fn tilde_toggles_one_character() {
    assert_eq!(toggle_case_at("aB", 0), Some((0..1, "A".to_string())));
    assert_eq!(toggle_case_at("aB", 1), Some((1..2, "b".to_string())));
    assert_eq!(toggle_case_at("aB", 2), None);
}

#[test]
fn paste_plans() {
    let buffer = EditorBuffer::new(Document::scratch("ab\ncd".into()));
    assert_eq!(
        paste_after_plan(&buffer, 0, "x\n"),
        Some(PastePlan { move_to: Some(3), then_move_to: 3 })
    );
    assert_eq!(
        paste_after_plan(&buffer, 0, "xy"),
        Some(PastePlan { move_to: Some(1), then_move_to: 2 })
    );
    assert_eq!(paste_after_plan(&buffer, 0, ""), None);
    assert_eq!(
        paste_before_plan("ab\ncd", 4, "x\n"),
        Some(PastePlan { move_to: Some(3), then_move_to: 3 })
    );
    assert_eq!(
        paste_before_plan("ab", 1, "z"),
        Some(PastePlan { move_to: None, then_move_to: 1 })
    );
    assert_eq!(paste_before_plan("ab", 1, ""), None);
}

#[test]
fn checkbox_clicks_and_toggles() {
    let content = "- [ ] task\n  - [x] done";
    let mut map = DisplayMap::new();
    map.update(content);
    assert_eq!(checkbox_at_offset(content, &map, 0), Some(2..5));
    assert_eq!(checkbox_at_offset(content, &map, 5), Some(2..5));
    assert_eq!(checkbox_at_offset(content, &map, 7), None);
    assert_eq!(checkbox_at_offset(content, &map, 14), Some(15..18));
    assert_eq!(checkbox_at_offset(content, &map, 12), None);
    let op = toggle_checkbox_op(content, 2..5, 4).unwrap();
    assert_eq!(op.old_text, "[ ]");
    assert_eq!(op.new_text, "[x]");
    assert_eq!((op.cursor_before, op.cursor_after), (4, 4));
    let op = toggle_checkbox_op(content, 15..18, 0).unwrap();
    assert_eq!(op.new_text, "[ ]");
    assert!(toggle_checkbox_op(content, 2..50, 0).is_none());
}

#[test]
fn replace_with_count_covers_that_many_characters() {
    assert_eq!(replace_chars_edit("h\u{e9}llo", 0, 'x', 3), Some((0..4, "xxx".to_string())));
    assert_eq!(replace_chars_edit("ab", 1, 'z', 5), Some((1..2, "zzzzz".to_string())));
    assert_eq!(replace_chars_edit("ab", 2, 'z', 1), None);
    assert_eq!(replace_chars_edit("ab", 0, 'z', 0), None);
}

#[test]
fn replace_one_character_at_the_cursor() {
    assert_eq!(replace_char_at("h\u{e9}llo", 1, 'e'), Some((1..3, "e".to_string())));
    assert_eq!(replace_char_at("h\u{e9}llo", 6, 'e'), None);
}
