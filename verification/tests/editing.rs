use memex::display_map::DisplayMap;
use memex::editing::{
    outline_cycle_fold, outline_demote_edit, outline_global_cycle, outline_move_down_edit,
    outline_move_up_edit, outline_next_heading_target, outline_prev_heading_target,
    outline_promote_edit, refresh_display, OutlineEdit,
    dedent_selection_ranges, indent_selection_points, join_text, line_end_target,
    line_is_diagram_embed, line_start_target, line_text_range, move_target, select_down_target,
    select_up_target, snap_to_char_boundary, toggle_case_text, vertical_target, Selection,
    on_vim_mode_changed, visual_line_step, SelectionState, VisualLineStep, edit_text, edit_text_with_cursor,
    dot_repeat, redo_edit, toggle_checkbox, undo_edit,
};
use memex::buffer::EditorBuffer;
use memex::display_line::{build_display_line, mark_folded_heading};
use memex::document::Document;
use memex::keymap::EditorMode;
use memex::line_style::LineKind;
use memex::outline::{FoldCycle, OutlineState};

fn display_of(content: &str) -> DisplayMap {
    let mut map = DisplayMap::new();
    map.update(content);
    map
}

#[test]
fn snapping_rounds_down_to_a_character_start() {
    assert_eq!(snap_to_char_boundary("aé", 2), 1);
    assert_eq!(snap_to_char_boundary("aé", 1), 1);
    assert_eq!(snap_to_char_boundary("aé", 10), 3);
}

#[test]
fn select_to_flips_past_the_anchor() {
    let mut sel = Selection { range: 2..2, reversed: false };
    assert_eq!(sel.select_to("hello world", 0), 0);
    assert_eq!(sel, Selection { range: 0..2, reversed: true });
    assert_eq!(sel.select_to("hello world", 5), 5);
    assert_eq!(sel, Selection { range: 2..5, reversed: false });
    assert_eq!(sel.ordered_selection(), (2, 5));
    assert_eq!(sel.cursor_offset(), 5);
}

#[test]
fn display_map_tracks_lines_and_folds() {
    let content = "# A\nbody\n# B\n";
    let mut map = display_of(content);
    assert_eq!(map.line_count(), 4);
    assert_eq!(
        map.line_kinds(),
        vec![LineKind::Heading(1), LineKind::Normal, LineKind::Heading(1), LineKind::Normal]
    );
    assert_eq!(map.line_offset(2), 9);
    assert_eq!(map.line_for_offset(6), 1);
    assert_eq!(map.line_for_offset(100), 3);
    map.update_visibility(&[false, true]);
    assert!(map.is_line_hidden(1));
    assert!(!map.is_line_hidden(2));
    assert!(!map.is_line_hidden(40));
    assert!(map.is_offset_hidden(5));
    assert_eq!(map.next_visible_line(0, true), Some(2));
    assert_eq!(map.next_visible_line(2, false), Some(0));
    assert_eq!(map.next_visible_line(3, true), None);
}

#[test]
fn moving_onto_a_fold_steps_to_a_visible_line() {
    let content = "# A\nbody\n# B\n";
    let mut map = display_of(content);
    map.update_visibility(&[false, true, false, false]);
    assert_eq!(move_target(content, &map, 5, true), 9);
    assert_eq!(move_target(content, &map, 5, false), 0);
    assert_eq!(move_target(content, &map, 10, false), 10);
}

#[test]
fn vertical_moves_keep_the_column() {
    let content = "abc\nde\nfghij";
    let map = display_of(content);
    assert_eq!(vertical_target(content, &map, 2, true, false), Some(6));
    assert_eq!(vertical_target(content, &map, 10, false, false), Some(6));
    assert_eq!(vertical_target(content, &map, 1, false, false), None);
    assert_eq!(vertical_target(content, &map, 9, true, false), None);
}

#[test]
fn vertical_moves_step_over_diagram_lines() {
    let content = "x\n[[a.diagram]]\ny";
    let map = display_of(content);
    assert_eq!(line_text_range(&map, 1, content), Some(2..15));
    assert!(line_is_diagram_embed(&map, 1, content, true));
    assert!(!line_is_diagram_embed(&map, 1, content, false));
    assert_eq!(vertical_target(content, &map, 0, true, true), Some(16));
    assert_eq!(vertical_target(content, &map, 0, true, false), Some(2));
}

#[test]
fn selecting_up_and_down_keeps_the_column() {
    assert_eq!(select_up_target("ab\ncdef", 6), 2);
    assert_eq!(select_up_target("ab\ncdef", 1), 0);
    assert_eq!(select_down_target("abcd\nef", 3), 7);
    assert_eq!(select_down_target("abcd\nef", 6), 7);
    assert_eq!(line_start_target("ab\ncdef", 5), 3);
    assert_eq!(line_end_target("ab\ncdef", 0), 2);
}

#[test]
fn indenting_inserts_at_each_line_start() {
    assert_eq!(indent_selection_points("a\nb\nc", 0, 3), vec![0, 6]);
    assert_eq!(indent_selection_points("a\nb\nc", 2, 2), Vec::<usize>::new());
}

#[test]
fn dedenting_removes_up_to_four_spaces_per_line() {
    assert_eq!(dedent_selection_ranges("    a\n  b\nc", 0, 10), vec![0..4, 2..4]);
    // The end is compared in the shifted text: the second line is out of reach here.
    assert_eq!(dedent_selection_ranges("    a\n  b\nc", 0, 8), vec![0..4]);
}

#[test]
fn joining_and_case_changes() {
    assert_eq!(join_text("a\nb\n"), "a b ");
    assert_eq!(toggle_case_text("aB1"), "Ab1");
}

const OUTLINE: &str = "# A\ntext\n## B\nb\n# C\nc";

#[test]
fn promote_and_demote_headings() {
    assert_eq!(
        outline_promote_edit(OUTLINE, 10),
        Some(OutlineEdit { range: 9..10, text: String::new(), move_to: None })
    );
    assert_eq!(outline_promote_edit(OUTLINE, 0), None);
    assert_eq!(outline_promote_edit(OUTLINE, 5), None);
    assert_eq!(
        outline_demote_edit(OUTLINE, 0),
        Some(OutlineEdit { range: 0..0, text: "#".to_string(), move_to: None })
    );
    assert_eq!(outline_demote_edit("###### deep", 3), None);
}

#[test]
fn moving_sections_swaps_siblings() {
    let swapped = "# C\nc# A\ntext\n## B\nb\n".to_string();
    assert_eq!(
        outline_move_up_edit(OUTLINE, 16),
        Some(OutlineEdit { range: 0..21, text: swapped.clone(), move_to: Some(0) })
    );
    assert_eq!(
        outline_move_down_edit(OUTLINE, 0),
        Some(OutlineEdit { range: 0..21, text: swapped, move_to: Some(5) })
    );
    assert_eq!(outline_move_up_edit(OUTLINE, 9), None);
    assert_eq!(outline_move_down_edit(OUTLINE, 9), None);
    assert_eq!(outline_move_up_edit(OUTLINE, 5), None);
}

#[test]
fn heading_navigation_targets() {
    assert_eq!(outline_next_heading_target(OUTLINE, 5), Some(9));
    assert_eq!(outline_next_heading_target(OUTLINE, 20), None);
    assert_eq!(outline_prev_heading_target(OUTLINE, 15), Some(9));
    assert_eq!(outline_prev_heading_target(OUTLINE, 0), None);
}

#[test]
fn folding_hides_the_section_body() {
    let mut outline = OutlineState::new();
    assert!(outline_cycle_fold(&mut outline, OUTLINE, 5));
    assert_eq!(outline.fold_state(0), FoldCycle::Folded);
    let mut display = DisplayMap::new();
    refresh_display(&mut display, &outline, OUTLINE);
    assert!(!display.is_line_hidden(0));
    assert!(display.is_line_hidden(1));
    assert!(display.is_line_hidden(3));
    assert!(!display.is_line_hidden(4));
    assert!(!outline_cycle_fold(&mut outline, "x\n# A", 0));
    outline_global_cycle(&mut outline, OUTLINE);
    assert_eq!(outline.global_cycle, FoldCycle::Folded);
    assert_eq!(outline.fold_state(4), FoldCycle::Folded);
    assert_eq!(outline.fold_state(2), FoldCycle::ShowAll);
}

fn vim_state(range: std::ops::Range<usize>, cursor: usize) -> SelectionState {
    SelectionState { range, reversed: true, cursor, marked: None, line_anchor: Some(9), group_open: false }
}

#[test]
fn entering_visual_modes_sets_the_selection() {
    let mut buffer = EditorBuffer::new(Document::scratch("h\u{e9}llo\nworld".into()));
    let mut st = vim_state(1..1, 1);
    on_vim_mode_changed(EditorMode::Visual, &mut buffer, &mut st);
    assert_eq!((st.range.clone(), st.reversed, st.cursor, st.line_anchor), (1..3, false, 1, None));

    let mut st = vim_state(8..8, 8);
    on_vim_mode_changed(EditorMode::VisualLine, &mut buffer, &mut st);
    assert_eq!((st.range.clone(), st.reversed, st.cursor, st.line_anchor), (7..12, false, 7, Some(7)));
}

#[test]
fn entering_normal_collapses_and_insert_opens_a_group() {
    let mut buffer = EditorBuffer::new(Document::scratch("hello".into()));
    let mut st = vim_state(2..5, 5);
    on_vim_mode_changed(EditorMode::Insert, &mut buffer, &mut st);
    assert!(st.group_open);
    on_vim_mode_changed(EditorMode::Normal, &mut buffer, &mut st);
    assert_eq!((st.range.clone(), st.cursor, st.line_anchor, st.group_open), (2..2, 2, None, false));
}

#[test]
fn line_wise_selection_grows_by_lines() {
    assert_eq!(
        visual_line_step("a\nb\nc\n", None, 2, 1),
        VisualLineStep { anchor: 2, range: 2..6, reversed: false, cursor: 4 }
    );
    assert_eq!(
        visual_line_step("a\nb\nc\n", Some(4), 4, -2),
        VisualLineStep { anchor: 4, range: 0..6, reversed: true, cursor: 0 }
    );
}

#[test]
fn edits_undo_and_redo_through_the_selection() {
    let mut buffer = EditorBuffer::new(Document::scratch("hello world".into()));
    let mut st = SelectionState { range: 6..11, reversed: false, cursor: 11, marked: None, line_anchor: None, group_open: false };
    edit_text(&mut buffer, &mut st, "there");
    assert_eq!(buffer.content(), "hello there");
    assert_eq!((st.range.clone(), st.cursor), (11..11, 11));

    assert!(undo_edit(&mut buffer, &mut st));
    assert_eq!(buffer.content(), "hello world");
    assert_eq!((st.range.clone(), st.cursor), (6..11, 11));

    assert!(redo_edit(&mut buffer, &mut st));
    assert_eq!(buffer.content(), "hello there");
    assert_eq!((st.range.clone(), st.cursor), (11..11, 11));
    assert!(!redo_edit(&mut buffer, &mut st));
}

#[test]
fn composed_text_is_what_an_edit_replaces() {
    let mut buffer = EditorBuffer::new(Document::scratch("ab".into()));
    let mut st = SelectionState { range: 2..2, reversed: false, cursor: 2, marked: Some(0..1), line_anchor: None, group_open: false };
    edit_text_with_cursor(&mut buffer, &mut st, "\u{e9}", 2);
    assert_eq!(buffer.content(), "\u{e9}b");
    assert_eq!((st.range.clone(), st.cursor, st.marked.clone()), (2..2, 2, None));
    assert!(undo_edit(&mut buffer, &mut st));
    assert_eq!(buffer.content(), "ab");
    assert_eq!(st.range, 2..2);
}

#[test]
fn toggling_a_checkbox_is_one_undoable_edit() {
    let mut buffer = EditorBuffer::new(Document::scratch("- [ ] task\n- [x] done".into()));
    let st = SelectionState { range: 8..8, reversed: false, cursor: 8, marked: None, line_anchor: None, group_open: false };
    assert!(toggle_checkbox(&mut buffer, &st, 2..5));
    assert_eq!(buffer.content(), "- [x] task\n- [x] done");
    assert!(buffer.is_dirty());
    assert!(toggle_checkbox(&mut buffer, &st, 13..16));
    assert_eq!(buffer.content(), "- [x] task\n- [ ] done");
    let mut st2 = SelectionState { range: 8..8, reversed: false, cursor: 8, marked: None, line_anchor: None, group_open: false };
    assert!(undo_edit(&mut buffer, &mut st2));
    assert_eq!(buffer.content(), "- [x] task\n- [x] done");
    assert!(undo_edit(&mut buffer, &mut st2));
    assert_eq!(buffer.content(), "- [ ] task\n- [x] done");
    assert_eq!(st2.cursor, 8);
}

#[test]
fn a_checkbox_range_inside_a_character_changes_nothing() {
    let mut buffer = EditorBuffer::new(Document::scratch("é [ ]".into()));
    let st = SelectionState { range: 0..0, reversed: false, cursor: 0, marked: None, line_anchor: None, group_open: false };
    assert!(!toggle_checkbox(&mut buffer, &st, 1..5));
    assert_eq!(buffer.content(), "é [ ]");
    assert!(!buffer.is_dirty());
}

#[test]
fn a_folded_heading_shows_a_marker() {
    let mut outline = OutlineState::new();
    assert!(outline_cycle_fold(&mut outline, OUTLINE, 0));
    let mut display = DisplayMap::new();
    refresh_display(&mut display, &outline, OUTLINE);
    let mut line = build_display_line("# A", &[], &[], None);
    let shown = line.text.clone();
    assert!(mark_folded_heading(&display, 0, "# A", &mut line));
    assert_eq!(line.text, format!("{shown}..."));
    assert_eq!(line.display_to_source.len(), line.text.len() + 1);
    assert_eq!(*line.display_to_source.last().unwrap(), 3);
    let mut other = build_display_line("# C", &[], &[], None);
    let shown_c = other.text.clone();
    assert!(!mark_folded_heading(&display, 4, "# C", &mut other));
    assert_eq!(other.text, shown_c);
}

#[test]
fn dot_repeat_replays_the_last_change_at_the_cursor_as_one_step() {
    let mut buffer = EditorBuffer::new(Document::scratch("hello".into()));
    let mut st = SelectionState { range: 0..0, reversed: false, cursor: 0, marked: None, line_anchor: None, group_open: false };
    edit_text(&mut buffer, &mut st, "ab");
    assert_eq!(buffer.content(), "abhello");
    st = SelectionState { range: 7..7, reversed: false, cursor: 7, marked: None, line_anchor: None, group_open: false };
    assert!(dot_repeat(&mut buffer, &mut st, 2));
    assert_eq!(buffer.content(), "abhelloabab");
    assert_eq!(st.cursor, 9);
    assert!(undo_edit(&mut buffer, &mut st));
    assert_eq!(buffer.content(), "abhello");
}

#[test]
fn dot_repeat_without_history_does_nothing() {
    let mut buffer = EditorBuffer::new(Document::scratch("hello".into()));
    let mut st = SelectionState { range: 2..2, reversed: false, cursor: 2, marked: None, line_anchor: None, group_open: false };
    assert!(!dot_repeat(&mut buffer, &mut st, 3));
    assert_eq!(buffer.content(), "hello");
    assert_eq!(st.cursor, 2);
}
