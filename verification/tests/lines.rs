use memex::lines::{
    diagram_link_target, line_end_including_newline, line_start_at, move_line_start,
    next_table_cell, prev_table_cell, visual_line_range,
};

#[test]
fn visual_line_ranges_include_complete_lines() {
    let content = "one\ntwo\nthree";
    assert_eq!(visual_line_range(content, 4, 4), 4..8);
    assert_eq!(visual_line_range(content, 4, 8), 4..13);
    assert_eq!(visual_line_range(content, 4, 0), 0..8);
}

#[test]
fn visual_line_movement_clamps_and_honors_counts() {
    let content = "one\ntwo\nthree";
    assert_eq!(move_line_start(content, 0, 2), 8);
    assert_eq!(move_line_start(content, 8, -2), 0);
    assert_eq!(move_line_start(content, 0, -1), 0);
    assert_eq!(move_line_start(content, 8, 4), 8);
}

#[test]
fn line_bounds_clamp_past_the_end() {
    let content = "ab\ncd\n";
    assert_eq!(line_start_at(content, 100), 6);
    assert_eq!(line_start_at(content, 4), 3);
    assert_eq!(line_end_including_newline(content, 0), 3);
    assert_eq!(line_end_including_newline(content, 6), 6);
    assert_eq!(move_line_start(content, 1, isize::MIN), 0);
    assert_eq!(move_line_start(content, 1, isize::MAX), 3);
}

#[test]
fn diagram_embed_lines() {
    assert_eq!(diagram_link_target("  [[flow.diagram]] "), Some("flow.diagram".to_string()));
    assert_eq!(diagram_link_target("[[ Flow.DIAGRAM | the flow ]]"), Some("Flow.DIAGRAM".to_string()));
    assert_eq!(diagram_link_target("[[note]]"), None);
    assert_eq!(diagram_link_target("see [[flow.diagram]]"), None);
    assert_eq!(diagram_link_target("[[flow.diagram]"), None);
    assert_eq!(diagram_link_target("[[]]"), None);
}

#[test]
fn table_cells_skip_separator_rows() {
    let rows: Vec<Vec<String>> = vec![vec![], vec![], vec![]];
    let sep = [false, true, false];
    assert_eq!(next_table_cell(0, 0, &rows, &sep, 2), (0, 1, false));
    assert_eq!(next_table_cell(0, 1, &rows, &sep, 2), (2, 0, false));
    assert_eq!(next_table_cell(2, 1, &rows, &sep, 2), (3, 0, true));
    assert_eq!(prev_table_cell(2, 0, &rows, &sep, 2), (0, 1, false));
    assert_eq!(prev_table_cell(2, 1, &rows, &sep, 2), (2, 0, false));
    assert_eq!(prev_table_cell(0, 0, &rows, &sep, 2), (0, 0, false));
}
