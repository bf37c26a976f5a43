use memex::line_style::LineKind;
use memex::outline::{
    extract_headings, heading_for_line, next_heading, next_sibling, parent_heading, prev_heading,
    prev_sibling, section_end_line, FoldCycle, HeadingInfo, OutlineState,
};

fn make_kinds(specs: &[(&str, u8)]) -> Vec<LineKind> {
    // specs: ("h", level) for heading, ("n", 0) for normal
    specs
        .iter()
        .map(|(ty, lvl)| match *ty {
            "h" => LineKind::Heading(*lvl),
            _ => LineKind::Normal,
        })
        .collect()
}

#[test]
fn test_extract_headings() {
    let kinds = make_kinds(&[("h", 1), ("n", 0), ("h", 2), ("n", 0), ("h", 1)]);
    let headings = extract_headings(&kinds);
    assert_eq!(headings.len(), 3);
    assert_eq!(headings[0], HeadingInfo { line_idx: 0, level: 1 });
    assert_eq!(headings[1], HeadingInfo { line_idx: 2, level: 2 });
    assert_eq!(headings[2], HeadingInfo { line_idx: 4, level: 1 });
}

#[test]
fn test_section_end_line() {
    let kinds = make_kinds(&[("h", 1), ("n", 0), ("h", 2), ("n", 0), ("h", 1)]);
    let headings = extract_headings(&kinds);
    assert_eq!(section_end_line(0, &headings, 5), 4);
    assert_eq!(section_end_line(1, &headings, 5), 4);
    assert_eq!(section_end_line(2, &headings, 5), 5);
}

#[test]
fn test_cycle_heading_leaf() {
    let kinds = make_kinds(&[("h", 1), ("n", 0), ("n", 0)]);
    let headings = extract_headings(&kinds);
    let mut outline = OutlineState::new();

    let s = outline.cycle_heading(0, &headings, 3);
    assert_eq!(s, Some(FoldCycle::Folded));

    let s = outline.cycle_heading(0, &headings, 3);
    assert_eq!(s, Some(FoldCycle::ShowAll));
}

#[test]
fn test_cycle_heading_with_children() {
    let kinds = make_kinds(&[("h", 1), ("n", 0), ("h", 2), ("n", 0)]);
    let headings = extract_headings(&kinds);
    let mut outline = OutlineState::new();

    let s = outline.cycle_heading(0, &headings, 4);
    assert_eq!(s, Some(FoldCycle::Folded));
    let s = outline.cycle_heading(0, &headings, 4);
    assert_eq!(s, Some(FoldCycle::Children));
    let s = outline.cycle_heading(0, &headings, 4);
    assert_eq!(s, Some(FoldCycle::ShowAll));
}

#[test]
fn test_compute_hidden_folded() {
    let kinds = make_kinds(&[("h", 1), ("n", 0), ("n", 0)]);
    let headings = extract_headings(&kinds);
    let mut outline = OutlineState::new();
    outline.fold_states.insert(0, FoldCycle::Folded);

    let hidden = outline.compute_hidden_lines(&headings, 3);
    assert_eq!(hidden, vec![false, true, true]);
}

#[test]
fn test_compute_hidden_children() {
    let kinds = make_kinds(&[("h", 1), ("n", 0), ("h", 2), ("n", 0), ("h", 2), ("n", 0)]);
    let headings = extract_headings(&kinds);
    let mut outline = OutlineState::new();
    outline.fold_states.insert(0, FoldCycle::Children);

    let hidden = outline.compute_hidden_lines(&headings, 6);
    assert_eq!(hidden, vec![false, true, false, true, false, true]);
}

#[test]
fn test_global_cycle() {
    let kinds = make_kinds(&[("h", 1), ("n", 0), ("h", 1), ("n", 0)]);
    let headings = extract_headings(&kinds);
    let mut outline = OutlineState::new();

    outline.global_cycle(&headings);
    assert_eq!(outline.global_cycle, FoldCycle::Folded);
    assert_eq!(outline.fold_state(0), FoldCycle::Folded);
    assert_eq!(outline.fold_state(2), FoldCycle::Folded);
}

#[test]
fn test_heading_navigation() {
    let kinds = make_kinds(&[("h", 1), ("n", 0), ("h", 2), ("n", 0), ("h", 1)]);
    let headings = extract_headings(&kinds);

    assert_eq!(next_heading(0, &headings).unwrap().line_idx, 2);
    assert_eq!(next_heading(2, &headings).unwrap().line_idx, 4);
    assert!(next_heading(4, &headings).is_none());

    assert_eq!(prev_heading(4, &headings).unwrap().line_idx, 2);
    assert_eq!(prev_heading(2, &headings).unwrap().line_idx, 0);
    assert!(prev_heading(0, &headings).is_none());

    assert_eq!(parent_heading(2, &headings).unwrap().line_idx, 0);
    assert!(parent_heading(0, &headings).is_none());
}

#[test]
fn test_heading_for_line() {
    let kinds = make_kinds(&[("h", 1), ("n", 0), ("h", 2), ("n", 0)]);
    let headings = extract_headings(&kinds);

    assert_eq!(heading_for_line(0, &headings).unwrap().line_idx, 0);
    assert_eq!(heading_for_line(1, &headings).unwrap().line_idx, 0);
    assert_eq!(heading_for_line(2, &headings).unwrap().line_idx, 2);
    assert_eq!(heading_for_line(3, &headings).unwrap().line_idx, 2);
}

#[test]
fn test_not_a_heading() {
    let kinds = make_kinds(&[("n", 0), ("n", 0)]);
    let headings = extract_headings(&kinds);
    let mut outline = OutlineState::new();
    assert!(outline.cycle_heading(0, &headings, 2).is_none());
}

#[test]
fn test_nested_fold() {
    let kinds = make_kinds(&[("h", 1), ("h", 2), ("n", 0), ("h", 2), ("n", 0)]);
    let headings = extract_headings(&kinds);
    let mut outline = OutlineState::new();
    outline.fold_states.insert(0, FoldCycle::Folded);

    let hidden = outline.compute_hidden_lines(&headings, 5);
    assert_eq!(hidden, vec![false, true, true, true, true]);
}

#[test]
fn siblings_share_a_parent() {
    let kinds = make_kinds(&[("h", 1), ("h", 2), ("n", 0), ("h", 2), ("h", 1), ("h", 2)]);
    let headings = extract_headings(&kinds);
    assert_eq!(next_sibling(1, &headings).unwrap().line_idx, 3);
    assert!(next_sibling(3, &headings).is_none());
    assert!(prev_sibling(5, &headings).is_none());
    assert_eq!(prev_sibling(3, &headings).unwrap().line_idx, 1);
    assert!(prev_sibling(1, &headings).is_none());
    assert_eq!(next_sibling(0, &headings).unwrap().line_idx, 4);
    assert_eq!(prev_sibling(4, &headings).unwrap().line_idx, 0);
    assert_eq!(parent_heading(5, &headings).unwrap().line_idx, 4);
}

#[test]
fn global_cycle_folds_top_level_headings_only() {
    let headings = vec![HeadingInfo { line_idx: 0, level: 1 }, HeadingInfo { line_idx: 1, level: 2 }];
    let mut outline = OutlineState::new();
    outline.global_cycle(&headings);
    assert_eq!(outline.global_cycle, FoldCycle::Folded);
    assert_eq!(outline.fold_state(0), FoldCycle::Folded);
    assert_eq!(outline.fold_state(1), FoldCycle::ShowAll);
}

#[test]
fn three_tabs_return_to_show_all() {
    let kinds = make_kinds(&[("h", 1), ("h", 2), ("n", 0)]);
    let headings = extract_headings(&kinds);
    let mut outline = OutlineState::new();
    let before = outline.fold_state(0);
    for _ in 0..3 {
        outline.cycle_heading(0, &headings, 3);
    }
    assert_eq!(outline.fold_state(0), before);
}

#[test]
fn nothing_hidden_without_folds() {
    let kinds = make_kinds(&[("h", 1), ("h", 2), ("n", 0), ("h", 2), ("n", 0)]);
    let headings = extract_headings(&kinds);
    let outline = OutlineState::new();
    assert_eq!(outline.compute_hidden_lines(&headings, 5), vec![false; 5]);
}

#[test]
fn two_tabs_on_a_leaf_return_to_show_all() {
    let kinds = make_kinds(&[("h", 1), ("n", 0), ("h", 1)]);
    let headings = extract_headings(&kinds);
    let mut outline = OutlineState::new();
    assert_eq!(outline.cycle_heading(0, &headings, 3), Some(FoldCycle::Folded));
    assert_eq!(outline.cycle_heading(0, &headings, 3), Some(FoldCycle::ShowAll));
    assert_eq!(outline.fold_state(0), FoldCycle::ShowAll);
    assert_eq!(outline.fold_state(2), FoldCycle::ShowAll);
}
