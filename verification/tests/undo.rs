use std::ops::Range;

use memex::undo::{EditOp, Transaction, UndoHistory};

fn make_insert(at: usize, text: &str, cursor_after: usize) -> EditOp {
    EditOp {
        range: at..at,
        old_text: String::new(),
        new_text: text.to_string(),
        cursor_before: at,
        cursor_after,
    }
}

#[allow(dead_code)]
fn make_delete(range: Range<usize>, old_text: &str, cursor_after: usize) -> EditOp {
    EditOp {
        range,
        old_text: old_text.to_string(),
        new_text: String::new(),
        cursor_before: old_text.len(),
        cursor_after,
    }
}

#[test]
fn test_basic_undo_redo() {
    let mut history = UndoHistory::new();

    // Typing "hello" one character at a time coalesces.
    for (i, ch) in "hello".chars().enumerate() {
        history.record(make_insert(i, &ch.to_string(), i + 1), i..i);
    }

    assert_eq!(history.undo_len(), 1);
    assert!(history.can_undo());
    assert!(!history.can_redo());

    let txn = history.undo().unwrap();
    assert_eq!(txn.ops.len(), 5);
    assert!(!history.can_undo());
    assert!(history.can_redo());

    let txn = history.redo().unwrap();
    assert_eq!(txn.ops.len(), 5);
    assert!(history.can_undo());
    assert!(!history.can_redo());
}

#[test]
fn test_newline_breaks_coalescing() {
    let mut history = UndoHistory::new();

    history.record(make_insert(0, "a", 1), 0..0);
    history.record(make_insert(1, "\n", 2), 1..1);

    assert_eq!(history.undo_len(), 2);
}

#[test]
fn test_new_edit_clears_redo() {
    let mut history = UndoHistory::new();

    history.record(make_insert(0, "a", 1), 0..0);
    history.break_coalescing();
    history.record(make_insert(1, "b", 2), 1..1);

    history.undo();
    assert!(history.can_redo());

    history.record(make_insert(1, "c", 2), 1..1);
    assert!(!history.can_redo());
}

#[test]
fn test_compound_group() {
    let mut history = UndoHistory::new();

    history.begin_group(0..0);
    history.record(make_insert(0, "hello", 5), 0..0);
    history.record(make_insert(5, " world", 11), 5..5);
    history.end_group();

    assert_eq!(history.undo_len(), 1);
    let txn = history.undo().unwrap();
    assert_eq!(txn.ops.len(), 2);
}

#[test]
fn test_inverse_ops() {
    let op = EditOp {
        range: 3..3,
        old_text: String::new(),
        new_text: "hello".to_string(),
        cursor_before: 3,
        cursor_after: 8,
    };
    let txn = Transaction::new(op, 3..3);
    let inv = txn.inverse_ops();
    assert_eq!(inv.len(), 1);
    assert_eq!(inv[0].range, 3..8);
    assert_eq!(inv[0].old_text, "hello");
    assert_eq!(inv[0].new_text, "");
}

#[test]
fn test_clear() {
    let mut history = UndoHistory::new();
    history.record(make_insert(0, "a", 1), 0..0);
    history.clear();
    assert!(!history.can_undo());
    assert!(!history.can_redo());
}

#[test]
fn undo_then_redo_restores_stacks() {
    let mut history = UndoHistory::new();
    history.record(make_insert(0, "ab", 2), 0..0);
    history.break_coalescing();
    history.record(make_insert(2, "cd", 4), 2..2);
    let before = (history.undo_len(), history.redo_len());
    let undone = history.undo().unwrap();
    assert_eq!(undone.ops[0].new_text, "cd");
    assert_eq!((history.undo_len(), history.redo_len()), (1, 1));
    let redone = history.redo().unwrap();
    assert_eq!(redone.ops[0].new_text, "cd");
    assert_eq!((history.undo_len(), history.redo_len()), before);
}

#[test]
fn undo_on_empty_history_is_none() {
    let mut history = UndoHistory::new();
    assert!(history.undo().is_none());
    assert!(history.redo().is_none());
}

#[test]
fn multi_char_insert_does_not_coalesce() {
    let mut history = UndoHistory::new();
    history.record(make_insert(0, "a", 1), 0..0);
    history.record(make_insert(1, "hello", 6), 1..1);
    assert_eq!(history.undo_len(), 2);
}

#[test]
fn inverse_of_delete_reinserts_text() {
    let op = make_delete(2..5, "abc", 2);
    let txn = Transaction::new(op, 2..5);
    let inv = txn.inverse_ops();
    assert_eq!(inv[0].range, 2..2);
    assert_eq!(inv[0].new_text, "abc");
    assert_eq!(inv[0].old_text, "");
}

#[test]
fn inverse_ops_come_in_reverse_order() {
    let mut history = UndoHistory::new();
    history.begin_group(0..0);
    history.record(make_insert(0, "x", 1), 0..0);
    history.record(make_insert(1, "yz", 3), 1..1);
    history.end_group();
    let txn = history.undo().unwrap();
    let inv = txn.inverse_ops();
    assert_eq!(inv.len(), 2);
    assert_eq!(inv[0].range, 1..3);
    assert_eq!(inv[1].range, 0..1);
}

#[test]
fn edits_within_the_window_coalesce() {
    let mut history = UndoHistory::new();
    for (i, ch) in "hello".chars().enumerate() {
        history.record_at(make_insert(i, &ch.to_string(), i + 1), i..i, true);
    }
    assert_eq!(history.undo_len(), 1);
    assert_eq!(history.undo().unwrap().ops.len(), 5);
}

#[test]
fn only_single_characters_in_the_window_coalesce() {
    let mut history = UndoHistory::new();
    history.record_at(make_insert(0, "a", 1), 0..0, true);
    history.record_at(make_insert(1, "bcd", 4), 1..1, true);
    assert_eq!(history.undo_len(), 2);
    history.record_at(make_insert(4, "e", 5), 4..4, false);
    assert_eq!(history.undo_len(), 3);
}

#[test]
fn nested_groups_make_one_transaction_in_call_order() {
    let mut history = UndoHistory::new();
    history.record(make_insert(0, "a", 1), 0..0);
    history.begin_group(1..1);
    history.record(make_insert(1, "b", 2), 1..1);
    history.begin_group(2..2);
    history.record(make_insert(2, "c", 3), 2..2);
    history.end_group();
    history.record(make_insert(3, "d", 4), 3..3);
    history.end_group();
    assert_eq!(history.undo_len(), 2);
    history.record_at(make_insert(4, "e", 5), 4..4, true);
    assert_eq!(history.undo_len(), 3);
    history.undo();
    let txn = history.undo().unwrap();
    let texts: Vec<&str> = txn.ops.iter().map(|op| op.new_text.as_str()).collect();
    assert_eq!(texts, vec!["b", "c", "d"]);
    assert_eq!(txn.selection_before, 1..1);
    assert_eq!(txn.selection_after, 4..4);
}

#[test]
fn an_empty_group_adds_nothing() {
    let mut history = UndoHistory::new();
    history.begin_group(0..0);
    history.end_group();
    assert_eq!(history.undo_len(), 0);
    assert!(!history.can_undo());
}

#[test]
fn the_coalescing_window_is_half_a_second() {
    assert_eq!(UndoHistory::new().coalescing_window_nanos(), 500_000_000);
}
