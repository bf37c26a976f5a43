//! How the undo history stays in step with the text: every transaction on
//! the undo stack can be undone, newest first, from the current text, and
//! every transaction on the redo stack can be redone. Editing, undoing,
//! redoing, grouping and breaking coalescing all keep this so.
use std::ops::Range;

use vstd::prelude::*;

use crate::buffer::{
    apply_op, apply_ops, lemma_apply_concat, lemma_invert_restores, lemma_inverse_ops_restore, op_applies, ops_apply,
};
use crate::document::{between, lemma_starts_char};
use crate::text::byte_len;
use crate::undo::{
    coalescing_broken, group_begun, group_ended, history_wf, invert_op, inverse_seq, lemma_invert_twice,
    op_consistent, ops_invertible, recorded, spec_redo, spec_undo, EditOp, HistoryView, TxnView,
};

verus! {

/// Every operation's range spans exactly the text it removes.
pub open spec fn all_consistent(ops: Seq<EditOp>) -> bool {
    forall|i: int| 0 <= i < ops.len() ==> op_consistent(#[trigger] ops[i])
}

/// The operations of a transaction are well formed and can be undone from
/// the text `t`.
pub open spec fn undoable(t: Seq<char>, ops: Seq<EditOp>) -> bool {
    &&& ops_invertible(ops)
    &&& all_consistent(ops)
    &&& ops_apply(t, inverse_seq(ops))
}

/// `t` with the operations undone, last first.
pub open spec fn undone(t: Seq<char>, ops: Seq<EditOp>) -> Seq<char> {
    apply_ops(t, inverse_seq(ops))
}

/// The undo stack can be undone transaction by transaction, newest first,
/// starting from the text `t`.
pub open spec fn undo_chain(t: Seq<char>, undo: Seq<TxnView>) -> bool
    decreases undo.len(),
{
    undo.len() == 0 || (undoable(t, undo.last().ops) && undo_chain(undone(t, undo.last().ops), undo.drop_last()))
}

/// The redo stack can be redone transaction by transaction, newest undone
/// first, starting from the text `t`.
pub open spec fn redo_chain(t: Seq<char>, redo: Seq<TxnView>) -> bool
    decreases redo.len(),
{
    redo.len() == 0 || ({
        let ops = redo.last().ops;
        &&& ops_invertible(ops)
        &&& all_consistent(ops)
        &&& ops_apply(t, ops)
        &&& redo_chain(apply_ops(t, ops), redo.drop_last())
    })
}

/// The history is in step with the text `t`: a pending compound
/// transaction can be undone from `t`, and from the text before it the
/// undo stack can; the redo stack can be redone from `t`, and is empty
/// while a compound transaction is pending.
pub open spec fn history_consistent(t: Seq<char>, h: HistoryView) -> bool {
    match h.compound {
        None => undo_chain(t, h.undo) && redo_chain(t, h.redo),
        Some(c) => undoable(t, c.ops) && undo_chain(undone(t, c.ops), h.undo) && h.redo.len() == 0,
    }
}

/// An empty history is in step with any text.
pub proof fn lemma_empty_history_consistent(t: Seq<char>, h: HistoryView)
    requires
        h.undo.len() == 0,
        h.redo.len() == 0,
        h.compound is None,
    ensures
        history_consistent(t, h),
{
}

/// An operation that applies spans exactly the text it removes.
pub proof fn lemma_applies_consistent(t: Seq<char>, op: EditOp)
    requires
        op_applies(t, op),
    ensures
        op_consistent(op),
{
    let s = op.range.start as int;
    let e = op.range.end as int;
    lemma_starts_char(t, s);
    lemma_starts_char(t, e);
    let a = crate::document::char_at_offset(t, s);
    let b = crate::document::char_at_offset(t, e);
    if b < a {
        crate::chars::lemma_byte_len_take_strict(t, b, a);
    }
    assert(t.take(a) + t.subrange(a, b) =~= t.take(b));
    crate::chars::lemma_encode_concat(t.take(a), t.subrange(a, b));
}

/// Undoing `ops.push(op)` is undoing `op`, then `ops`.
pub proof fn lemma_inverse_push(ops: Seq<EditOp>, op: EditOp)
    ensures
        inverse_seq(ops.push(op)) == seq![invert_op(op)] + inverse_seq(ops),
{
    assert(inverse_seq(ops.push(op)) =~= seq![invert_op(op)] + inverse_seq(ops));
}

/// A transaction that can be undone from `t` can be redone from the text
/// that gives, and redoing it gives `t` back.
pub proof fn lemma_redo_after_undo(t: Seq<char>, ops: Seq<EditOp>)
    requires
        undoable(t, ops),
    ensures
        ops_apply(undone(t, ops), ops),
        apply_ops(undone(t, ops), ops) == t,
    decreases ops.len(),
{
    if ops.len() > 0 {
        let init = ops.drop_last();
        let o = ops.last();
        assert(ops == init.push(o));
        lemma_inverse_push(init, o);
        let inv = seq![invert_op(o)];
        lemma_apply_concat(t, inv, inverse_seq(init));
        assert(inv[0] == invert_op(o));
        assert(inv.drop_first() =~= Seq::<EditOp>::empty());
        assert(op_applies(t, invert_op(o)));
        let ta = apply_op(t, invert_op(o));
        assert(apply_ops(t, inv) == apply_ops(ta, inv.drop_first()));
        assert(op_consistent(ops[ops.len() - 1]));
        assert(op_consistent(o));
        lemma_invert_twice(o);
        assert(invert_op(o).range.start + byte_len(invert_op(o).new_text@) <= usize::MAX);
        lemma_invert_restores(t, invert_op(o));
        assert(undoable(ta, init)) by {
            assert forall|i: int| 0 <= i < init.len() implies op_consistent(#[trigger] init[i]) by {
                assert(init[i] == ops[i]);
            }
            assert forall|i: int| 0 <= i < init.len() implies #[trigger] init[i].range.start + byte_len(
                init[i].new_text@,
            ) <= usize::MAX by {
                assert(init[i] == ops[i]);
            }
        }
        lemma_redo_after_undo(ta, init);
        let t1 = undone(t, ops);
        assert(t1 == undone(ta, init));
        let single = seq![o];
        lemma_apply_concat(t1, init, single);
        assert(init + single == ops);
        assert(single.drop_first() =~= Seq::<EditOp>::empty());
        assert(single[0] == o);
        assert(ops_apply(apply_op(ta, o), single.drop_first()));
        assert(ops_apply(ta, single));
        assert(apply_ops(ta, single) == apply_ops(apply_op(ta, o), single.drop_first()));
    } else {
        assert(inverse_seq(ops) =~= Seq::<EditOp>::empty());
    }
}

/// Undoing `ops.push(op)` from the text after `op` goes through the text
/// before `op`.
proof fn lemma_undoable_push(t: Seq<char>, ops: Seq<EditOp>, op: EditOp)
    requires
        op_applies(t, op),
        op.range.start + byte_len(op.new_text@) <= usize::MAX,
        undoable(t, ops),
    ensures
        undoable(apply_op(t, op), ops.push(op)),
        undone(apply_op(t, op), ops.push(op)) == undone(t, ops),
{
    let t2 = apply_op(t, op);
    lemma_applies_consistent(t, op);
    lemma_invert_restores(t, op);
    lemma_inverse_push(ops, op);
    let inv = seq![invert_op(op)];
    lemma_apply_concat(t2, inv, inverse_seq(ops));
    assert(inv[0] == invert_op(op));
    assert(inv.drop_first() =~= Seq::<EditOp>::empty());
    assert(ops_apply(apply_op(t2, inv[0]), inv.drop_first()));
    assert(apply_ops(t2, inv) == apply_ops(apply_op(t2, inv[0]), inv.drop_first()));
    let ops2 = ops.push(op);
    assert forall|i: int| 0 <= i < ops2.len() implies op_consistent(#[trigger] ops2[i]) by {
        if i < ops.len() {
            assert(ops2[i] == ops[i]);
        }
    }
    assert forall|i: int| 0 <= i < ops2.len() implies #[trigger] ops2[i].range.start + byte_len(
        ops2[i].new_text@,
    ) <= usize::MAX by {
        if i < ops.len() {
            assert(ops2[i] == ops[i]);
        }
    }
}

/// A transaction of just `op` can be undone from the text after `op`, and
/// undoing it gives the text before.
proof fn lemma_undoable_single(t: Seq<char>, op: EditOp)
    requires
        op_applies(t, op),
        op.range.start + byte_len(op.new_text@) <= usize::MAX,
    ensures
        undoable(apply_op(t, op), seq![op]),
        undone(apply_op(t, op), seq![op]) == t,
{
    let empty = Seq::<EditOp>::empty();
    assert(inverse_seq(empty) =~= empty);
    assert(undoable(t, empty));
    lemma_undoable_push(t, empty, op);
    assert(empty.push(op) =~= seq![op]);
}

/// Recording an edit that applies to `t` keeps the history in step with
/// the text after the edit.
pub proof fn lemma_edit_keeps_consistent(t: Seq<char>, h0: HistoryView, op: EditOp, sel: Range<usize>, h1: HistoryView)
    requires
        history_wf(h0),
        history_consistent(t, h0),
        op_applies(t, op),
        op.range.start + byte_len(op.new_text@) <= usize::MAX,
        recorded(h0, op, sel, h1),
    ensures
        history_consistent(apply_op(t, op), h1),
{
    let t2 = apply_op(t, op);
    lemma_undoable_single(t, op);
    if h0.depth > 0 {
        let c1 = h1.compound->0;
        match h0.compound {
            Some(c) => {
                lemma_undoable_push(t, c.ops, op);
                assert(c1.ops == c.ops.push(op));
            },
            None => {
                assert(c1.ops == seq![op]);
            },
        }
    } else {
        let top = h1.undo.last();
        if h1.undo =~= h0.undo.push(top) && top.ops =~= seq![op] {
            assert(h1.undo.drop_last() =~= h0.undo);
        } else {
            let old_top = h0.undo.last();
            assert(top.ops == old_top.ops.push(op));
            lemma_undoable_push(t, old_top.ops, op);
            assert(h1.undo.drop_last() == h0.undo.drop_last());
        }
    }
}

/// Undoing the newest transaction outside a group: it can be undone, and
/// the history after the undo is in step with the text it gives.
pub proof fn lemma_undo_keeps_consistent(t: Seq<char>, h: HistoryView)
    requires
        history_wf(h),
        h.depth == 0,
        history_consistent(t, h),
        h.undo.len() > 0,
    ensures
        undoable(t, h.undo.last().ops),
        history_consistent(undone(t, h.undo.last().ops), spec_undo(h).0),
{
    let top = h.undo.last();
    let t1 = undone(t, top.ops);
    lemma_redo_after_undo(t, top.ops);
    let h2 = spec_undo(h).0;
    assert(h2.redo.drop_last() =~= h.redo);
    assert(h2.redo.last() == top);
}

/// Redoing the newest undone transaction outside a group: it can be
/// redone, and the history after the redo is in step with the text it
/// gives.
pub proof fn lemma_redo_keeps_consistent(t: Seq<char>, h: HistoryView)
    requires
        history_wf(h),
        h.depth == 0,
        history_consistent(t, h),
        h.redo.len() > 0,
    ensures
        ops_apply(t, h.redo.last().ops),
        history_consistent(apply_ops(t, h.redo.last().ops), spec_redo(h).0),
{
    let top = h.redo.last();
    lemma_inverse_ops_restore(t, top.ops);
    let h2 = spec_redo(h).0;
    assert(h2.undo.drop_last() =~= h.undo);
    assert(h2.undo.last() == top);
}

/// Opening a group keeps the history in step with the text.
pub proof fn lemma_begin_group_keeps_consistent(t: Seq<char>, h0: HistoryView, h1: HistoryView)
    requires
        history_wf(h0),
        history_consistent(t, h0),
        group_begun(h0, h1),
    ensures
        history_consistent(t, h1),
        history_wf(h1),
{
}

/// Closing a group keeps the history in step with the text.
pub proof fn lemma_end_group_keeps_consistent(t: Seq<char>, h0: HistoryView, h1: HistoryView)
    requires
        history_wf(h0),
        history_consistent(t, h0),
        group_ended(h0, h1),
    ensures
        history_consistent(t, h1),
        history_wf(h1),
{
    if h0.depth == 1 {
        match h0.compound {
            Some(c) => {
                let pushed = TxnView { suppress_grouping: true, ..c };
                assert(h1.undo.last() == pushed);
                assert(h1.undo.drop_last() =~= h0.undo);
                assert(h1.redo.len() == 0);
            },
            None => {
                assert(h1.undo == h0.undo);
            },
        }
    }
}

/// Replacing the newest transaction's coalescing flag keeps the undo stack
/// undoable.
proof fn lemma_undo_chain_flags(t: Seq<char>, u0: Seq<TxnView>, u1: Seq<TxnView>)
    requires
        undo_chain(t, u0),
        u0.len() == u1.len(),
        u0.len() > 0 ==> u1.last().ops == u0.last().ops && u1.drop_last() == u0.drop_last(),
    ensures
        undo_chain(t, u1),
{
}

/// Breaking coalescing keeps the history in step with the text.
pub proof fn lemma_break_coalescing_keeps_consistent(t: Seq<char>, h0: HistoryView, h1: HistoryView)
    requires
        history_wf(h0),
        history_consistent(t, h0),
        coalescing_broken(h0, h1),
    ensures
        history_consistent(t, h1),
        history_wf(h1),
{
    if h0.undo.len() > 0 {
        assert(h1.undo.last().ops == h0.undo.last().ops);
        assert(h1.undo.drop_last() =~= h0.undo.drop_last());
    }
    let base = match h0.compound {
        Some(c) => undone(t, c.ops),
        None => t,
    };
    lemma_undo_chain_flags(base, h0.undo, h1.undo);
}

} // verus!
