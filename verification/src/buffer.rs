//! The state shared by every editor window showing one markdown buffer:
//! the document and its undo history.
use std::ops::Range;

use vstd::prelude::*;

use crate::chars::{index_from, lemma_byte_len_take, lemma_byte_len_take_strict, lemma_index_from};
use crate::document::{
    between, lemma_splice_inverse, lemma_starts_char, splice, starts_char, Document,
};
use crate::text::byte_len;
use crate::undo::{
    coalescing_broken, group_begun, group_ended, history_wf, invert_op, inverse_seq, ops_invertible, recorded,
    spec_redo, spec_undo, EditOp, HistoryView, Transaction, UndoHistory,
    opt_txn_view,
};

verus! {

// ─── Applying edits ────────────────────────────────────────────────────────

/// `op` applies to the text `t`: its range runs forward between character
/// starts of `t`, and holds the text `op` says it removes.
pub open spec fn op_applies(t: Seq<char>, op: EditOp) -> bool {
    &&& op.range.start <= op.range.end
    &&& starts_char(t, op.range.start as int)
    &&& starts_char(t, op.range.end as int)
    &&& between(t, op.range.start as int, op.range.end as int) == op.old_text@
}

/// `t` after `op`.
pub open spec fn apply_op(t: Seq<char>, op: EditOp) -> Seq<char> {
    splice(t, op.range.start as int, op.range.end as int, op.new_text@)
}

/// The operations apply one after the other, starting from `t`.
pub open spec fn ops_apply(t: Seq<char>, ops: Seq<EditOp>) -> bool
    decreases ops.len(),
{
    if ops.len() == 0 {
        true
    } else {
        op_applies(t, ops[0]) && ops_apply(apply_op(t, ops[0]), ops.drop_first())
    }
}

/// `t` after the operations, in order.
pub open spec fn apply_ops(t: Seq<char>, ops: Seq<EditOp>) -> Seq<char>
    decreases ops.len(),
{
    if ops.len() == 0 {
        t
    } else {
        apply_ops(apply_op(t, ops[0]), ops.drop_first())
    }
}

/// The inverse of an operation applies right after it, and gives the text
/// back.
pub proof fn lemma_invert_restores(t: Seq<char>, op: EditOp)
    requires
        op_applies(t, op),
        op.range.start + byte_len(op.new_text@) <= usize::MAX,
    ensures
        op_applies(apply_op(t, op), invert_op(op)),
        apply_op(apply_op(t, op), invert_op(op)) == t,
{
    lemma_splice_inverse(t, op.range.start as int, op.range.end as int, op.new_text@);
}

/// Applying `a` and then `b` is applying `a + b`.
pub proof fn lemma_apply_concat(t: Seq<char>, a: Seq<EditOp>, b: Seq<EditOp>)
    ensures
        ops_apply(t, a + b) == (ops_apply(t, a) && ops_apply(apply_ops(t, a), b)),
        ops_apply(t, a) ==> apply_ops(t, a + b) == apply_ops(apply_ops(t, a), b),
    decreases a.len(),
{
    if a.len() == 0 {
        assert(a + b =~= b);
    } else {
        assert((a + b)[0] == a[0]);
        assert((a + b).drop_first() =~= a.drop_first() + b);
        lemma_apply_concat(apply_op(t, a[0]), a.drop_first(), b);
    }
}

/// Undo restores what a transaction changed: when its operations apply in
/// order to `t`, their inverses (last first) apply to the result and give
/// `t` back, and redoing them then gives the result again.
pub proof fn lemma_inverse_ops_restore(t: Seq<char>, ops: Seq<EditOp>)
    requires
        ops_apply(t, ops),
        ops_invertible(ops),
    ensures
        ops_apply(apply_ops(t, ops), inverse_seq(ops)),
        apply_ops(apply_ops(t, ops), inverse_seq(ops)) == t,
        apply_ops(apply_ops(apply_ops(t, ops), inverse_seq(ops)), ops) == apply_ops(t, ops),
    decreases ops.len(),
{
    if ops.len() > 0 {
        let o = ops[0];
        let rest = ops.drop_first();
        let t1 = apply_op(t, o);
        assert(ops_invertible(rest)) by {
            assert forall|i: int| 0 <= i < rest.len() implies #[trigger] rest[i].range.start + byte_len(
                rest[i].new_text@,
            ) <= usize::MAX by {
                assert(rest[i] == ops[i + 1]);
            }
        }
        assert(ops[0].range.start + byte_len(ops[0].new_text@) <= usize::MAX);
        lemma_inverse_ops_restore(t1, rest);
        lemma_invert_restores(t, o);
        let inv = seq![invert_op(o)];
        assert(inverse_seq(ops) =~= inverse_seq(rest) + inv);
        let big = apply_ops(t1, rest);
        assert(apply_ops(t, ops) == big);
        lemma_apply_concat(big, inverse_seq(rest), inv);
        assert(inv.drop_first() =~= Seq::<EditOp>::empty());
        assert(inv[0] == invert_op(o));
        assert(ops_apply(apply_op(t1, inv[0]), inv.drop_first()));
        assert(ops_apply(t1, inv));
        assert(apply_ops(t1, inv) == apply_ops(apply_op(t1, inv[0]), inv.drop_first()));
        assert(apply_ops(t1, inv) == t);
        assert(apply_ops(big, inverse_seq(ops)) == t);
    } else {
        assert(inverse_seq(ops) =~= Seq::<EditOp>::empty());
    }
}


/// The index of the character of `t` that holds byte `off` (the character
/// count for the end of the text).
pub open spec fn holding(t: Seq<char>, off: int) -> int {
    let ix = index_from(t, off, 0);
    if byte_len(t.take(ix)) == off {
        ix
    } else {
        ix - 1
    }
}

/// The character holding a byte is the one `byte_to_char` describes.
pub proof fn lemma_holding(t: Seq<char>, off: int, k: int)
    requires
        0 <= off <= byte_len(t),
        0 <= k <= t.len(),
        byte_len(t.take(k)) <= off,
        k < t.len() ==> off < byte_len(t.take(k + 1)),
    ensures
        k == holding(t, off),
{
    lemma_index_from(t, off, 0);
    lemma_index_from_stops(t, off, 0);
    let ix = index_from(t, off, 0);
    assert(t.take(t.len() as int) =~= t);
    assert(byte_len(t.take(ix)) >= off);
    if byte_len(t.take(ix)) == off {
        if k < ix {
            lemma_byte_len_take(t, k + 1, ix);
        } else if k > ix {
            lemma_byte_len_take_strict(t, ix, k);
        }
    } else {
        assert(t.take(0) =~= Seq::<char>::empty());
        assert(ix > 0);
        if k >= ix {
            lemma_byte_len_take(t, ix, k);
        } else if k < ix - 1 {
            assert(byte_len(t.take(k + 1)) < off);
        }
    }
}

/// `index_from` passes every index whose prefix falls short of `off`.
proof fn lemma_index_from_stops(t: Seq<char>, off: int, k: int)
    requires
        0 <= k <= t.len(),
    ensures
        forall|j: int| k <= j < index_from(t, off, k) ==> byte_len(#[trigger] t.take(j)) < off,
        index_from(t, off, k) < t.len() ==> byte_len(t.take(index_from(t, off, k))) >= off,
    decreases t.len() - k,
{
    if k < t.len() && byte_len(t.take(k)) < off {
        lemma_index_from_stops(t, off, k + 1);
    }
}

/// State shared by every editor window displaying the same markdown buffer.
///
/// Cursor, selection, folding, and viewport state live with each window;
/// they belong to an individual window, not to the buffer.
pub struct EditorBuffer {
    pub document: Document,
    pub history: UndoHistory,
}

impl EditorBuffer {
    /// A buffer for `document`, with an empty history.
    pub fn new(document: Document) -> (b: Self)
        ensures
            b.document == document,
            b.history@.undo.len() == 0,
            b.history@.redo.len() == 0,
            b.history@.depth == 0,
            b.history@.compound is None,
    {
        EditorBuffer { document, history: UndoHistory::new() }
    }

    /// Swaps in another document; the history is forgotten.
    pub fn replace_document(&mut self, document: Document)
        ensures
            final(self).document == document,
            final(self).history@.undo.len() == 0,
            final(self).history@.redo.len() == 0,
            final(self).history@.depth == 0,
            final(self).history@.compound is None,
    {
        self.document = document;
        self.history.clear();
    }

    /// The text.
    pub fn content(&self) -> (s: String)
        ensures
            s@ == self.document.text(),
    {
        self.document.content()
    }

    /// The length of the text in bytes.
    pub fn len_bytes(&self) -> (n: usize)
        ensures
            n == byte_len(self.document.text()),
    {
        let k = self.document.len_chars();
        let n = self.document.char_to_byte(k);
        assert(self.document.text().take(k as int) =~= self.document.text());
        n
    }

    /// The number of characters.
    pub fn len_chars(&self) -> (n: usize)
        ensures
            n == self.document.text().len(),
    {
        self.document.len_chars()
    }

    /// The index of the character holding byte `byte_idx`.
    pub fn byte_to_char(&self, byte_idx: usize) -> (k: usize)
        requires
            byte_idx <= byte_len(self.document.text()),
        ensures
            k == holding(self.document.text(), byte_idx as int),
            k <= self.document.text().len(),
    {
        let k = self.document.byte_to_char(byte_idx);
        proof {
            lemma_holding(self.document.text(), byte_idx as int, k as int);
        }
        k
    }

    /// The byte offset where character `char_idx` starts.
    pub fn char_to_byte(&self, char_idx: usize) -> (n: usize)
        requires
            char_idx <= self.document.text().len(),
        ensures
            n == byte_len(self.document.text().take(char_idx as int)),
    {
        self.document.char_to_byte(char_idx)
    }

    /// The text between two byte offsets that start characters.
    pub fn slice_bytes(&self, range: Range<usize>) -> (s: String)
        requires
            range.start <= range.end,
            starts_char(self.document.text(), range.start as int),
            starts_char(self.document.text(), range.end as int),
        ensures
            s@ == between(self.document.text(), range.start as int, range.end as int),
    {
        self.document.slice_bytes(range)
    }

    /// Replaces the text between two byte offsets that start characters.
    pub fn replace_range(&mut self, range: Range<usize>, new_text: &str)
        requires
            range.start <= range.end,
            starts_char(old(self).document.text(), range.start as int),
            starts_char(old(self).document.text(), range.end as int),
        ensures
            final(self).document.text() == splice(
                old(self).document.text(),
                range.start as int,
                range.end as int,
                new_text@,
            ),
            final(self).document.dirty_spec(),
            final(self).document.file() == old(self).document.file(),
            final(self).history@ == old(self).history@,
    {
        self.document.replace_range(range, new_text);
    }

    /// Applies an edit operation to the text.
    pub fn apply_edit(&mut self, op: &EditOp)
        requires
            op_applies(old(self).document.text(), *op),
        ensures
            final(self).document.text() == apply_op(old(self).document.text(), *op),
            final(self).document.dirty_spec(),
            final(self).document.file() == old(self).document.file(),
            final(self).history@ == old(self).history@,
    {
        self.replace_range(Range { start: op.range.start, end: op.range.end }, op.new_text.as_str());
    }

    /// Applies edit operations in order.
    pub fn apply_edits(&mut self, ops: &Vec<EditOp>)
        requires
            ops_apply(old(self).document.text(), ops@),
        ensures
            final(self).document.text() == apply_ops(old(self).document.text(), ops@),
            final(self).document.file() == old(self).document.file(),
            final(self).history@ == old(self).history@,
            ops@.len() > 0 ==> final(self).document.dirty_spec(),
            ops@.len() == 0 ==> final(self).document == old(self).document,
    {
        let ghost t0 = self.document.text();
        let mut i: usize = 0;
        assert(ops@.skip(0) =~= ops@);
        while i < ops.len()
            invariant
                i <= ops@.len(),
                ops_apply(self.document.text(), ops@.skip(i as int)),
                apply_ops(self.document.text(), ops@.skip(i as int)) == apply_ops(t0, ops@),
                self.document.file() == old(self).document.file(),
                self.history@ == old(self).history@,
                i > 0 ==> self.document.dirty_spec(),
                i == 0 ==> self.document == old(self).document,
            decreases ops@.len() - i,
        {
            proof {
                assert(ops@.skip(i as int)[0] == ops@[i as int]);
                assert(ops@.skip(i as int).drop_first() =~= ops@.skip(i + 1));
            }
            self.apply_edit(&ops[i]);
            i = i + 1;
        }
        proof {
            assert(ops@.skip(i as int) =~= Seq::<EditOp>::empty());
        }
    }

    /// Records an edit in the history.
    pub fn record_edit(&mut self, op: EditOp, selection_before: Range<usize>)
        ensures
            final(self).document == old(self).document,
            recorded(old(self).history@, op, selection_before, final(self).history@),
            history_wf(old(self).history@) ==> history_wf(final(self).history@),
    {
        self.history.record(op, selection_before);
    }

    /// The newest transaction that can be undone, if any.
    pub fn last_transaction(&self) -> (r: Option<&Transaction>)
        ensures
            match r {
                Some(t) => self.history@.undo.len() > 0 && t@ == self.history@.undo.last(),
                None => self.history@.undo.len() == 0,
            },
    {
        self.history.last_transaction()
    }

    /// Takes the newest transaction off the undo stack.
    pub fn undo(&mut self) -> (r: Option<Transaction>)
        ensures
            final(self).document == old(self).document,
            final(self).history@ == spec_undo(old(self).history@).0,
            opt_txn_view(r) == spec_undo(old(self).history@).1,
    {
        self.history.undo()
    }

    /// Takes the newest undone transaction off the redo stack.
    pub fn redo(&mut self) -> (r: Option<Transaction>)
        ensures
            final(self).document == old(self).document,
            final(self).history@ == spec_redo(old(self).history@).0,
            opt_txn_view(r) == spec_redo(old(self).history@).1,
    {
        self.history.redo()
    }

    /// The next edit starts a new transaction.
    pub fn break_undo_coalescing(&mut self)
        ensures
            final(self).document == old(self).document,
            coalescing_broken(old(self).history@, final(self).history@),
    {
        self.history.break_coalescing();
    }

    /// Opens a compound edit group.
    pub fn begin_edit_group(&mut self, selection_before: Range<usize>)
        requires
            old(self).history@.depth < usize::MAX,
        ensures
            final(self).document == old(self).document,
            group_begun(old(self).history@, final(self).history@),
    {
        self.history.begin_group(selection_before);
    }

    /// Closes a compound edit group.
    pub fn end_edit_group(&mut self)
        ensures
            final(self).document == old(self).document,
            group_ended(old(self).history@, final(self).history@),
    {
        self.history.end_group();
    }

    /// Whether the document has unsaved changes.
    pub fn is_dirty(&self) -> (r: bool)
        ensures
            r == self.document.dirty_spec(),
    {
        self.document.is_dirty()
    }
}

/// The previous character boundary before byte `offset` (0 at the start;
/// offsets past the end count from the end).
pub open spec fn prev_grapheme_spec(t: Seq<char>, offset: int) -> int {
    if offset == 0 {
        0
    } else {
        let o = if offset < byte_len(t) {
            offset
        } else {
            byte_len(t) as int
        };
        let k = holding(t, o);
        if k == 0 {
            0
        } else {
            byte_len(t.take(k - 1)) as int
        }
    }
}

/// The next character boundary after byte `offset` (the end of the text at
/// or past the last character).
pub open spec fn next_grapheme_spec(t: Seq<char>, offset: int) -> int {
    let len = byte_len(t) as int;
    if offset >= len {
        len
    } else {
        let k = holding(t, offset);
        if k + 1 >= t.len() {
            len
        } else {
            byte_len(t.take(k + 1)) as int
        }
    }
}

impl EditorBuffer {
    /// The start of the character before byte `offset`.
    pub fn prev_grapheme(&self, offset: usize) -> (r: usize)
        ensures
            r == prev_grapheme_spec(self.document.text(), offset as int),
    {
        if offset == 0 {
            return 0;
        }
        let len = self.len_bytes();
        let offset = if offset < len {
            offset
        } else {
            len
        };
        let char_idx = self.byte_to_char(offset);
        if char_idx == 0 {
            return 0;
        }
        self.char_to_byte(char_idx - 1)
    }

    /// The start of the character after byte `offset`.
    pub fn next_grapheme(&self, offset: usize) -> (r: usize)
        ensures
            r == next_grapheme_spec(self.document.text(), offset as int),
    {
        let len = self.len_bytes();
        if offset >= len {
            return len;
        }
        let char_idx = self.byte_to_char(offset);
        let n = self.len_chars();
        if char_idx >= n || char_idx + 1 >= n {
            return len;
        }
        self.char_to_byte(char_idx + 1)
    }
}

} // verus!
