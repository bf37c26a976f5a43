//! Undo/redo history with time-based coalescing and compound groups.
use std::ops::Range;
use std::time::Instant;

use vstd::prelude::*;

use crate::text::{byte_len, str_byte_len, str_has_char};

verus! {

/// The clock reading type used to time edits.
#[verifier::external_type_specification]
#[verifier::external_body]
pub struct ExInstant(Instant);

/// Reads the monotonic clock (`std::time::Instant::now`).
/// Nothing is stated of the reading: it depends on when the call is made.
#[verifier::external_body]
fn clock_now() -> Instant {
    Instant::now()
}

/// The time from `earlier` to `later` in nanoseconds
/// (`Instant::duration_since`, which gives zero when `later` is earlier,
/// then `Duration::as_nanos`). Nothing is stated of the answer: it depends
/// on the clock readings, which Verus does not see.
#[verifier::external_body]
fn nanos_between(earlier: &Instant, later: &Instant) -> u128 {
    later.duration_since(*earlier).as_nanos()
}

/// How close in time typed edits must follow each other to coalesce:
/// 500 ms, in nanoseconds.
pub const COALESCING_WINDOW_NANOS: u128 = 500_000_000;

/// A single atomic edit operation on the buffer.
#[derive(Debug)]
pub struct EditOp {
    /// Byte range in the document *before* the edit.
    pub range: Range<usize>,
    /// Text that was removed (empty for pure inserts).
    pub old_text: String,
    /// Text that was inserted (empty for pure deletes).
    pub new_text: String,
    /// Cursor position before the edit.
    pub cursor_before: usize,
    /// Cursor position after the edit.
    pub cursor_after: usize,
}

impl Clone for EditOp {
    fn clone(&self) -> (r: Self)
        ensures
            r == *self,
    {
        EditOp {
            range: Range { start: self.range.start, end: self.range.end },
            old_text: self.old_text.clone(),
            new_text: self.new_text.clone(),
            cursor_before: self.cursor_before,
            cursor_after: self.cursor_after,
        }
    }
}

/// A group of related edits that undo/redo together as one unit.
#[derive(Debug)]
pub struct Transaction {
    pub ops: Vec<EditOp>,
    pub selection_before: Range<usize>,
    pub selection_after: Range<usize>,
    pub first_edit_at: Instant,
    pub last_edit_at: Instant,
    /// If true, this transaction won't merge with the next one.
    pub suppress_grouping: bool,
}

fn clone_ops(ops: &Vec<EditOp>) -> (r: Vec<EditOp>)
    ensures
        r@ == ops@,
{
    let mut out: Vec<EditOp> = Vec::new();
    let mut i: usize = 0;
    while i < ops.len()
        invariant
            i <= ops.len(),
            out@ == ops@.take(i as int),
        decreases ops.len() - i,
    {
        out.push(ops[i].clone());
        i = i + 1;
        assert(out@ =~= ops@.take(i as int));
    }
    assert(ops@.take(ops.len() as int) =~= ops@);
    out
}

/// What a transaction holds, without its clock readings.
pub struct TxnView {
    pub ops: Seq<EditOp>,
    pub selection_before: Range<usize>,
    pub selection_after: Range<usize>,
    pub suppress_grouping: bool,
}

impl View for Transaction {
    type V = TxnView;

    open spec fn view(&self) -> TxnView {
        TxnView {
            ops: self.ops@,
            selection_before: self.selection_before,
            selection_after: self.selection_after,
            suppress_grouping: self.suppress_grouping,
        }
    }
}

/// The view of an optional transaction.
pub open spec fn opt_txn_view(t: Option<Transaction>) -> Option<TxnView> {
    match t {
        Some(t) => Some(t@),
        None => None,
    }
}

impl Clone for Transaction {
    fn clone(&self) -> (r: Self)
        ensures
            r@ == self@,
    {
        Transaction {
            ops: clone_ops(&self.ops),
            selection_before: Range { start: self.selection_before.start, end: self.selection_before.end },
            selection_after: Range { start: self.selection_after.start, end: self.selection_after.end },
            first_edit_at: self.first_edit_at,
            last_edit_at: self.last_edit_at,
            suppress_grouping: self.suppress_grouping,
        }
    }
}

/// A single-character insertion or deletion (not a newline): the only
/// kind of edit that may join the previous transaction.
pub open spec fn op_mergeable(op: EditOp) -> bool {
    let is_insert = op.old_text@.len() == 0 && op.new_text@.len() == 1;
    let is_delete = op.new_text@.len() == 0 && op.old_text@.len() == 1;
    &&& is_insert || is_delete
    &&& !op.new_text@.contains('\n')
    &&& !op.old_text@.contains('\n')
}

/// The operation that undoes `op`: it replaces what `op` inserted by what
/// `op` removed, and swaps the cursor positions.
pub open spec fn invert_op(op: EditOp) -> EditOp {
    EditOp {
        range: Range { start: op.range.start, end: (op.range.start + byte_len(op.new_text@)) as usize },
        old_text: op.new_text,
        new_text: op.old_text,
        cursor_before: op.cursor_after,
        cursor_after: op.cursor_before,
    }
}

/// An operation whose range spans exactly the text it removes.
pub open spec fn op_consistent(op: EditOp) -> bool {
    op.range.start + byte_len(op.old_text@) == op.range.end
}

/// The ranges of the inverse operations fit in `usize`.
pub open spec fn ops_invertible(ops: Seq<EditOp>) -> bool {
    forall|i: int| 0 <= i < ops.len() ==> #[trigger] ops[i].range.start + byte_len(ops[i].new_text@) <= usize::MAX
}

/// The inverse operations in the order that undoes `ops`: last edit first.
pub open spec fn inverse_seq(ops: Seq<EditOp>) -> Seq<EditOp> {
    Seq::new(ops.len(), |i: int| invert_op(ops[ops.len() - 1 - i]))
}

/// A collapsed selection at `pos`.
pub open spec fn caret(pos: usize) -> Range<usize> {
    Range { start: pos, end: pos }
}

impl Transaction {
    /// A transaction holding one edit.
    pub fn new(op: EditOp, selection_before: Range<usize>) -> (t: Self)
        ensures
            t.ops@ == seq![op],
            t.selection_before == selection_before,
            t.selection_after == caret(op.cursor_after),
            !t.suppress_grouping,
    {
        let now = clock_now();
        let selection_after = Range { start: op.cursor_after, end: op.cursor_after };
        let mut ops: Vec<EditOp> = Vec::new();
        ops.push(op);
        Transaction {
            ops,
            selection_before,
            selection_after,
            first_edit_at: now,
            last_edit_at: now,
            suppress_grouping: false,
        }
    }

    /// Whether `op` may join this transaction, given whether the previous
    /// edit happened within the coalescing window.
    pub fn merge_allowed(&self, op: &EditOp, within_window: bool) -> (r: bool)
        ensures
            r == (!self.suppress_grouping && within_window && op_mergeable(*op)),
    {
        if self.suppress_grouping {
            return false;
        }
        if !within_window {
            return false;
        }
        let new_len = op.new_text.as_str().unicode_len();
        let old_len = op.old_text.as_str().unicode_len();
        let is_single_char_insert = old_len == 0 && new_len == 1;
        let is_single_char_delete = new_len == 0 && old_len == 1;
        if !is_single_char_insert && !is_single_char_delete {
            return false;
        }
        if str_has_char(op.new_text.as_str(), '\n') || str_has_char(op.old_text.as_str(), '\n') {
            return false;
        }
        true
    }

    /// The nanoseconds since this transaction's last edit. Nothing is
    /// stated of the answer: it depends on the clock.
    fn nanos_since_last_edit(&self) -> u128 {
        let now = clock_now();
        nanos_between(&self.last_edit_at, &now)
    }

    fn merge(&mut self, op: EditOp)
        ensures
            final(self).ops@ == old(self).ops@.push(op),
            final(self).selection_before == old(self).selection_before,
            final(self).selection_after == caret(op.cursor_after),
            final(self).suppress_grouping == old(self).suppress_grouping,
            final(self).first_edit_at == old(self).first_edit_at,
    {
        self.selection_after = Range { start: op.cursor_after, end: op.cursor_after };
        self.last_edit_at = clock_now();
        self.ops.push(op);
    }

    /// Compute the inverse operations for undoing this transaction:
    /// in reverse order, each with its range adjusted to the inserted text.
    pub fn inverse_ops(&self) -> (inverse: Vec<EditOp>)
        requires
            ops_invertible(self.ops@),
        ensures
            inverse@ == inverse_seq(self.ops@),
    {
        let mut inverse: Vec<EditOp> = Vec::new();
        let n = self.ops.len();
        let mut k: usize = n;
        while k > 0
            invariant
                k <= n,
                n == self.ops@.len(),
                ops_invertible(self.ops@),
                inverse@ == inverse_seq(self.ops@).take((n - k) as int),
            decreases k,
        {
            k = k - 1;
            let op = &self.ops[k];
            let start = op.range.start;
            let new_len = str_byte_len(op.new_text.as_str());
            assert(op.range.start + byte_len(op.new_text@) <= usize::MAX);
            inverse.push(EditOp {
                range: Range { start, end: start + new_len },
                old_text: op.new_text.clone(),
                new_text: op.old_text.clone(),
                cursor_before: op.cursor_after,
                cursor_after: op.cursor_before,
            });
            assert(inverse@ =~= inverse_seq(self.ops@).take((n - k) as int));
        }
        assert(inverse_seq(self.ops@).take(n as int) =~= inverse_seq(self.ops@));
        inverse
    }
}

/// Inverting a consistent operation twice gives the operation back.
pub proof fn lemma_invert_twice(op: EditOp)
    requires
        op_consistent(op),
        op.range.start + byte_len(op.new_text@) <= usize::MAX,
    ensures
        invert_op(invert_op(op)) == op,
{
}

/// The abstract state of an undo history.
pub struct HistoryView {
    pub undo: Seq<TxnView>,
    pub redo: Seq<TxnView>,
    pub depth: nat,
    pub compound: Option<TxnView>,
    /// How close in time, in nanoseconds, typed edits must follow each
    /// other to coalesce.
    pub window: nat,
}

pub struct UndoHistory {
    undo_stack: Vec<Transaction>,
    redo_stack: Vec<Transaction>,
    /// Time-based coalescing window (about 500 ms).
    group_interval_nanos: u128,
    /// Nesting depth for compound operations (begin_group/end_group).
    transaction_depth: usize,
    /// Accumulating transaction for compound operations.
    compound_transaction: Option<Transaction>,
}

impl View for UndoHistory {
    type V = HistoryView;

    closed spec fn view(&self) -> HistoryView {
        HistoryView {
            undo: self.undo_stack@.map_values(|t: Transaction| t@),
            redo: self.redo_stack@.map_values(|t: Transaction| t@),
            depth: self.transaction_depth as nat,
            compound: opt_txn_view(self.compound_transaction),
            window: self.group_interval_nanos as nat,
        }
    }
}

/// What recording `op` (with the selection `sel` before it) does to the
/// history `h0`, giving `h1`. Inside a group it joins the compound
/// transaction; otherwise it starts a new transaction, or joins the newest
/// one when that allows coalescing, the edit is a single character without
/// newline and came soon after the previous one (which depends on the
/// clock, so either outcome may happen then). Any new edit clears the redo
/// stack.
pub open spec fn recorded(h0: HistoryView, op: EditOp, sel: Range<usize>, h1: HistoryView) -> bool {
    &&& (h1.redo.len() == 0)
    &&& (h1.depth == h0.depth)
    &&& (h1.window == h0.window)
    &&& (h0.depth > 0 ==> {
                &&& h1.undo =~= h0.undo
                &&& h1.compound matches Some(t) && (match h0.compound {
                    Some(c) => t.ops =~= c.ops.push(op) && t.selection_before == c.selection_before
                        && t.suppress_grouping == c.suppress_grouping,
                    None => t.ops =~= seq![op] && t.selection_before == sel
                        && !t.suppress_grouping,
                }) && t.selection_after == caret(op.cursor_after)
            })
    &&& (h0.depth == 0 ==> {
                &&& h1.compound == h0.compound
                &&& h1.undo.len() > 0
                &&& h1.undo.last().selection_after == caret(op.cursor_after)
                &&& ({
                    // A new transaction holding just `op` ...
                    ||| (h1.undo =~= h0.undo.push(h1.undo.last())
                        && h1.undo.last().ops =~= seq![op]
                        && h1.undo.last().selection_before == sel
                        && !h1.undo.last().suppress_grouping)
                    // ... or `op` joined the newest transaction.
                    ||| (h0.undo.len() > 0
                        && !h0.undo.last().suppress_grouping
                        && op_mergeable(op)
                        && h1.undo.len() == h0.undo.len()
                        && h1.undo.drop_last() =~= h0.undo.drop_last()
                        && h1.undo.last().ops =~= h0.undo.last().ops.push(op)
                        && h1.undo.last().selection_before == h0.undo.last().selection_before
                        && !h1.undo.last().suppress_grouping)
                })
                // Coalescing never happens after a break or for other edits.
                &&& ((h0.undo.len() == 0 || h0.undo.last().suppress_grouping
                    || !op_mergeable(op)) ==> h1.undo =~= h0.undo.push(
                    h1.undo.last(),
                ))
            })
}

/// Recording `op` when whether it came within the coalescing window is
/// known: outside a group it joins the newest transaction exactly when that
/// one allows coalescing, the edit is within the window and `op` is a
/// single-character edit; otherwise it starts a new transaction.
pub open spec fn recorded_at(h0: HistoryView, op: EditOp, sel: Range<usize>, within: bool, h1: HistoryView) -> bool {
    &&& recorded(h0, op, sel, h1)
    &&& h0.depth == 0 ==> if h0.undo.len() > 0 && !h0.undo.last().suppress_grouping && within && op_mergeable(op) {
        &&& h1.undo.len() == h0.undo.len()
        &&& h1.undo.last().ops =~= h0.undo.last().ops.push(op)
    } else {
        &&& h1.undo =~= h0.undo.push(h1.undo.last())
        &&& h1.undo.last().ops =~= seq![op]
        &&& h1.undo.last().selection_before == sel
    }
}

/// Outside a group, with a newest transaction, an edit `elapsed`
/// nanoseconds after that transaction's last edit came within the
/// coalescing window.
pub open spec fn came_within(h: HistoryView, elapsed: u128) -> bool {
    h.depth == 0 && h.undo.len() > 0 && elapsed <= h.window
}

/// Typing coalesces: outside a group, a one-character insertion or
/// deletion without newline, recorded within the window after a
/// transaction that allows grouping, joins that transaction (the undo
/// stack keeps its size, the newest transaction gains the edit); an edit
/// of any other size, a newline, or one outside the window starts a new
/// transaction holding just that edit.
pub proof fn lemma_typing_coalesces(h0: HistoryView, op: EditOp, sel: Range<usize>, within: bool, h1: HistoryView)
    requires
        h0.depth == 0,
        h0.undo.len() > 0,
        !h0.undo.last().suppress_grouping,
        recorded_at(h0, op, sel, within, h1),
    ensures
        within && !op.old_text@.contains('\n') && !op.new_text@.contains('\n') && ((op.old_text@.len() == 1
            && op.new_text@.len() == 0) || (op.old_text@.len() == 0 && op.new_text@.len() == 1)) ==> {
            &&& h1.undo.len() == h0.undo.len()
            &&& h1.undo.drop_last() == h0.undo.drop_last()
            &&& h1.undo.last().ops == h0.undo.last().ops.push(op)
        },
        !within || op.old_text@.len() + op.new_text@.len() != 1 || op.old_text@.contains('\n')
            || op.new_text@.contains('\n') ==> {
            &&& h1.undo == h0.undo.push(h1.undo.last())
            &&& h1.undo.last().ops == seq![op]
        },
{
}

/// Opening a group: one level deeper; the outermost group starts with no
/// compound transaction.
pub open spec fn group_begun(h0: HistoryView, h1: HistoryView) -> bool {
    &&& h1.depth == h0.depth + 1
    &&& h1.window == h0.window
    &&& h1.undo == h0.undo
    &&& h1.redo == h0.redo
    &&& h1.compound == (if h0.depth == 0 {
        None
    } else {
        h0.compound
    })
}

/// Closing a group: one level shallower; closing the outermost group
/// pushes the compound transaction, closed to coalescing, if there is one.
/// With no group open nothing changes.
pub open spec fn group_ended(h0: HistoryView, h1: HistoryView) -> bool {
    &&& h1.redo == h0.redo
    &&& h0.depth == 0 ==> h1 == h0
    &&& h0.depth > 1 ==> h1 == (HistoryView { depth: (h0.depth - 1) as nat, ..h0 })
    &&& h0.depth == 1 ==> {
        &&& h1.depth == 0
        &&& h1.window == h0.window
        &&& h1.compound is None
        &&& match h0.compound {
            Some(c) => h1.undo =~= h0.undo.push(TxnView { suppress_grouping: true, ..c }),
            None => h1.undo =~= h0.undo,
        }
    }
}

/// A call made on the history inside an edit group.
pub enum GroupStep {
    /// `record(op, selection_before)`.
    Record(EditOp, Range<usize>),
    /// `begin_group(..)`, opening a nested group.
    Open,
    /// `end_group()`, closing a nested group.
    Close,
}

/// The history `h1` is what the call `s` leaves of `h0`.
pub open spec fn step_taken(h0: HistoryView, s: GroupStep, h1: HistoryView) -> bool {
    match s {
        GroupStep::Record(op, sel) => recorded(h0, op, sel, h1),
        GroupStep::Open => group_begun(h0, h1),
        GroupStep::Close => group_ended(h0, h1),
    }
}

/// How many groups the steps leave open (opened minus closed).
pub open spec fn nesting(steps: Seq<GroupStep>) -> int
    decreases steps.len(),
{
    if steps.len() == 0 {
        0
    } else {
        nesting(steps.drop_last()) + match steps.last() {
            GroupStep::Open => 1int,
            GroupStep::Close => -1int,
            GroupStep::Record(..) => 0int,
        }
    }
}

/// Every nested group the steps open is closed among them, and none is
/// closed before it was opened.
pub open spec fn balanced(steps: Seq<GroupStep>) -> bool {
    &&& forall|n: int| 0 <= n <= steps.len() ==> nesting(#[trigger] steps.take(n)) >= 0
    &&& nesting(steps) == 0
}

/// The edits the steps record, in order.
pub open spec fn group_ops(steps: Seq<GroupStep>) -> Seq<EditOp>
    decreases steps.len(),
{
    if steps.len() == 0 {
        Seq::empty()
    } else {
        let before = group_ops(steps.drop_last());
        match steps.last() {
            GroupStep::Record(op, _) => before.push(op),
            _ => before,
        }
    }
}

/// The selection given with the first recorded edit.
pub open spec fn group_selection(steps: Seq<GroupStep>) -> Range<usize>
    decreases steps.len(),
{
    if steps.len() == 0 {
        Range { start: 0, end: 0 }
    } else {
        match steps.last() {
            GroupStep::Record(_, sel) => if group_ops(steps.drop_last()).len() == 0 {
                sel
            } else {
                group_selection(steps.drop_last())
            },
            _ => group_selection(steps.drop_last()),
        }
    }
}

/// Inside the outermost group opened on `h0`, after the steps `done`.
spec fn inside_group(h0: HistoryView, done: Seq<GroupStep>, h: HistoryView) -> bool {
    let ops = group_ops(done);
    &&& h.depth == 1 + nesting(done)
    &&& h.window == h0.window
    &&& h.undo == h0.undo
    &&& h.redo == (if ops.len() == 0 {
        h0.redo
    } else {
        Seq::empty()
    })
    &&& h.compound == (if ops.len() == 0 {
        None
    } else {
        Some(
            TxnView {
                ops,
                selection_before: group_selection(done),
                selection_after: caret(ops.last().cursor_after),
                suppress_grouping: false,
            },
        )
    })
}

proof fn lemma_inside_group_step(h0: HistoryView, done: Seq<GroupStep>, s: GroupStep, h: HistoryView, h1: HistoryView)
    requires
        inside_group(h0, done, h),
        nesting(done) >= 0,
        nesting(done.push(s)) >= 0,
        step_taken(h, s, h1),
    ensures
        inside_group(h0, done.push(s), h1),
{
    let d = done.push(s);
    assert(d.drop_last() =~= done);
    assert(d.last() == s);
    match s {
        GroupStep::Record(op, sel) => {
            assert(h1.redo =~= Seq::<TxnView>::empty());
            assert(group_ops(d) == group_ops(done).push(op));
            if group_ops(done).len() == 0 {
                assert(group_ops(done).push(op) =~= seq![op]);
            }
            let t = h1.compound->0;
            assert(t == TxnView {
                ops: group_ops(d),
                selection_before: group_selection(d),
                selection_after: caret(group_ops(d).last().cursor_after),
                suppress_grouping: false,
            });
        },
        GroupStep::Open => {},
        GroupStep::Close => {
            assert(h1 == (HistoryView { depth: (h.depth - 1) as nat, ..h }));
        },
    }
}

proof fn lemma_group_prefix(hs: Seq<HistoryView>, inner: Seq<GroupStep>, n: int)
    requires
        hs.len() == inner.len() + 3,
        hs[0].depth == 0,
        group_begun(hs[0], hs[1]),
        forall|i: int| 0 <= i < inner.len() ==> step_taken(hs[i + 1], #[trigger] inner[i], hs[i + 2]),
        balanced(inner),
        0 <= n <= inner.len(),
    ensures
        inside_group(hs[0], inner.take(n), hs[n + 1]),
    decreases n,
{
    if n == 0 {
        assert(inner.take(0) =~= Seq::<GroupStep>::empty());
    } else {
        lemma_group_prefix(hs, inner, n - 1);
        assert(inner.take(n) =~= inner.take(n - 1).push(inner[n - 1]));
        assert(nesting(inner.take(n - 1)) >= 0);
        assert(nesting(inner.take(n)) >= 0);
        lemma_inside_group_step(hs[0], inner.take(n - 1), inner[n - 1], hs[n], hs[n + 1]);
    }
}

/// A whole group, from `begin_group` on a history outside any group to the
/// matching `end_group`, with any records and nested groups in between,
/// adds at most one transaction: none when nothing was recorded (the
/// history is then as it was), else one that holds every recorded edit in
/// call order, starts from the selection given with the first, ends at the
/// cursor after the last, and takes no later edit. `hs` holds the history
/// before and after each call.
pub proof fn lemma_group_is_one_transaction(hs: Seq<HistoryView>, inner: Seq<GroupStep>)
    requires
        hs.len() == inner.len() + 3,
        hs[0].depth == 0,
        history_wf(hs[0]),
        group_begun(hs[0], hs[1]),
        forall|i: int| 0 <= i < inner.len() ==> step_taken(hs[i + 1], #[trigger] inner[i], hs[i + 2]),
        group_ended(hs[inner.len() + 1int], hs[inner.len() + 2int]),
        balanced(inner),
    ensures
        hs.last().depth == 0,
        hs.last().compound is None,
        group_ops(inner).len() == 0 ==> hs.last() == hs[0],
        group_ops(inner).len() > 0 ==> {
            &&& hs.last().redo.len() == 0
            &&& hs.last().undo == hs[0].undo.push(
                TxnView {
                    ops: group_ops(inner),
                    selection_before: group_selection(inner),
                    selection_after: caret(group_ops(inner).last().cursor_after),
                    suppress_grouping: true,
                },
            )
        },
{
    let h0 = hs[0];
    lemma_group_prefix(hs, inner, inner.len() as int);
    assert(inner.take(inner.len() as int) =~= inner);
    let h = hs[inner.len() + 1int];
    assert(h.depth == 1);
    assert(hs.last() == hs[inner.len() + 2int]);
    if group_ops(inner).len() == 0 {
        assert(hs.last().undo =~= h0.undo);
        assert(hs.last() == h0);
    }
}

/// Breaking coalescing: the newest transaction, if any, no longer takes
/// more edits; nothing else changes.
pub open spec fn coalescing_broken(h0: HistoryView, h1: HistoryView) -> bool {
    &&& h1.redo == h0.redo
    &&& h1.depth == h0.depth
    &&& h1.window == h0.window
    &&& h1.compound == h0.compound
    &&& h0.undo.len() == 0 ==> h1.undo == h0.undo
    &&& h0.undo.len() > 0 ==> h1.undo =~= h0.undo.update(
        h0.undo.len() - 1,
        TxnView { suppress_grouping: true, ..h0.undo.last() },
    )
}

/// The state after `undo`: the newest transaction moves to the redo stack.
pub open spec fn spec_undo(h: HistoryView) -> (HistoryView, Option<TxnView>) {
    if h.undo.len() == 0 {
        (h, None)
    } else {
        (HistoryView { undo: h.undo.drop_last(), redo: h.redo.push(h.undo.last()), ..h }, Some(h.undo.last()))
    }
}

/// The state after `redo`: the newest undone transaction moves back.
pub open spec fn spec_redo(h: HistoryView) -> (HistoryView, Option<TxnView>) {
    if h.redo.len() == 0 {
        (h, None)
    } else {
        (HistoryView { redo: h.redo.drop_last(), undo: h.undo.push(h.redo.last()), ..h }, Some(h.redo.last()))
    }
}

/// Outside a group no compound transaction is pending.
pub open spec fn history_wf(h: HistoryView) -> bool {
    h.depth == 0 ==> h.compound is None
}

/// Undoing and then redoing gives back the same history and the same
/// transaction.
pub proof fn lemma_undo_then_redo(h: HistoryView)
    requires
        h.undo.len() > 0,
    ensures
        spec_redo(spec_undo(h).0).0 == h,
        spec_redo(spec_undo(h).0).1 == spec_undo(h).1,
{
    assert(spec_undo(h).0.redo.drop_last() =~= h.redo);
    assert(spec_undo(h).0.undo.push(h.undo.last()) =~= h.undo);
}

/// Redoing and then undoing gives back the same history and the same
/// transaction.
pub proof fn lemma_redo_then_undo(h: HistoryView)
    requires
        h.redo.len() > 0,
    ensures
        spec_undo(spec_redo(h).0).0 == h,
        spec_undo(spec_redo(h).0).1 == spec_redo(h).1,
{
    assert(spec_redo(h).0.undo.drop_last() =~= h.undo);
    assert(spec_redo(h).0.redo.push(h.redo.last()) =~= h.redo);
}

/// Undo never loses a transaction: the two stacks together keep their size.
pub proof fn lemma_undo_keeps_total(h: HistoryView)
    ensures
        spec_undo(h).0.undo.len() + spec_undo(h).0.redo.len() == h.undo.len() + h.redo.len(),
        spec_redo(h).0.undo.len() + spec_redo(h).0.redo.len() == h.undo.len() + h.redo.len(),
{
}

impl UndoHistory {
    pub fn new() -> (h: Self)
        ensures
            h@.undo.len() == 0,
            h@.redo.len() == 0,
            h@.depth == 0,
            h@.compound is None,
            h@.window == COALESCING_WINDOW_NANOS,
    {
        UndoHistory {
            undo_stack: Vec::new(),
            redo_stack: Vec::new(),
            group_interval_nanos: COALESCING_WINDOW_NANOS,
            transaction_depth: 0,
            compound_transaction: None,
        }
    }

    /// How close in time, in nanoseconds, typed edits must follow each
    /// other to coalesce.
    pub fn coalescing_window_nanos(&self) -> (w: u128)
        ensures
            w == self@.window,
    {
        self.group_interval_nanos
    }

    /// The newest transaction that can be undone, if any.
    pub fn last_transaction(&self) -> (r: Option<&Transaction>)
        ensures
            match r {
                Some(t) => self@.undo.len() > 0 && t@ == self@.undo.last(),
                None => self@.undo.len() == 0,
            },
    {
        let n = self.undo_stack.len();
        if n == 0 {
            None
        } else {
            Some(&self.undo_stack[n - 1])
        }
    }

    /// Number of transactions that can be undone.
    pub fn undo_len(&self) -> (n: usize)
        ensures
            n == self@.undo.len(),
    {
        self.undo_stack.len()
    }

    /// Number of transactions that can be redone.
    pub fn redo_len(&self) -> (n: usize)
        ensures
            n == self@.redo.len(),
    {
        self.redo_stack.len()
    }

    /// Record an edit, reading the clock to see whether it follows the
    /// newest transaction's last edit within the coalescing window: it is
    /// recorded as `record_at` records it, told whether the time elapsed
    /// since that edit, whatever the clock gave, is at most the window.
    pub fn record(&mut self, op: EditOp, selection_before: Range<usize>)
        ensures
            recorded(old(self)@, op, selection_before, final(self)@),
            exists|elapsed: u128|
                recorded_at(
                    old(self)@,
                    op,
                    selection_before,
                    #[trigger] came_within(old(self)@, elapsed),
                    final(self)@,
                ),
            history_wf(old(self)@) ==> history_wf(final(self)@),
    {
        let n = self.undo_stack.len();
        let elapsed: u128 = if self.transaction_depth == 0 && n > 0 {
            self.undo_stack[n - 1].nanos_since_last_edit()
        } else {
            0
        };
        let within = self.transaction_depth == 0 && n > 0 && elapsed <= self.group_interval_nanos;
        self.record_at(op, selection_before, within);
        assert(recorded_at(old(self)@, op, selection_before, came_within(old(self)@, elapsed), self@));
    }

    /// Record an edit, given whether it follows the newest transaction's
    /// last edit within the coalescing window. Inside a group it joins the
    /// compound transaction; otherwise it joins the newest transaction when
    /// that one allows coalescing, the edit is within the window and is a
    /// single character without newline; otherwise it starts a new
    /// transaction. Any new edit clears the redo stack.
    pub fn record_at(&mut self, op: EditOp, selection_before: Range<usize>, within_window: bool)
        ensures
            recorded_at(old(self)@, op, selection_before, within_window, final(self)@),
            history_wf(old(self)@) ==> history_wf(final(self)@),
    {
        self.redo_stack.clear();

        if self.transaction_depth > 0 {
            match self.compound_transaction.take() {
                Some(mut txn) => {
                    txn.merge(op);
                    self.compound_transaction = Some(txn);
                },
                None => {
                    self.compound_transaction = Some(Transaction::new(op, selection_before));
                },
            }
            return;
        }

        let n = self.undo_stack.len();
        if n > 0 {
            let mergeable = self.undo_stack[n - 1].merge_allowed(&op, within_window);
            if mergeable {
                let mut last = self.undo_stack.pop().unwrap();
                last.merge(op);
                self.undo_stack.push(last);
                return;
            }
        }
        self.undo_stack.push(Transaction::new(op, selection_before));
    }

    /// Begin a compound operation group. All edits until the matching
    /// `end_group` form one undo unit.
    pub fn begin_group(&mut self, selection_before: Range<usize>)
        requires
            old(self)@.depth < usize::MAX,
        ensures
            group_begun(old(self)@, final(self)@),
    {
        if self.transaction_depth == 0 {
            self.compound_transaction = None;
        }
        self.transaction_depth = self.transaction_depth + 1;
        let _ = selection_before;
    }

    /// End a compound operation group. Closing the outermost group pushes
    /// the accumulated transaction, which never coalesces with later edits.
    pub fn end_group(&mut self)
        ensures
            group_ended(old(self)@, final(self)@),
    {
        if self.transaction_depth == 0 {
            return;
        }
        self.transaction_depth = self.transaction_depth - 1;
        if self.transaction_depth == 0 {
            if let Some(mut txn) = self.compound_transaction.take() {
                txn.suppress_grouping = true;
                self.undo_stack.push(txn);
            }
        }
    }

    /// Pop the last transaction from the undo stack and return it; it moves
    /// to the redo stack. The caller applies the inverse operations.
    pub fn undo(&mut self) -> (r: Option<Transaction>)
        ensures
            final(self)@ == spec_undo(old(self)@).0,
            opt_txn_view(r) == spec_undo(old(self)@).1,
    {
        let ghost u0 = self.undo_stack@;
        let ghost r0 = self.redo_stack@;
        match self.undo_stack.pop() {
            None => None,
            Some(txn) => {
                self.redo_stack.push(txn.clone());
                assert(self.undo_stack@.map_values(|t: Transaction| t@) =~= u0.map_values(
                    |t: Transaction| t@,
                ).drop_last());
                assert(self.redo_stack@.map_values(|t: Transaction| t@) =~= r0.map_values(
                    |t: Transaction| t@,
                ).push(txn@));
                Some(txn)
            },
        }
    }

    /// Pop the last transaction from the redo stack and return it; it moves
    /// back to the undo stack. The caller re-applies the operations.
    pub fn redo(&mut self) -> (r: Option<Transaction>)
        ensures
            final(self)@ == spec_redo(old(self)@).0,
            opt_txn_view(r) == spec_redo(old(self)@).1,
    {
        let ghost u0 = self.undo_stack@;
        let ghost r0 = self.redo_stack@;
        match self.redo_stack.pop() {
            None => None,
            Some(txn) => {
                self.undo_stack.push(txn.clone());
                assert(self.redo_stack@.map_values(|t: Transaction| t@) =~= r0.map_values(
                    |t: Transaction| t@,
                ).drop_last());
                assert(self.undo_stack@.map_values(|t: Transaction| t@) =~= u0.map_values(
                    |t: Transaction| t@,
                ).push(txn@));
                Some(txn)
            },
        }
    }

    pub fn can_undo(&self) -> (r: bool)
        ensures
            r == (self@.undo.len() > 0),
    {
        self.undo_stack.len() > 0
    }

    pub fn can_redo(&self) -> (r: bool)
        ensures
            r == (self@.redo.len() > 0),
    {
        self.redo_stack.len() > 0
    }

    /// Force the current coalescing group to end, so the next edit starts a
    /// fresh transaction.
    pub fn break_coalescing(&mut self)
        ensures
            coalescing_broken(old(self)@, final(self)@),
    {
        match self.undo_stack.pop() {
            None => {},
            Some(mut last) => {
                last.suppress_grouping = true;
                self.undo_stack.push(last);
            },
        }
    }

    /// Forget all history, including any open group.
    pub fn clear(&mut self)
        ensures
            final(self)@.undo.len() == 0,
            final(self)@.redo.len() == 0,
            final(self)@.depth == 0,
            final(self)@.compound is None,
            final(self)@.window == old(self)@.window,
    {
        self.undo_stack.clear();
        self.redo_stack.clear();
        self.compound_transaction = None;
        self.transaction_depth = 0;
    }
}

} // verus!
