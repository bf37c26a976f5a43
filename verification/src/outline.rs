//! Outline folding (org-mode style TAB cycling) and heading navigation.
use std::collections::HashMap;

use vstd::prelude::*;

use crate::line_style::LineKind;

verus! {

broadcast use vstd::std_specs::hash::group_hash_axioms;

/// A heading found in the document.
#[derive(Clone, Copy, Debug, PartialEq, Eq, Structural)]
pub struct HeadingInfo {
    /// Display-line index (0-based).
    pub line_idx: usize,
    /// Heading level (1 to 6).
    pub level: u8,
}

/// Three-state fold cycle, matching Emacs org-mode TAB behavior.
#[derive(Clone, Copy, Debug, PartialEq, Eq, Structural)]
pub enum FoldCycle {
    /// Only the heading line visible; body and subheadings hidden.
    Folded,
    /// Heading and direct child headings visible (children themselves folded).
    Children,
    /// Everything under this heading visible.
    ShowAll,
}

/// The state after one TAB on a heading with child headings.
pub open spec fn fold_next(s: FoldCycle) -> FoldCycle {
    match s {
        FoldCycle::ShowAll => FoldCycle::Folded,
        FoldCycle::Folded => FoldCycle::Children,
        FoldCycle::Children => FoldCycle::ShowAll,
    }
}

/// The state after one TAB on a heading without child headings: the
/// `Children` state is skipped.
pub open spec fn fold_next_leaf(s: FoldCycle) -> FoldCycle {
    match s {
        FoldCycle::ShowAll => FoldCycle::Folded,
        FoldCycle::Folded => FoldCycle::ShowAll,
        FoldCycle::Children => FoldCycle::ShowAll,
    }
}

impl FoldCycle {
    fn next(self) -> (r: Self)
        ensures
            r == fold_next(self),
    {
        match self {
            FoldCycle::ShowAll => FoldCycle::Folded,
            FoldCycle::Folded => FoldCycle::Children,
            FoldCycle::Children => FoldCycle::ShowAll,
        }
    }

    /// When a heading has no child headings, skip the Children state.
    fn next_leaf(self) -> (r: Self)
        ensures
            r == fold_next_leaf(self),
    {
        match self {
            FoldCycle::ShowAll => FoldCycle::Folded,
            FoldCycle::Folded => FoldCycle::ShowAll,
            FoldCycle::Children => FoldCycle::ShowAll,
        }
    }
}

/// Three TABs on a heading with children bring it back to where it was.
pub proof fn lemma_cycle_returns_after_three(s: FoldCycle)
    ensures
        fold_next(fold_next(fold_next(s))) == s,
{
}

/// Two TABs on a leaf heading bring a shown or folded heading back.
pub proof fn lemma_leaf_cycle_returns_after_two(s: FoldCycle)
    requires
        s != FoldCycle::Children,
    ensures
        fold_next_leaf(fold_next_leaf(s)) == s,
{
}

/// The fold state recorded for a heading line; `ShowAll` when none is.
pub open spec fn state_of(m: Map<usize, FoldCycle>, line: usize) -> FoldCycle {
    if m.contains_key(line) {
        m[line]
    } else {
        FoldCycle::ShowAll
    }
}

/// Index of the first heading at or after `i` whose level is at most `level`,
/// or `h.len()` when there is none.
pub open spec fn first_level_at_most(h: Seq<HeadingInfo>, level: u8, i: int) -> int
    decreases h.len() - i,
{
    if i >= h.len() {
        h.len() as int
    } else if h[i].level <= level {
        i
    } else {
        first_level_at_most(h, level, i + 1)
    }
}

/// End line (exclusive) of the section owned by heading `idx`: the line of
/// the next heading of the same or a higher level, or `line_count`.
pub open spec fn section_end(h: Seq<HeadingInfo>, idx: int, line_count: usize) -> int {
    let j = first_level_at_most(h, h[idx].level, idx + 1);
    if j < h.len() {
        h[j].line_idx as int
    } else {
        line_count as int
    }
}

/// Index of the first heading at `line`, or `h.len()`.
pub open spec fn first_at_line(h: Seq<HeadingInfo>, line: int, i: int) -> int
    decreases h.len() - i,
{
    if i >= h.len() {
        h.len() as int
    } else if h[i].line_idx == line {
        i
    } else {
        first_at_line(h, line, i + 1)
    }
}

/// The first-match search stays in range and finds a heading at `line`.
pub proof fn lemma_first_at_line_range(h: Seq<HeadingInfo>, line: int, i: int)
    requires
        0 <= i <= h.len(),
    ensures
        i <= first_at_line(h, line, i) <= h.len(),
        first_at_line(h, line, i) < h.len() ==> h[first_at_line(h, line, i)].line_idx == line,
    decreases h.len() - i,
{
    if i < h.len() && h[i].line_idx != line {
        lemma_first_at_line_range(h, line, i + 1);
    }
}

/// The level search stays in range.
pub proof fn lemma_first_level_range(h: Seq<HeadingInfo>, level: u8, i: int)
    requires
        0 <= i <= h.len(),
    ensures
        i <= first_level_at_most(h, level, i) <= h.len(),
    decreases h.len() - i,
{
    if i < h.len() && h[i].level > level {
        lemma_first_level_range(h, level, i + 1);
    }
}

/// A section never ends past the document.
pub proof fn lemma_section_end_in_document(h: Seq<HeadingInfo>, idx: int, line_count: usize)
    requires
        0 <= idx < h.len(),
        headings_in_document(h, line_count),
    ensures
        section_end(h, idx, line_count) <= line_count,
{
    lemma_first_level_range(h, h[idx].level, idx + 1);
}

/// Index of the direct child (one level deeper) of heading `p` whose section
/// holds `line`, scanning from `i` and stopping at the first heading after
/// `p` whose level is at most that of `p`; `h.len()` when there is none.
pub open spec fn direct_child_owner(
    h: Seq<HeadingInfo>,
    p: HeadingInfo,
    line: int,
    line_count: usize,
    i: int,
) -> int
    decreases h.len() - i,
{
    if i >= h.len() {
        h.len() as int
    } else if h[i].line_idx <= p.line_idx {
        direct_child_owner(h, p, line, line_count, i + 1)
    } else if h[i].level <= p.level {
        h.len() as int
    } else if h[i].level == p.level + 1 && line > h[i].line_idx && line < section_end(
        h,
        i,
        line_count,
    ) {
        i
    } else {
        direct_child_owner(h, p, line, line_count, i + 1)
    }
}

/// Under a heading in the `Children` state, whether `line` stays visible:
/// it is a direct child heading, or it lies in the section of a direct child
/// that was explicitly opened.
pub open spec fn children_keep_visible(
    m: Map<usize, FoldCycle>,
    h: Seq<HeadingInfo>,
    idx: int,
    line: int,
    line_count: usize,
) -> bool {
    let at = first_at_line(h, line, 0);
    let owner = direct_child_owner(h, h[idx], line, line_count, 0);
    ||| (at < h.len() && h[at].level == h[idx].level + 1)
    ||| (owner < h.len() && m.contains_key(h[owner].line_idx) && m[h[owner].line_idx]
        == FoldCycle::ShowAll)
}

/// Whether the fold state of heading `idx` hides `line`.
pub open spec fn hides(
    m: Map<usize, FoldCycle>,
    h: Seq<HeadingInfo>,
    idx: int,
    line: int,
    line_count: usize,
) -> bool {
    let s = state_of(m, h[idx].line_idx);
    &&& h[idx].line_idx < line < section_end(h, idx, line_count)
    &&& (s == FoldCycle::Folded || (s == FoldCycle::Children && !children_keep_visible(
        m,
        h,
        idx,
        line,
        line_count,
    )))
}

/// Whether some heading's fold state hides `line`.
pub open spec fn line_hidden(
    m: Map<usize, FoldCycle>,
    h: Seq<HeadingInfo>,
    line: int,
    line_count: usize,
) -> bool {
    exists|idx: int| 0 <= idx < h.len() && #[trigger] hides(m, h, idx, line, line_count)
}

/// Every heading lies inside the document.
pub open spec fn headings_in_document(h: Seq<HeadingInfo>, line_count: usize) -> bool {
    forall|i: int| 0 <= i < h.len() ==> #[trigger] h[i].line_idx < line_count
}

/// Whether heading `idx` has a deeper heading inside its section.
pub open spec fn has_children_spec(h: Seq<HeadingInfo>, idx: int, line_count: usize) -> bool {
    exists|k: int|
        0 <= k < h.len() && h[k].line_idx > h[idx].line_idx && h[k].line_idx < section_end(
            h,
            idx,
            line_count,
        ) && #[trigger] h[k].level > h[idx].level
}

/// Heading `i` is top-level: no heading before it is shallower.
pub open spec fn top_level(h: Seq<HeadingInfo>, i: int) -> bool {
    forall|j: int| 0 <= j < h.len() ==> !#[trigger] ancestor_candidate(h, j, h[i].line_idx, h[i].level)
}

/// The fold states after setting the top-level headings among `hs`, in
/// order, to `g`. Which headings are top-level is judged among `hs` itself.
pub open spec fn global_folds(m: Map<usize, FoldCycle>, hs: Seq<HeadingInfo>, g: FoldCycle) -> Map<usize, FoldCycle> {
    global_folds_among(m, hs, hs.len() as int, g)
}

/// The fold states after setting to `g` each of the first `n` headings of
/// `all` that is top-level among `all`.
pub open spec fn global_folds_among(m: Map<usize, FoldCycle>, all: Seq<HeadingInfo>, n: int, g: FoldCycle) -> Map<
    usize,
    FoldCycle,
>
    decreases n,
{
    if n <= 0 {
        m
    } else {
        let prev = global_folds_among(m, all, n - 1, g);
        if top_level(all, n - 1) {
            prev.insert(all[n - 1].line_idx, g)
        } else {
            prev
        }
    }
}

/// The fold states after one TAB on the heading at line `line`: its state
/// advances (skipping `Children` when it has no child headings); when no
/// heading is at that line nothing changes.
pub open spec fn heading_cycled(m: Map<usize, FoldCycle>, h: Seq<HeadingInfo>, line: usize, line_count: usize) -> Map<
    usize,
    FoldCycle,
> {
    let idx = first_at_line(h, line as int, 0);
    if idx < h.len() {
        let cur = state_of(m, line);
        m.insert(
            line,
            if has_children_spec(h, idx, line_count) {
                fold_next(cur)
            } else {
                fold_next_leaf(cur)
            },
        )
    } else {
        m
    }
}

/// Repeated TABs on one heading bring every fold state back: three on a
/// heading with child headings, two on one without (from a shown or folded
/// state).
pub proof fn lemma_cycle_heading_restores(m: Map<usize, FoldCycle>, h: Seq<HeadingInfo>, line: usize, line_count: usize)
    ensures
        has_children_spec(h, first_at_line(h, line as int, 0), line_count) ==> forall|l: usize|
            state_of(
                heading_cycled(
                    heading_cycled(heading_cycled(m, h, line, line_count), h, line, line_count),
                    h,
                    line,
                    line_count,
                ),
                l,
            ) == #[trigger] state_of(m, l),
        !has_children_spec(h, first_at_line(h, line as int, 0), line_count) && state_of(m, line)
            != FoldCycle::Children ==> forall|l: usize|
            state_of(heading_cycled(heading_cycled(m, h, line, line_count), h, line, line_count), l)
                == #[trigger] state_of(m, l),
{
    lemma_cycle_returns_after_three(state_of(m, line));
    if state_of(m, line) != FoldCycle::Children {
        lemma_leaf_cycle_returns_after_two(state_of(m, line));
    }
}

/// Outline fold/visibility state for the editor.
pub struct OutlineState {
    /// Per-heading fold state, keyed by heading line index.
    pub fold_states: HashMap<usize, FoldCycle>,
    /// Current global fold cycle (for S-TAB).
    pub global_cycle: FoldCycle,
}

impl OutlineState {
    pub fn new() -> (o: Self)
        ensures
            o.fold_states@ == Map::<usize, FoldCycle>::empty(),
            o.global_cycle == FoldCycle::ShowAll,
    {
        OutlineState { fold_states: HashMap::new(), global_cycle: FoldCycle::ShowAll }
    }

    /// Get the fold state for a heading (defaults to ShowAll).
    pub fn fold_state(&self, heading_line: usize) -> (s: FoldCycle)
        ensures
            s == state_of(self.fold_states@, heading_line),
    {
        match self.fold_states.get(&heading_line) {
            Some(s) => *s,
            None => FoldCycle::ShowAll,
        }
    }

    /// Cycle the fold state for the heading at `line_idx`.
    /// Returns the new state, or None if `line_idx` is not a heading.
    pub fn cycle_heading(&mut self, line_idx: usize, headings: &[HeadingInfo], line_count: usize) -> (r:
        Option<FoldCycle>)
        ensures
            final(self).global_cycle == old(self).global_cycle,
            ({
                let h = headings@;
                let idx = first_at_line(h, line_idx as int, 0);
                let cur = state_of(old(self).fold_states@, line_idx);
                if idx < h.len() {
                    let next = if has_children_spec(h, idx, line_count) {
                        fold_next(cur)
                    } else {
                        fold_next_leaf(cur)
                    };
                    &&& r == Some(next)
                    &&& final(self).fold_states@ == old(self).fold_states@.insert(line_idx, next)
                } else {
                    &&& r is None
                    &&& final(self).fold_states@ == old(self).fold_states@
                }
            }),
            final(self).fold_states@ == heading_cycled(old(self).fold_states@, headings@, line_idx, line_count),
    {
        let idx = find_heading_at(headings, line_idx);
        if idx == headings.len() {
            return None;
        }
        let has_children = has_child_headings(idx, headings, line_count);
        let current = self.fold_state(line_idx);
        let next = if has_children {
            current.next()
        } else {
            current.next_leaf()
        };
        self.fold_states.insert(line_idx, next);
        Some(next)
    }

    /// Global cycle: advance the global state and apply it to the
    /// top-level headings (those with no shallower heading before them);
    /// nested headings keep their own states.
    pub fn global_cycle(&mut self, headings: &[HeadingInfo])
        ensures
            final(self).global_cycle == fold_next(old(self).global_cycle),
            final(self).fold_states@ == global_folds(old(self).fold_states@, headings@, final(self).global_cycle),
    {
        self.global_cycle = self.global_cycle.next();
        let g = self.global_cycle;
        let ghost m0 = self.fold_states@;
        let mut i: usize = 0;
        while i < headings.len()
            invariant
                i <= headings@.len(),
                self.global_cycle == g,
                self.fold_states@ == global_folds_among(m0, headings@, i as int, g),
            decreases headings@.len() - i,
        {
            let line = headings[i].line_idx;
            let lvl = headings[i].level;
            let mut top = true;
            let mut j: usize = 0;
            while j < headings.len()
                invariant
                    j <= headings@.len(),
                    i < headings@.len(),
                    line == headings@[i as int].line_idx,
                    lvl == headings@[i as int].level,
                    top == (forall|x: int| 0 <= x < j ==> !#[trigger] ancestor_candidate(headings@, x, line, lvl)),
                decreases headings@.len() - j,
            {
                if headings[j].line_idx < line && headings[j].level < lvl {
                    top = false;
                    assert(ancestor_candidate(headings@, j as int, line, lvl));
                } else {
                    assert(!ancestor_candidate(headings@, j as int, line, lvl));
                }
                j = j + 1;
            }
            proof {
                assert(top == top_level(headings@, i as int));
            }
            if top {
                self.fold_states.insert(line, g);
            }
            i = i + 1;
        }
    }

    /// Compute which lines are hidden given the current fold states.
    /// Returns a vector of length `line_count` where true means hidden.
    pub fn compute_hidden_lines(&self, headings: &[HeadingInfo], line_count: usize) -> (hidden: Vec<
        bool,
    >)
        requires
            headings_in_document(headings@, line_count),
        ensures
            hidden@.len() == line_count,
            forall|l: int|
                0 <= l < line_count ==> #[trigger] hidden@[l] == line_hidden(
                    self.fold_states@,
                    headings@,
                    l,
                    line_count,
                ),
    {
        let ghost m = self.fold_states@;
        let ghost h = headings@;
        let mut hidden: Vec<bool> = Vec::new();
        let mut k: usize = 0;
        while k < line_count
            invariant
                k <= line_count,
                hidden@.len() == k,
                forall|l: int| 0 <= l < k ==> !#[trigger] hidden@[l],
            decreases line_count - k,
        {
            hidden.push(false);
            k = k + 1;
        }
        if headings.len() == 0 || line_count == 0 {
            assert forall|l: int| 0 <= l < line_count implies #[trigger] hidden@[l] == line_hidden(
                m,
                h,
                l,
                line_count,
            ) by {
                assert(!line_hidden(m, h, l, line_count));
            }
            return hidden;
        }
        let mut idx: usize = 0;
        while idx < headings.len()
            invariant
                idx <= h.len(),
                h == headings@,
                m == self.fold_states@,
                headings_in_document(h, line_count),
                hidden@.len() == line_count,
                forall|l: int|
                    0 <= l < line_count ==> #[trigger] hidden@[l] == exists|j: int|
                        0 <= j < idx && #[trigger] hides(m, h, j, l, line_count),
            decreases h.len() - idx,
        {
            let hi = headings[idx];
            let state = self.fold_state(hi.line_idx);
            if state != FoldCycle::ShowAll {
                let end = section_end_line(idx, headings, line_count);
                proof {
                    lemma_section_end_in_document(h, idx as int, line_count);
                }
                let mut line: usize = hi.line_idx + 1;
                while line < end
                    invariant
                        h == headings@,
                        m == self.fold_states@,
                        idx < h.len(),
                        hi == h[idx as int],
                        state == state_of(m, hi.line_idx),
                        state != FoldCycle::ShowAll,
                        end == section_end(h, idx as int, line_count),
                        end <= line_count,
                        hi.line_idx < line_count,
                        hi.line_idx + 1 <= line,
                        headings_in_document(h, line_count),
                        hidden@.len() == line_count,
                        forall|l: int|
                            0 <= l < line_count ==> #[trigger] hidden@[l] == ((exists|j: int|
                                0 <= j < idx && #[trigger] hides(m, h, j, l, line_count)) || (l < line
                                && hides(m, h, idx as int, l, line_count))),
                    decreases end - line,
                {
                    let hide = self.line_hidden_by(idx, hi, state, line, headings, line_count);
                    if hide {
                        hidden.set(line, true);
                    }
                    line = line + 1;
                }
                assert forall|l: int| 0 <= l < line_count implies #[trigger] hidden@[l] == exists|j: int|
                    0 <= j < idx + 1 && #[trigger] hides(m, h, j, l, line_count) by {
                    if hides(m, h, idx as int, l, line_count) {
                        assert(l < line);
                    }
                    if exists|j: int| 0 <= j < idx + 1 && #[trigger] hides(m, h, j, l, line_count) {
                        let j = choose|j: int| 0 <= j < idx + 1 && #[trigger] hides(m, h, j, l, line_count);
                        if j < idx {
                        } else {
                            assert(j == idx);
                        }
                    }
                }
            } else {
                assert forall|l: int| 0 <= l < line_count implies #[trigger] hidden@[l] == exists|j: int|
                    0 <= j < idx + 1 && #[trigger] hides(m, h, j, l, line_count) by {
                    assert(!hides(m, h, idx as int, l, line_count));
                    if exists|j: int| 0 <= j < idx + 1 && #[trigger] hides(m, h, j, l, line_count) {
                        let j = choose|j: int| 0 <= j < idx + 1 && #[trigger] hides(m, h, j, l, line_count);
                        assert(j < idx);
                    }
                }
            }
            idx = idx + 1;
        }
        hidden
    }

    /// Whether heading `idx` (not `ShowAll`) hides `line`, a line of its body.
    fn line_hidden_by(
        &self,
        idx: usize,
        hi: HeadingInfo,
        state: FoldCycle,
        line: usize,
        headings: &[HeadingInfo],
        line_count: usize,
    ) -> (r: bool)
        requires
            idx < headings@.len(),
            hi == headings@[idx as int],
            state == state_of(self.fold_states@, hi.line_idx),
            state != FoldCycle::ShowAll,
            hi.line_idx < line,
            line < section_end(headings@, idx as int, line_count),
        ensures
            r == hides(self.fold_states@, headings@, idx as int, line as int, line_count),
    {
        if state == FoldCycle::Folded {
            return true;
        }
        let at = find_heading_at(headings, line);
        if at < headings.len() {
            let child = headings[at];
            if child.level as u16 == hi.level as u16 + 1 {
                return false;
            }
        }
        let owner = find_direct_child_parent(line, &hi, headings, line_count);
        if owner < headings.len() {
            let explicitly_open = match self.fold_states.get(&headings[owner].line_idx) {
                Some(s) => *s == FoldCycle::ShowAll,
                None => false,
            };
            if explicitly_open {
                return false;
            }
        }
        true
    }
}

/// Index of the first heading at `line`, or the number of headings.
pub fn find_heading_at(headings: &[HeadingInfo], line: usize) -> (r: usize)
    ensures
        r == first_at_line(headings@, line as int, 0),
        r <= headings@.len(),
        r < headings@.len() ==> headings@[r as int].line_idx == line,
{
    proof {
        lemma_first_at_line_range(headings@, line as int, 0);
    }
    let mut i: usize = 0;
    while i < headings.len()
        invariant
            i <= headings@.len(),
            first_at_line(headings@, line as int, i as int) == first_at_line(headings@, line as int, 0),
        decreases headings@.len() - i,
    {
        if headings[i].line_idx == line {
            return i;
        }
        i = i + 1;
    }
    i
}

/// The headings among lines whose heading levels are given (`None` for a
/// line that is not a heading), in line order.
pub open spec fn headings_of(levels: Seq<Option<u8>>) -> Seq<HeadingInfo>
    decreases levels.len(),
{
    if levels.len() == 0 {
        Seq::<HeadingInfo>::empty()
    } else {
        let h = headings_of(levels.drop_last());
        match levels.last() {
            Some(l) => h.push(HeadingInfo { line_idx: (levels.len() - 1) as usize, level: l }),
            None => h,
        }
    }
}

/// The heading level of a line of the given kind, if it is a heading.
pub open spec fn kind_level(k: LineKind) -> Option<u8> {
    match k {
        LineKind::Heading(l) => Some(l),
        _ => None,
    }
}

/// The heading levels of lines of the given kinds.
pub open spec fn kind_levels(kinds: Seq<LineKind>) -> Seq<Option<u8>> {
    kinds.map_values(|k: LineKind| kind_level(k))
}

/// Headings come in line order, each on a line of the document.
pub proof fn lemma_headings_of_increasing(levels: Seq<Option<u8>>)
    requires
        levels.len() <= usize::MAX,
    ensures
        forall|i: int, j: int|
            0 <= i < j < headings_of(levels).len() ==> #[trigger] headings_of(levels)[i].line_idx
                < #[trigger] headings_of(levels)[j].line_idx,
        forall|i: int|
            0 <= i < headings_of(levels).len() ==> #[trigger] headings_of(levels)[i].line_idx
                < levels.len(),
    decreases levels.len(),
{
    if levels.len() > 0 {
        let d = levels.drop_last();
        lemma_headings_of_increasing(d);
        let h = headings_of(d);
        match levels.last() {
            Some(l) => {
                let x = HeadingInfo { line_idx: (levels.len() - 1) as usize, level: l };
                assert(headings_of(levels) == h.push(x));
                assert forall|i: int| 0 <= i < h.push(x).len() implies #[trigger] h.push(x)[i].line_idx
                    < levels.len() by {
                    if i < h.len() {
                        assert(h.push(x)[i] == h[i]);
                    }
                }
                assert forall|i: int, j: int| 0 <= i < j < h.push(x).len() implies #[trigger] h.push(
                    x,
                )[i].line_idx < #[trigger] h.push(x)[j].line_idx by {
                    assert(h.push(x)[i] == h[i]);
                    if j < h.len() {
                        assert(h.push(x)[j] == h[j]);
                    }
                }
            },
            None => {
                assert(headings_of(levels) == h);
            },
        }
    }
}

/// Extract heading info from the line kinds of the display lines.
pub fn extract_headings(line_kinds: &[LineKind]) -> (r: Vec<HeadingInfo>)
    ensures
        r@ == headings_of(kind_levels(line_kinds@)),
{
    let ghost levels = kind_levels(line_kinds@);
    let mut r: Vec<HeadingInfo> = Vec::new();
    let mut i: usize = 0;
    assert(levels.take(0) =~= Seq::<Option<u8>>::empty());
    while i < line_kinds.len()
        invariant
            levels == kind_levels(line_kinds@),
            i <= line_kinds@.len(),
            r@ == headings_of(levels.take(i as int)),
        decreases line_kinds@.len() - i,
    {
        assert(levels.take(i + 1).drop_last() =~= levels.take(i as int));
        assert(levels.take(i + 1).last() == kind_level(line_kinds@[i as int]));
        match line_kinds[i] {
            LineKind::Heading(level) => {
                r.push(HeadingInfo { line_idx: i, level });
            },
            _ => {},
        }
        i = i + 1;
    }
    assert(levels.take(line_kinds@.len() as int) =~= levels);
    r
}

/// End line (exclusive) of the section owned by heading at `heading_idx`.
/// A section runs from the heading to the next heading of same or higher level.
pub fn section_end_line(heading_idx: usize, headings: &[HeadingInfo], line_count: usize) -> (r: usize)
    requires
        heading_idx < headings@.len(),
    ensures
        r == section_end(headings@, heading_idx as int, line_count),
{
    let level = headings[heading_idx].level;
    let mut i: usize = heading_idx + 1;
    while i < headings.len()
        invariant
            heading_idx < i <= headings@.len(),
            level == headings@[heading_idx as int].level,
            first_level_at_most(headings@, level, i as int) == first_level_at_most(
                headings@,
                level,
                heading_idx + 1,
            ),
        decreases headings@.len() - i,
    {
        if headings[i].level <= level {
            return headings[i].line_idx;
        }
        i = i + 1;
    }
    line_count
}

/// Check if heading `idx` has any child headings (deeper level within its section).
fn has_child_headings(idx: usize, headings: &[HeadingInfo], line_count: usize) -> (r: bool)
    requires
        idx < headings@.len(),
    ensures
        r == has_children_spec(headings@, idx as int, line_count),
{
    let hi = headings[idx];
    let end = section_end_line(idx, headings, line_count);
    let mut k: usize = 0;
    while k < headings.len()
        invariant
            k <= headings@.len(),
            hi == headings@[idx as int],
            end == section_end(headings@, idx as int, line_count),
            forall|j: int|
                0 <= j < k ==> !(headings@[j].line_idx > hi.line_idx && headings@[j].line_idx < end
                    && #[trigger] headings@[j].level > hi.level),
        decreases headings@.len() - k,
    {
        let h = headings[k];
        if h.line_idx > hi.line_idx && h.line_idx < end && h.level > hi.level {
            return true;
        }
        k = k + 1;
    }
    false
}

/// Index of the direct child heading (level one deeper than `parent`) whose
/// section holds `line`, or the number of headings when there is none.
fn find_direct_child_parent(line: usize, parent: &HeadingInfo, headings: &[HeadingInfo], line_count: usize) -> (r:
    usize)
    ensures
        r == direct_child_owner(headings@, *parent, line as int, line_count, 0),
{
    let mut idx: usize = 0;
    while idx < headings.len()
        invariant
            idx <= headings@.len(),
            direct_child_owner(headings@, *parent, line as int, line_count, idx as int)
                == direct_child_owner(headings@, *parent, line as int, line_count, 0),
        decreases headings@.len() - idx,
    {
        let h = headings[idx];
        if h.line_idx <= parent.line_idx {
            idx = idx + 1;
            continue;
        }
        if h.level <= parent.level {
            return headings.len();
        }
        if h.level as u16 == parent.level as u16 + 1 && line > h.line_idx {
            let child_end = section_end_line(idx, headings, line_count);
            if line < child_end {
                return idx;
            }
        }
        idx = idx + 1;
    }
    headings.len()
}

// ─── Heading navigation ─────────────────────────────────────────────────────

/// `r` is the heading at index `k` of `h`, or there is no such `k` and `r` is None.
pub open spec fn found_at(r: Option<&HeadingInfo>, h: Seq<HeadingInfo>, k: int) -> bool {
    match r {
        Some(x) => 0 <= k < h.len() && *x == h[k],
        None => k == -1 || k == h.len(),
    }
}

/// Find the next heading after `line_idx` (any level): the first, in order,
/// whose line is after `line_idx`.
pub fn next_heading(line_idx: usize, headings: &[HeadingInfo]) -> (r: Option<&HeadingInfo>)
    ensures
        match r {
            Some(x) => exists|k: int|
                0 <= k < headings@.len() && headings@[k] == *x && x.line_idx > line_idx && forall|
                    j: int,
                | 0 <= j < k ==> #[trigger] headings@[j].line_idx <= line_idx,
            None => forall|j: int| 0 <= j < headings@.len() ==> #[trigger] headings@[j].line_idx <= line_idx,
        },
{
    let mut i: usize = 0;
    while i < headings.len()
        invariant
            i <= headings@.len(),
            forall|j: int| 0 <= j < i ==> #[trigger] headings@[j].line_idx <= line_idx,
        decreases headings@.len() - i,
    {
        if headings[i].line_idx > line_idx {
            return Some(&headings[i]);
        }
        i = i + 1;
    }
    None
}

/// Find the previous heading before `line_idx` (any level): the last, in
/// order, whose line is before `line_idx`.
pub fn prev_heading(line_idx: usize, headings: &[HeadingInfo]) -> (r: Option<&HeadingInfo>)
    ensures
        match r {
            Some(x) => exists|k: int|
                0 <= k < headings@.len() && headings@[k] == *x && x.line_idx < line_idx && forall|
                    j: int,
                | k < j < headings@.len() ==> #[trigger] headings@[j].line_idx >= line_idx,
            None => forall|j: int| 0 <= j < headings@.len() ==> #[trigger] headings@[j].line_idx >= line_idx,
        },
{
    let mut i: usize = headings.len();
    while i > 0
        invariant
            i <= headings@.len(),
            forall|j: int| i <= j < headings@.len() ==> #[trigger] headings@[j].line_idx >= line_idx,
        decreases i,
    {
        i = i - 1;
        if headings[i].line_idx < line_idx {
            return Some(&headings[i]);
        }
    }
    None
}

/// Heading `j` comes before `line` and is shallower than `lvl`.
pub open spec fn ancestor_candidate(h: Seq<HeadingInfo>, j: int, line: usize, lvl: u8) -> bool {
    h[j].line_idx < line && h[j].level < lvl
}

/// Scanning forward from position `i`, the next heading at level `lvl`
/// before any shallower heading (which would end the parent's section).
pub open spec fn sibling_after(h: Seq<HeadingInfo>, lvl: u8, i: int) -> Option<int>
    decreases h.len() - i,
{
    if i < 0 || i >= h.len() || h[i].level < lvl {
        None
    } else if h[i].level == lvl {
        Some(i)
    } else {
        sibling_after(h, lvl, i + 1)
    }
}

/// Scanning back from position `i`, the previous heading at level `lvl`
/// after any shallower heading (the parent, which starts the section).
pub open spec fn sibling_before(h: Seq<HeadingInfo>, lvl: u8, i: int) -> Option<int>
    decreases i + 1,
{
    if i < 0 || i >= h.len() || h[i].level < lvl {
        None
    } else if h[i].level == lvl {
        Some(i)
    } else {
        sibling_before(h, lvl, i - 1)
    }
}

/// The position of the next sibling of the heading at `line`: the next
/// heading of the same level under the same parent.
pub open spec fn next_sibling_spec(h: Seq<HeadingInfo>, line: usize) -> Option<int> {
    let at = first_at_line(h, line as int, 0);
    if at >= h.len() {
        None
    } else {
        sibling_after(h, h[at].level, at + 1)
    }
}

/// The position of the previous sibling of the heading at `line`: the
/// previous heading of the same level under the same parent.
pub open spec fn prev_sibling_spec(h: Seq<HeadingInfo>, line: usize) -> Option<int> {
    let at = first_at_line(h, line as int, 0);
    if at >= h.len() {
        None
    } else {
        sibling_before(h, h[at].level, at - 1)
    }
}

pub proof fn lemma_sibling_after_range(h: Seq<HeadingInfo>, lvl: u8, i: int)
    ensures
        sibling_after(h, lvl, i) matches Some(k) ==> i <= k < h.len() && h[k].level == lvl,
    decreases h.len() - i,
{
    if 0 <= i < h.len() && h[i].level > lvl {
        lemma_sibling_after_range(h, lvl, i + 1);
    }
}

pub proof fn lemma_sibling_before_range(h: Seq<HeadingInfo>, lvl: u8, i: int)
    ensures
        sibling_before(h, lvl, i) matches Some(k) ==> 0 <= k <= i && h[k].level == lvl,
    decreases i + 1,
{
    if 0 <= i < h.len() && h[i].level > lvl {
        lemma_sibling_before_range(h, lvl, i - 1);
    }
}

/// Find the parent heading of the heading at `line_idx`: the last heading
/// before it with a lower level. None when no heading is at `line_idx`.
pub fn parent_heading(line_idx: usize, headings: &[HeadingInfo]) -> (r: Option<&HeadingInfo>)
    ensures
        ({
            let at = first_at_line(headings@, line_idx as int, 0);
            if at >= headings@.len() {
                r is None
            } else {
                let lvl = headings@[at].level;
                match r {
                    Some(x) => exists|k: int|
                        0 <= k < headings@.len() && headings@[k] == *x && #[trigger] ancestor_candidate(headings@, k, line_idx, lvl)
                            && forall|j: int| k < j < headings@.len() ==> !#[trigger] ancestor_candidate(headings@, j, line_idx, lvl),
                    None => forall|j: int| 0 <= j < headings@.len() ==> !#[trigger] ancestor_candidate(headings@, j, line_idx, lvl),
                }
            }
        }),
{
    let at = find_heading_at(headings, line_idx);
    if at == headings.len() {
        return None;
    }
    let lvl = headings[at].level;
    let mut i: usize = headings.len();
    while i > 0
        invariant
            i <= headings@.len(),
            at == first_at_line(headings@, line_idx as int, 0),
            at < headings@.len(),
            lvl == headings@[at as int].level,
            forall|j: int|
                i <= j < headings@.len() ==> !#[trigger] ancestor_candidate(headings@, j, line_idx, lvl),
        decreases i,
    {
        i = i - 1;
        if headings[i].line_idx < line_idx && headings[i].level < lvl {
            proof {
                let k = i as int;
                assert(forall|j: int| k < j < headings@.len() ==> !#[trigger] ancestor_candidate(headings@, j, line_idx, lvl));
                assert(ancestor_candidate(headings@, k, line_idx, lvl));
            }
            return Some(&headings[i]);
        }
    }
    None
}

/// Find the heading that contains `line_idx`: the last heading at or
/// before that line.
pub fn heading_for_line(line_idx: usize, headings: &[HeadingInfo]) -> (r: Option<&HeadingInfo>)
    ensures
        match r {
            Some(x) => exists|k: int|
                0 <= k < headings@.len() && headings@[k] == *x && x.line_idx <= line_idx && forall|
                    j: int,
                | k < j < headings@.len() ==> #[trigger] headings@[j].line_idx > line_idx,
            None => forall|j: int| 0 <= j < headings@.len() ==> #[trigger] headings@[j].line_idx > line_idx,
        },
{
    let mut i: usize = headings.len();
    while i > 0
        invariant
            i <= headings@.len(),
            forall|j: int| i <= j < headings@.len() ==> #[trigger] headings@[j].line_idx > line_idx,
        decreases i,
    {
        i = i - 1;
        if headings[i].line_idx <= line_idx {
            return Some(&headings[i]);
        }
    }
    None
}

/// Find the next sibling heading: the next heading of the same level
/// under the same parent as the heading at `line_idx` (headings in
/// document order).
pub fn next_sibling(line_idx: usize, headings: &[HeadingInfo]) -> (r: Option<&HeadingInfo>)
    ensures
        match next_sibling_spec(headings@, line_idx) {
            Some(k) => 0 <= k < headings@.len() && (r matches Some(x) && *x == headings@[k]),
            None => r is None,
        },
{
    let at = find_heading_at(headings, line_idx);
    if at == headings.len() {
        return None;
    }
    let lvl = headings[at].level;
    let mut i: usize = at + 1;
    while i < headings.len()
        invariant
            at < i <= headings@.len(),
            at == first_at_line(headings@, line_idx as int, 0),
            lvl == headings@[at as int].level,
            sibling_after(headings@, lvl, i as int) == sibling_after(headings@, lvl, at + 1),
        decreases headings@.len() - i,
    {
        if headings[i].level < lvl {
            return None;
        }
        if headings[i].level == lvl {
            return Some(&headings[i]);
        }
        i = i + 1;
    }
    None
}

/// Find the previous sibling heading: the previous heading of the same
/// level under the same parent as the heading at `line_idx` (headings in
/// document order).
pub fn prev_sibling(line_idx: usize, headings: &[HeadingInfo]) -> (r: Option<&HeadingInfo>)
    ensures
        match prev_sibling_spec(headings@, line_idx) {
            Some(k) => 0 <= k < headings@.len() && (r matches Some(x) && *x == headings@[k]),
            None => r is None,
        },
{
    let at = find_heading_at(headings, line_idx);
    if at == headings.len() {
        return None;
    }
    let lvl = headings[at].level;
    let mut i: usize = at;
    while i > 0
        invariant
            i <= at < headings@.len(),
            at == first_at_line(headings@, line_idx as int, 0),
            lvl == headings@[at as int].level,
            sibling_before(headings@, lvl, i - 1) == sibling_before(headings@, lvl, at - 1),
        decreases i,
    {
        let j = i - 1;
        if headings[j].level < lvl {
            return None;
        }
        if headings[j].level == lvl {
            return Some(&headings[j]);
        }
        i = j;
    }
    None
}

/// With no recorded fold states, no line is hidden.
pub proof fn lemma_nothing_hidden_without_folds(h: Seq<HeadingInfo>, line: int, line_count: usize)
    ensures
        !line_hidden(Map::<usize, FoldCycle>::empty(), h, line, line_count),
{
}

/// A heading line is never hidden by its own fold.
pub proof fn lemma_heading_not_hidden_by_itself(
    m: Map<usize, FoldCycle>,
    h: Seq<HeadingInfo>,
    idx: int,
    line_count: usize,
)
    requires
        0 <= idx < h.len(),
    ensures
        !hides(m, h, idx, h[idx].line_idx as int, line_count),
{
}

/// Folding a heading hides every line of its body.
pub proof fn lemma_folded_hides_body(
    m: Map<usize, FoldCycle>,
    h: Seq<HeadingInfo>,
    idx: int,
    line: int,
    line_count: usize,
)
    requires
        0 <= idx < h.len(),
        state_of(m, h[idx].line_idx) == FoldCycle::Folded,
        h[idx].line_idx < line < section_end(h, idx, line_count),
    ensures
        line_hidden(m, h, line, line_count),
{
    assert(hides(m, h, idx, line, line_count));
}

} // verus!
