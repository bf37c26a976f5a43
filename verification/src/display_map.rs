//! The editor's cached display lines: each line's kind, style spans and
//! start offset, and whether outline folding hides it.
use vstd::prelude::*;

use crate::line_style::{document_lines, entry_view, lines_from, LineInfo, LineKind, StyleSpan};

verus! {

/// What the display map holds: the analysed lines (kind, spans, start
/// offset) and which of them are hidden.
pub struct DisplayView {
    pub lines: Seq<(LineKind, Seq<StyleSpan>, int)>,
    pub hidden: Seq<bool>,
}

/// The lines of `content` freshly analysed, none hidden.
pub open spec fn fresh_view(content: Seq<char>) -> DisplayView {
    let lines = lines_from(content, 0, false);
    DisplayView { lines, hidden: Seq::new(lines.len(), |i: int| false) }
}

/// The index of the last line that starts at or before `off` among the
/// first `n` lines, or 0 when there is none.
pub open spec fn line_at(lines: Seq<(LineKind, Seq<StyleSpan>, int)>, off: int, n: int) -> int
    decreases n,
{
    if n <= 0 {
        0
    } else if lines[n - 1].2 <= off {
        n - 1
    } else {
        line_at(lines, off, n - 1)
    }
}

/// The first line at or after `i` that is not hidden.
pub open spec fn visible_from(hidden: Seq<bool>, i: int) -> Option<int>
    decreases hidden.len() - i,
{
    if i < 0 || i >= hidden.len() {
        None
    } else if !hidden[i] {
        Some(i)
    } else {
        visible_from(hidden, i + 1)
    }
}

/// The last line before `i` that is not hidden.
pub open spec fn visible_before(hidden: Seq<bool>, i: int) -> Option<int>
    decreases i,
{
    if i <= 0 || i > hidden.len() {
        None
    } else if !hidden[i - 1] {
        Some(i - 1)
    } else {
        visible_before(hidden, i - 1)
    }
}

/// The next line that is not hidden, after line `from` when `forward`,
/// before it otherwise.
pub open spec fn next_visible(hidden: Seq<bool>, from: int, forward: bool) -> Option<int> {
    if forward {
        visible_from(hidden, from + 1)
    } else {
        visible_before(hidden, from)
    }
}

/// Whether line `i` is hidden (lines past the end are not).
pub open spec fn hidden_at(hidden: Seq<bool>, i: int) -> bool {
    0 <= i < hidden.len() && hidden[i]
}

/// Cached display pipeline for the editor: parsed lines and fold
/// visibility.
pub struct DisplayMap {
    lines: Vec<(LineInfo, usize)>,
    hidden: Vec<bool>,
    /// Version of the content when last parsed.
    version: u64,
}

impl View for DisplayMap {
    type V = DisplayView;

    closed spec fn view(&self) -> DisplayView {
        DisplayView {
            lines: self.lines@.map_values(|e: (LineInfo, usize)| entry_view(e)),
            hidden: self.hidden@,
        }
    }
}

impl DisplayMap {
    #[verifier::type_invariant]
    closed spec fn inv(self) -> bool {
        self.hidden@.len() == self.lines@.len()
    }

    /// The version counter.
    pub closed spec fn version_spec(&self) -> u64 {
        self.version
    }

    /// An empty map.
    pub fn new() -> (m: Self)
        ensures
            m@.lines.len() == 0,
            m@.hidden.len() == 0,
            m.version_spec() == 0,
    {
        DisplayMap { lines: Vec::new(), hidden: Vec::new(), version: 0 }
    }

    /// Increment the version to trigger a re-parse on the next update.
    pub fn invalidate(&mut self)
        requires
            old(self).version_spec() < u64::MAX,
        ensures
            final(self).version_spec() == old(self).version_spec() + 1,
            final(self)@ == old(self)@,
    {
        proof {
            use_type_invariant(&*self);
        }
        self.version = self.version + 1;
    }

    /// The version counter.
    pub fn version(&self) -> (v: u64)
        ensures
            v == self.version_spec(),
    {
        self.version
    }

    /// Re-parse the document: every line analysed, none hidden.
    pub fn update(&mut self, content: &str)
        ensures
            final(self)@ == fresh_view(content@),
            final(self).version_spec() == old(self).version_spec(),
    {
        let lines = document_lines(content);
        let n = lines.len();
        let mut hidden: Vec<bool> = Vec::new();
        let mut i: usize = 0;
        while i < n
            invariant
                i <= n,
                hidden@ == Seq::new(i as nat, |j: int| false),
            decreases n - i,
        {
            hidden.push(false);
            i = i + 1;
            assert(hidden@ =~= Seq::new(i as nat, |j: int| false));
        }
        *self = DisplayMap { lines, hidden, version: self.version };
        proof {
            assert(self@.hidden =~= fresh_view(content@).hidden);
        }
    }

    /// Apply fold visibility: line `i` is hidden when `hidden[i]` is true;
    /// lines past the end of `hidden` are shown.
    pub fn update_visibility(&mut self, hidden: &[bool])
        ensures
            final(self)@.lines == old(self)@.lines,
            final(self)@.hidden == Seq::new(
                old(self)@.lines.len(),
                |i: int| i < hidden@.len() && hidden@[i],
            ),
            final(self).version_spec() == old(self).version_spec(),
    {
        proof {
            use_type_invariant(&*self);
        }
        let n = self.lines.len();
        let mut flags: Vec<bool> = Vec::new();
        let mut i: usize = 0;
        while i < n
            invariant
                i <= n,
                flags@ == Seq::new(i as nat, |j: int| j < hidden@.len() && hidden@[j]),
            decreases n - i,
        {
            let h = if i < hidden.len() {
                hidden[i]
            } else {
                false
            };
            flags.push(h);
            i = i + 1;
            assert(flags@ =~= Seq::new(i as nat, |j: int| j < hidden@.len() && hidden@[j]));
        }
        self.hidden = flags;
    }

    /// The number of lines.
    pub fn line_count(&self) -> (n: usize)
        ensures
            n == self@.lines.len(),
            n == self@.hidden.len(),
    {
        proof {
            use_type_invariant(self);
        }
        self.lines.len()
    }

    /// The analysis of line `idx`.
    pub fn line_info(&self, idx: usize) -> (r: &LineInfo)
        requires
            idx < self@.lines.len(),
        ensures
            r.kind == self@.lines[idx as int].0,
            r.spans@ == self@.lines[idx as int].1,
    {
        &self.lines[idx].0
    }

    /// The byte offset where line `idx` starts.
    pub fn line_offset(&self, idx: usize) -> (r: usize)
        requires
            idx < self@.lines.len(),
        ensures
            r == self@.lines[idx as int].2,
    {
        self.lines[idx].1
    }

    /// Whether line `idx` is hidden (lines past the end are not).
    pub fn is_line_hidden(&self, idx: usize) -> (r: bool)
        ensures
            r == hidden_at(self@.hidden, idx as int),
    {
        if idx < self.hidden.len() {
            self.hidden[idx]
        } else {
            false
        }
    }

    /// The kind of every line, in order (used by the outline to find the
    /// headings).
    pub fn line_kinds(&self) -> (r: Vec<LineKind>)
        ensures
            r@ == self@.lines.map_values(|e: (LineKind, Seq<StyleSpan>, int)| e.0),
    {
        let mut r: Vec<LineKind> = Vec::new();
        let mut i: usize = 0;
        while i < self.lines.len()
            invariant
                i <= self@.lines.len(),
                r@ == self@.lines.take(i as int).map_values(
                    |e: (LineKind, Seq<StyleSpan>, int)| e.0,
                ),
            decreases self@.lines.len() - i,
        {
            r.push(self.lines[i].0.kind);
            i = i + 1;
            assert(r@ =~= self@.lines.take(i as int).map_values(
                |e: (LineKind, Seq<StyleSpan>, int)| e.0,
            ));
        }
        assert(self@.lines.take(i as int) =~= self@.lines);
        r
    }

    /// The index of the line holding byte `byte_offset`: the last line that
    /// starts at or before it, or 0.
    pub fn line_for_offset(&self, byte_offset: usize) -> (r: usize)
        ensures
            r == line_at(self@.lines, byte_offset as int, self@.lines.len() as int),
            self@.lines.len() > 0 ==> r < self@.lines.len(),
            self@.lines.len() == 0 ==> r == 0,
    {
        let mut n = self.lines.len();
        while n > 0
            invariant
                n <= self@.lines.len(),
                line_at(self@.lines, byte_offset as int, n as int) == line_at(
                    self@.lines,
                    byte_offset as int,
                    self@.lines.len() as int,
                ),
                forall|m: int|
                    n < m <= self@.lines.len() ==> line_at(self@.lines, byte_offset as int, m)
                        == line_at(self@.lines, byte_offset as int, n as int),
            decreases n,
        {
            if self.lines[n - 1].1 <= byte_offset {
                return n - 1;
            }
            n = n - 1;
        }
        0
    }

    /// The next line that is not hidden, after `from_line` when `forward`,
    /// before it otherwise.
    pub fn next_visible_line(&self, from_line: usize, forward: bool) -> (r: Option<usize>)
        requires
            forward ==> from_line < usize::MAX,
            !forward ==> from_line <= self@.lines.len(),
        ensures
            match r {
                Some(i) => next_visible(self@.hidden, from_line as int, forward) == Some(i as int),
                None => next_visible(self@.hidden, from_line as int, forward) is None,
            },
    {
        proof {
            use_type_invariant(self);
        }
        let n = self.hidden.len();
        if forward {
            let mut i = from_line + 1;
            while i < n
                invariant
                    forward,
                    n == self@.hidden.len(),
                    from_line + 1 <= i,
                    visible_from(self@.hidden, i as int) == visible_from(
                        self@.hidden,
                        from_line + 1,
                    ),
                decreases n - i,
            {
                if !self.hidden[i] {
                    assert(visible_from(self@.hidden, i as int) == Some(i as int));
                    return Some(i);
                }
                i = i + 1;
            }
            None
        } else {
            let mut i = from_line;
            while i > 0
                invariant
                    !forward,
                    n == self@.hidden.len(),
                    i <= from_line <= n,
                    visible_before(self@.hidden, i as int) == visible_before(
                        self@.hidden,
                        from_line as int,
                    ),
                decreases i,
            {
                if !self.hidden[i - 1] {
                    assert(visible_before(self@.hidden, i as int) == Some(i - 1));
                    return Some(i - 1);
                }
                i = i - 1;
            }
            None
        }
    }

    /// Whether the line holding byte `byte_offset` is hidden.
    pub fn is_offset_hidden(&self, byte_offset: usize) -> (r: bool)
        ensures
            r == hidden_at(
                self@.hidden,
                line_at(self@.lines, byte_offset as int, self@.lines.len() as int),
            ),
    {
        let line = self.line_for_offset(byte_offset);
        self.is_line_hidden(line)
    }
}

} // verus!
