//! Markdown line analysis: what kind of line each is (heading, code block,
//! thematic break, plain text) and the inline style spans of its text.
use std::ops::Range;

use vstd::prelude::*;

use crate::chars::{char_table, lemma_char_start_boundary, lemma_line_tail, line_tail};
use crate::code_edit::fence::{copy_range, lemma_skip_char, skip_char, trim, trimmed};
use crate::text::{boundary, byte_len, chars_of, string_of, utf8_bytes};

verus! {

broadcast use vstd::string::group_string_axioms;

/// Inline styles.
#[derive(Clone, Copy, Debug, PartialEq, Eq, Structural)]
pub enum StyleKind {
    Normal,
    Bold,
    Italic,
    BoldItalic,
    Code,
    Strikethrough,
    HeadingSyntax,
    CodeFence,
    HrSyntax,
    /// A `[[wikilink]]`, its brackets included.
    Wikilink,
}

/// A styled byte range of a line.
#[derive(Debug, PartialEq, Eq)]
pub struct StyleSpan {
    pub range: Range<usize>,
    pub kind: StyleKind,
}

/// Kinds of lines.
#[derive(Clone, Copy, Debug, PartialEq, Eq, Structural)]
pub enum LineKind {
    Normal,
    Heading(u8),
    CodeBlock,
    ThematicBreak,
}

/// A line's kind and its style spans.
#[derive(Debug)]
pub struct LineInfo {
    pub kind: LineKind,
    pub spans: Vec<StyleSpan>,
}

/// A span of bytes `start..end` in a style.
pub open spec fn span(start: int, end: int, kind: StyleKind) -> StyleSpan {
    StyleSpan { range: Range { start: start as usize, end: end as usize }, kind }
}

// ─── Inline styles ─────────────────────────────────────────────────────────

/// The bytes `d` occur in `b` at `q`.
pub open spec fn bytes_at(b: Seq<u8>, q: int, d: Seq<u8>) -> bool {
    0 <= q && q + d.len() <= b.len() && b.subrange(q, q + d.len()) == d
}

/// The first position at or after `start` where `d` occurs in `b`, or -1.
pub open spec fn closing(b: Seq<u8>, start: int, d: Seq<u8>) -> int
    decreases b.len() - start,
{
    if start < 0 || start >= b.len() {
        -1
    } else if bytes_at(b, start, d) {
        start
    } else {
        closing(b, start + 1, d)
    }
}

/// The backtick.
pub open spec fn tick() -> u8 {
    96u8
}

/// The star.
pub open spec fn star() -> u8 {
    42u8
}

/// The tilde.
pub open spec fn tilde() -> u8 {
    126u8
}

/// The styled span that starts at byte `i` of `b`, if a delimiter opens
/// there and closes later: `` `code` ``, `***bold italic***`, `**bold**`,
/// `*italic*`, `~~strikethrough~~`, tried in that order. The second part is
/// where the span ends.
pub open spec fn span_at(b: Seq<u8>, i: int) -> Option<(StyleKind, int)> {
    let len = b.len();
    let code = if b[i] == tick() {
        closing(b, i + 1, seq![tick()])
    } else {
        -1
    };
    let bold_italic = if b[i] == star() && i + 2 < len && b[i + 1] == star() && b[i + 2] == star() {
        closing(b, i + 3, seq![star(), star(), star()])
    } else {
        -1
    };
    let bold = if b[i] == star() && i + 1 < len && b[i + 1] == star() {
        closing(b, i + 2, seq![star(), star()])
    } else {
        -1
    };
    let italic = if b[i] == star() {
        closing(b, i + 1, seq![star()])
    } else {
        -1
    };
    let strike = if b[i] == tilde() && i + 1 < len && b[i + 1] == tilde() {
        closing(b, i + 2, seq![tilde(), tilde()])
    } else {
        -1
    };
    if code >= 0 {
        Some((StyleKind::Code, code + 1))
    } else if bold_italic >= 0 {
        Some((StyleKind::BoldItalic, bold_italic + 3))
    } else if bold >= 0 {
        Some((StyleKind::Bold, bold + 2))
    } else if italic >= 0 {
        Some((StyleKind::Italic, italic + 1))
    } else if strike >= 0 {
        Some((StyleKind::Strikethrough, strike + 2))
    } else {
        None
    }
}

/// A plain span from `start` to `end`, when it is not empty.
pub open spec fn normal_span(start: int, end: int) -> Seq<StyleSpan> {
    if end > start {
        seq![span(start, end, StyleKind::Normal)]
    } else {
        Seq::<StyleSpan>::empty()
    }
}

pub proof fn lemma_closing(b: Seq<u8>, start: int, d: Seq<u8>)
    ensures
        closing(b, start, d) == -1 || (start <= closing(b, start, d) < b.len() && bytes_at(
            b,
            closing(b, start, d),
            d,
        )),
    decreases b.len() - start,
{
    if start >= 0 && start < b.len() && !bytes_at(b, start, d) {
        lemma_closing(b, start + 1, d);
    }
}

pub proof fn lemma_span_at(b: Seq<u8>, i: int)
    requires
        0 <= i < b.len(),
    ensures
        span_at(b, i) matches Some((k, e)) ==> i < e <= b.len(),
{
    lemma_closing(b, i + 1, seq![tick()]);
    lemma_closing(b, i + 3, seq![star(), star(), star()]);
    lemma_closing(b, i + 2, seq![star(), star()]);
    lemma_closing(b, i + 1, seq![star()]);
    lemma_closing(b, i + 2, seq![tilde(), tilde()]);
}

/// The spans of `b` from byte `i` on, where the plain text pending since
/// `start` has not been emitted yet.
pub open spec fn spans_from(b: Seq<u8>, i: int, start: int) -> Seq<StyleSpan>
    decreases b.len() - i,
{
    if i < 0 || i >= b.len() {
        normal_span(start, b.len() as int)
    } else {
        match span_at(b, i) {
            Some((k, e)) => {
                proof {
                    lemma_span_at(b, i);
                }
                normal_span(start, i) + seq![span(i, e, k)] + spans_from(b, e, e)
            },
            None => spans_from(b, i + 1, start),
        }
    }
}

/// The inline style spans of a line's bytes; an empty line is one empty
/// plain span.
pub open spec fn inline_spec(b: Seq<u8>) -> Seq<StyleSpan> {
    if b.len() == 0 {
        seq![span(0, 0, StyleKind::Normal)]
    } else {
        let r = spans_from(b, 0, 0);
        if r.len() == 0 {
            seq![span(0, b.len() as int, StyleKind::Normal)]
        } else {
            r
        }
    }
}

/// Whether `d` occurs in `b` at `q`.
fn bytes_at_exec(b: &Vec<u8>, q: usize, d: &[u8]) -> (r: bool)
    ensures
        r == bytes_at(b@, q as int, d@),
{
    let n = d.len();
    let len = b.len();
    if q > len || len - q < n {
        return false;
    }
    let mut j: usize = 0;
    while j < n
        invariant
            n == d@.len(),
            len == b@.len(),
            q + n <= len,
            j <= n,
            forall|k: int| 0 <= k < j ==> b@[q + k] == d@[k],
        decreases n - j,
    {
        if b[q + j] != d[j] {
            assert(b@.subrange(q as int, q + n)[j as int] == b@[q + j]);
            return false;
        }
        j = j + 1;
    }
    assert(b@.subrange(q as int, q + n) =~= d@);
    true
}

/// Where `d` next occurs in `b` at or after `start`.
fn find_closing(b: &Vec<u8>, start: usize, d: &[u8]) -> (r: Option<usize>)
    ensures
        match r {
            Some(q) => closing(b@, start as int, d@) == q as int && start <= q && q + d@.len()
                <= b@.len(),
            None => closing(b@, start as int, d@) == -1,
        },
{
    proof {
        lemma_closing(b@, start as int, d@);
    }
    let len = b.len();
    let mut q = start;
    while q < len
        invariant
            len == b@.len(),
            start <= q,
            closing(b@, q as int, d@) == closing(b@, start as int, d@),
        decreases len - q,
    {
        if bytes_at_exec(b, q, d) {
            return Some(q);
        }
        q = q + 1;
    }
    None
}

/// The styled span that starts at byte `i`, if any.
fn span_at_exec(b: &Vec<u8>, i: usize) -> (r: Option<(StyleKind, usize)>)
    requires
        i < b@.len(),
    ensures
        match r {
            Some((k, e)) => span_at(b@, i as int) == Some((k, e as int)),
            None => span_at(b@, i as int) is None,
        },
{
    let len = b.len();
    let one_tick: [u8; 1] = [96u8];
    let three_stars: [u8; 3] = [42u8, 42u8, 42u8];
    let two_stars: [u8; 2] = [42u8, 42u8];
    let one_star: [u8; 1] = [42u8];
    let two_tildes: [u8; 2] = [126u8, 126u8];
    proof {
        assert(one_tick@ =~= seq![tick()]);
        assert(three_stars@ =~= seq![star(), star(), star()]);
        assert(two_stars@ =~= seq![star(), star()]);
        assert(one_star@ =~= seq![star()]);
        assert(two_tildes@ =~= seq![tilde(), tilde()]);
    }
    let x = b[i];
    if x == 96 {
        if let Some(e) = find_closing(b, i + 1, &one_tick) {
            return Some((StyleKind::Code, e + 1));
        }
    }
    if x == 42 && len - i > 2 && b[i + 1] == 42 && b[i + 2] == 42 {
        if let Some(e) = find_closing(b, i + 3, &three_stars) {
            return Some((StyleKind::BoldItalic, e + 3));
        }
    }
    if x == 42 && len - i > 1 && b[i + 1] == 42 {
        if let Some(e) = find_closing(b, i + 2, &two_stars) {
            return Some((StyleKind::Bold, e + 2));
        }
    }
    if x == 42 {
        if let Some(e) = find_closing(b, i + 1, &one_star) {
            return Some((StyleKind::Italic, e + 1));
        }
    }
    if x == 126 && len - i > 1 && b[i + 1] == 126 {
        if let Some(e) = find_closing(b, i + 2, &two_tildes) {
            return Some((StyleKind::Strikethrough, e + 2));
        }
    }
    None
}

/// Appends a plain span from `start` to `end` when it is not empty.
fn push_normal(spans: &mut Vec<StyleSpan>, start: usize, end: usize)
    ensures
        final(spans)@ == old(spans)@ + normal_span(start as int, end as int),
{
    if end > start {
        spans.push(StyleSpan { range: Range { start, end }, kind: StyleKind::Normal });
        assert(final(spans)@ =~= old(spans)@ + normal_span(start as int, end as int));
    } else {
        assert(spans@ =~= old(spans)@ + normal_span(start as int, end as int));
    }
}

/// The inline style spans of a line's bytes.
fn spans_of(b: &Vec<u8>) -> (r: Vec<StyleSpan>)
    ensures
        r@ == inline_spec(b@),
{
    let len = b.len();
    if len == 0 {
        let r = vec![StyleSpan { range: Range { start: 0, end: 0 }, kind: StyleKind::Normal }];
        assert(r@ =~= inline_spec(b@));
        return r;
    }
    let mut spans: Vec<StyleSpan> = Vec::new();
    let mut i: usize = 0;
    let mut start: usize = 0;
    while i < len
        invariant
            len == b@.len(),
            start <= i <= len,
            spans@ + spans_from(b@, i as int, start as int) == spans_from(b@, 0, 0),
        decreases len - i,
    {
        match span_at_exec(b, i) {
            Some((k, e)) => {
                proof {
                    lemma_span_at(b@, i as int);
                }
                let ghost before = spans@;
                push_normal(&mut spans, start, i);
                spans.push(StyleSpan { range: Range { start: i, end: e }, kind: k });
                assert(spans@ + spans_from(b@, e as int, e as int) =~= before + spans_from(
                    b@,
                    i as int,
                    start as int,
                ));
                i = e;
                start = e;
            },
            None => {
                i = i + 1;
            },
        }
    }
    let ghost before = spans@;
    push_normal(&mut spans, start, len);
    assert(spans@ =~= spans_from(b@, 0, 0));
    if spans.len() == 0 {
        spans.push(StyleSpan { range: Range { start: 0, end: len }, kind: StyleKind::Normal });
        assert(spans@ =~= inline_spec(b@));
    }
    spans
}

/// The inline style spans of a line.
pub fn parse_inline_styles(text: &str) -> (r: Vec<StyleSpan>)
    ensures
        r@ == inline_spec(utf8_bytes(text@)),
{
    let bytes = vstd::slice::slice_to_vec(text.as_bytes());
    spans_of(&bytes)
}

// ─── Span bounds ───────────────────────────────────────────────────────────

/// Every span of `s` runs forward and ends by byte `n`.
pub open spec fn spans_within(s: Seq<StyleSpan>, n: int) -> bool {
    forall|k: int|
        0 <= k < s.len() ==> (#[trigger] s[k]).range.start <= s[k].range.end && s[k].range.end <= n
}

proof fn lemma_spans_from_within(b: Seq<u8>, i: int, start: int)
    requires
        0 <= start <= i <= b.len() <= usize::MAX,
    ensures
        spans_within(spans_from(b, i, start), b.len() as int),
    decreases b.len() - i,
{
    if i >= b.len() {
    } else {
        match span_at(b, i) {
            Some((k, e)) => {
                lemma_span_at(b, i);
                lemma_spans_from_within(b, e, e);
                let head = normal_span(start, i) + seq![span(i, e, k)];
                assert(spans_within(head, b.len() as int));
                let rest = spans_from(b, e, e);
                assert forall|m: int| 0 <= m < (head + rest).len() implies (#[trigger] (head
                    + rest)[m]).range.start <= (head + rest)[m].range.end && (head
                    + rest)[m].range.end <= b.len() by {
                    if m >= head.len() {
                        assert((head + rest)[m] == rest[m - head.len()]);
                    }
                }
            },
            None => {
                lemma_spans_from_within(b, i + 1, start);
            },
        }
    }
}

/// The inline spans of `b` stay within its bytes.
pub proof fn lemma_inline_within(b: Seq<u8>)
    requires
        b.len() <= usize::MAX,
    ensures
        spans_within(inline_spec(b), b.len() as int),
{
    lemma_spans_from_within(b, 0, 0);
}

// ─── Headings ──────────────────────────────────────────────────────────────

/// The space.
pub open spec fn space() -> u8 {
    32u8
}

/// The spans moved `d` bytes to the right.
pub open spec fn shifted(s: Seq<StyleSpan>, d: int) -> Seq<StyleSpan> {
    s.map_values(|x: StyleSpan| span(x.range.start + d, x.range.end + d, x.kind))
}

/// Where the syntax of a heading line ends: just past its first space, or
/// at its end.
pub open spec fn heading_prefix_end(b: Seq<u8>) -> int {
    let c = closing(b, 0, seq![space()]);
    if c >= 0 {
        c + 1
    } else {
        b.len() as int
    }
}

/// The spans of a heading line: its syntax, then the inline styles of the
/// rest.
pub open spec fn heading_spans(b: Seq<u8>) -> Seq<StyleSpan> {
    let pe = heading_prefix_end(b);
    seq![span(0, pe, StyleKind::HeadingSyntax)] + if pe < b.len() {
        shifted(inline_spec(b.skip(pe)), pe)
    } else {
        Seq::<StyleSpan>::empty()
    }
}

/// The spans of a heading line of bytes `b`.
fn heading_spans_of(b: &Vec<u8>) -> (r: Vec<StyleSpan>)
    ensures
        r@ == heading_spans(b@),
{
    let len = b.len();
    let space_only: [u8; 1] = [32u8];
    proof {
        assert(space_only@ =~= seq![space()]);
    }
    let pe = match find_closing(b, 0, &space_only) {
        Some(c) => c + 1,
        None => len,
    };
    let mut spans: Vec<StyleSpan> = Vec::new();
    spans.push(StyleSpan { range: Range { start: 0, end: pe }, kind: StyleKind::HeadingSyntax });
    if pe < len {
        let tail = vstd::slice::slice_to_vec(vstd::slice::slice_subrange(b.as_slice(), pe, len));
        assert(tail@ =~= b@.skip(pe as int));
        let content = spans_of(&tail);
        proof {
            lemma_inline_within(tail@);
        }
        let ghost head = spans@;
        let mut k: usize = 0;
        while k < content.len()
            invariant
                pe + tail@.len() == len == b@.len(),
                content@ == inline_spec(tail@),
                spans_within(content@, tail@.len() as int),
                k <= content@.len(),
                spans@ == head + shifted(content@, pe as int).take(k as int),
            decreases content@.len() - k,
        {
            let s = &content[k];
            assert(content@[k as int] == *s);
            spans.push(
                StyleSpan {
                    range: Range { start: s.range.start + pe, end: s.range.end + pe },
                    kind: s.kind,
                },
            );
            k = k + 1;
            assert(shifted(content@, pe as int).take(k as int) =~= shifted(content@, pe as int).take(
                k - 1,
            ).push(shifted(content@, pe as int)[k - 1]));
        }
        assert(shifted(content@, pe as int).take(k as int) =~= shifted(content@, pe as int));
    } else {
        assert(spans@ =~= heading_spans(b@));
    }
    spans
}

/// The line info of a heading of the given level.
pub fn heading_line_info(line: &str, level: u8) -> (r: LineInfo)
    ensures
        r.kind == LineKind::Heading(level),
        r.spans@ == heading_spans(utf8_bytes(line@)),
{
    let bytes = vstd::slice::slice_to_vec(line.as_bytes());
    LineInfo { kind: LineKind::Heading(level), spans: heading_spans_of(&bytes) }
}

// ─── Lines ─────────────────────────────────────────────────────────────────

/// A trimmed line that opens or closes a code block.
pub open spec fn opens_fence(t: Seq<char>) -> bool {
    t.len() >= 3 && t[0] == '`' && t[1] == '`' && t[2] == '`'
}

/// A trimmed line that is a thematic break.
pub open spec fn is_thematic_break(t: Seq<char>) -> bool {
    t =~= seq!['-', '-', '-'] || t =~= seq!['*', '*', '*'] || t =~= seq!['_', '_', '_']
}

/// The level of a trimmed heading line: its leading `#`s, one to six of
/// them, followed by a space or by nothing; 0 for other lines.
pub open spec fn heading_level(t: Seq<char>) -> int {
    let n = skip_char(t, 0, '#');
    if 1 <= n <= 6 && (n == t.len() || t[n] == ' ') {
        n
    } else {
        0
    }
}

/// One span over the whole line (at least one byte wide).
pub open spec fn whole_line(l: Seq<char>, kind: StyleKind) -> Seq<StyleSpan> {
    let n = byte_len(l) as int;
    seq![span(0, if n > 1 { n } else { 1 }, kind)]
}

/// The kind of line `l`, given whether a code block is open before it.
pub open spec fn line_kind(l: Seq<char>, in_code: bool) -> LineKind {
    let t = trim(l);
    if opens_fence(t) || in_code {
        LineKind::CodeBlock
    } else if is_thematic_break(t) {
        LineKind::ThematicBreak
    } else if heading_level(t) > 0 {
        LineKind::Heading(heading_level(t) as u8)
    } else {
        LineKind::Normal
    }
}

/// The style spans of line `l`, given whether a code block is open before it.
pub open spec fn line_spans(l: Seq<char>, in_code: bool) -> Seq<StyleSpan> {
    let t = trim(l);
    if opens_fence(t) {
        whole_line(l, StyleKind::CodeFence)
    } else if in_code {
        whole_line(l, StyleKind::Code)
    } else if is_thematic_break(t) {
        whole_line(l, StyleKind::HrSyntax)
    } else if heading_level(t) > 0 {
        heading_spans(utf8_bytes(l))
    } else {
        inline_spec(utf8_bytes(l))
    }
}

/// Whether a code block is open after line `l`.
pub open spec fn in_code_after(l: Seq<char>, in_code: bool) -> bool {
    if opens_fence(trim(l)) {
        !in_code
    } else {
        in_code
    }
}

/// The number of leading `#` characters.
fn leading_hashes(t: &Vec<char>) -> (r: usize)
    ensures
        r == skip_char(t@, 0, '#'),
        r <= t@.len(),
{
    proof {
        lemma_skip_char(t@, 0, '#');
    }
    let mut n: usize = 0;
    while n < t.len() && t[n] == '#'
        invariant
            n <= t@.len(),
            skip_char(t@, n as int, '#') == skip_char(t@, 0, '#'),
        decreases t@.len() - n,
    {
        n = n + 1;
    }
    n
}

/// One span of the given kind over the whole line.
fn whole_line_span(line: &str, kind: StyleKind) -> (r: Vec<StyleSpan>)
    ensures
        r@ == whole_line(line@, kind),
{
    let n = crate::text::str_byte_len(line);
    let end = if n > 1 {
        n
    } else {
        1
    };
    let r = vec![StyleSpan { range: Range { start: 0, end }, kind }];
    assert(r@ =~= whole_line(line@, kind));
    r
}

/// The kind and the style spans of a line. `in_code_block` says whether a
/// fenced code block is open before the line, and is updated for the next
/// one: a line whose trimmed text starts with three backticks toggles it.
pub fn analyze_line(line: &str, in_code_block: &mut bool) -> (r: LineInfo)
    ensures
        r.kind == line_kind(line@, *old(in_code_block)),
        r.spans@ == line_spans(line@, *old(in_code_block)),
        *final(in_code_block) == in_code_after(line@, *old(in_code_block)),
{
    let chars = chars_of(line);
    let t = trimmed(&chars);
    if t.len() >= 3 && t[0] == '`' && t[1] == '`' && t[2] == '`' {
        *in_code_block = !*in_code_block;
        return LineInfo { kind: LineKind::CodeBlock, spans: whole_line_span(line, StyleKind::CodeFence) };
    }
    if *in_code_block {
        return LineInfo { kind: LineKind::CodeBlock, spans: whole_line_span(line, StyleKind::Code) };
    }
    let three = t.len() == 3;
    if three && ((t[0] == '-' && t[1] == '-' && t[2] == '-') || (t[0] == '*' && t[1] == '*' && t[2]
        == '*') || (t[0] == '_' && t[1] == '_' && t[2] == '_')) {
        return LineInfo {
            kind: LineKind::ThematicBreak,
            spans: whole_line_span(line, StyleKind::HrSyntax),
        };
    }
    proof {
        if is_thematic_break(t@) {
            assert(t@.len() == 3);
            assert(t@[0] == t@[1]);
        }
    }
    let n = leading_hashes(&t);
    if 1 <= n && n <= 6 && (n == t.len() || t[n] == ' ') {
        return heading_line_info(line, n as u8);
    }
    LineInfo { kind: LineKind::Normal, spans: parse_inline_styles(line) }
}

// ─── Documents ─────────────────────────────────────────────────────────────

/// A line's kind, its style spans and the byte offset where it starts.
pub open spec fn entry_view(e: (LineInfo, usize)) -> (LineKind, Seq<StyleSpan>, int) {
    (e.0.kind, e.0.spans@, e.1 as int)
}

/// The lines of `s` from the one starting at character `k` on, each
/// analysed with whether a code block is open before it; lines are split
/// at newlines, and an empty text is one empty line.
pub open spec fn lines_from(s: Seq<char>, k: int, in_code: bool) -> Seq<
    (LineKind, Seq<StyleSpan>, int),
>
    decreases s.len() - k,
{
    if k < 0 || k > s.len() {
        Seq::empty()
    } else {
        let e = line_tail(s, k);
        let l = s.subrange(k, e);
        let entry = (line_kind(l, in_code), line_spans(l, in_code), byte_len(s.take(k)) as int);
        if e < s.len() {
            proof {
                lemma_line_tail(s, k);
            }
            seq![entry] + lines_from(s, e + 1, in_code_after(l, in_code))
        } else {
            seq![entry]
        }
    }
}

/// Every line starts at a character boundary within the text.
pub proof fn lemma_lines_from_offsets(s: Seq<char>, k: int, in_code: bool)
    requires
        0 <= k <= s.len(),
    ensures
        forall|i: int|
            0 <= i < lines_from(s, k, in_code).len() ==> 0 <= #[trigger] lines_from(s, k, in_code)[i].2
                <= utf8_bytes(s).len() && boundary(utf8_bytes(s), lines_from(s, k, in_code)[i].2),
    decreases s.len() - k,
{
    lemma_char_start_boundary(s, k);
    lemma_line_tail(s, k);
    let e = line_tail(s, k);
    let l = s.subrange(k, e);
    let head = seq![(line_kind(l, in_code), line_spans(l, in_code), byte_len(s.take(k)) as int)];
    if e < s.len() {
        let rest = lines_from(s, e + 1, in_code_after(l, in_code));
        lemma_lines_from_offsets(s, e + 1, in_code_after(l, in_code));
        assert(lines_from(s, k, in_code) == head + rest);
        assert forall|i: int| 0 <= i < (head + rest).len() implies 0 <= #[trigger] (head + rest)[i].2
            <= utf8_bytes(s).len() && boundary(utf8_bytes(s), (head + rest)[i].2) by {
            if i >= 1 {
                assert((head + rest)[i] == rest[i - 1]);
            }
        }
    }
}

/// Lines start in increasing order, none before character `k`.
pub proof fn lemma_lines_from_increasing(s: Seq<char>, k: int, in_code: bool)
    requires
        0 <= k <= s.len(),
    ensures
        forall|i: int|
            0 <= i < lines_from(s, k, in_code).len() ==> byte_len(s.take(k)) <= #[trigger] lines_from(
                s,
                k,
                in_code,
            )[i].2,
        forall|i: int, j: int|
            0 <= i < j < lines_from(s, k, in_code).len() ==> #[trigger] lines_from(s, k, in_code)[i].2
                < #[trigger] lines_from(s, k, in_code)[j].2,
    decreases s.len() - k,
{
    lemma_line_tail(s, k);
    let e = line_tail(s, k);
    let l = s.subrange(k, e);
    let head = seq![(line_kind(l, in_code), line_spans(l, in_code), byte_len(s.take(k)) as int)];
    if e < s.len() {
        let rest = lines_from(s, e + 1, in_code_after(l, in_code));
        lemma_lines_from_increasing(s, e + 1, in_code_after(l, in_code));
        crate::chars::lemma_byte_len_take_strict(s, k, e + 1);
        assert(lines_from(s, k, in_code) == head + rest);
        assert forall|i: int| 0 <= i < (head + rest).len() implies byte_len(s.take(k)) <= #[trigger] (
        head + rest)[i].2 by {
            if i >= 1 {
                assert((head + rest)[i] == rest[i - 1]);
            }
        }
        assert forall|i: int, j: int| 0 <= i < j < (head + rest).len() implies #[trigger] (head
            + rest)[i].2 < #[trigger] (head + rest)[j].2 by {
            assert((head + rest)[j] == rest[j - 1]);
            if i >= 1 {
                assert((head + rest)[i] == rest[i - 1]);
            }
        }
    }
}

/// Every line of a document with its kind, its style spans and the byte
/// offset where it starts; fenced code blocks carry over from line to line.
pub fn document_lines(content: &str) -> (r: Vec<(LineInfo, usize)>)
    ensures
        r@.map_values(|e: (LineInfo, usize)| entry_view(e)) == lines_from(content@, 0, false),
{
    let table = char_table(content);
    let n = table.chars.len();
    let ghost s = content@;
    let mut out: Vec<(LineInfo, usize)> = Vec::new();
    let mut in_code = false;
    let mut k: usize = 0;
    let mut done = false;
    while !done
        invariant
            table.describes(s),
            n == s.len(),
            k <= n,
            !done ==> out@.map_values(|e: (LineInfo, usize)| entry_view(e)) + lines_from(
                s,
                k as int,
                in_code,
            ) == lines_from(s, 0, false),
            done ==> out@.map_values(|e: (LineInfo, usize)| entry_view(e)) == lines_from(s, 0, false),
        decreases n + 1 - k + if done {
            0int
        } else {
            1int
        },
    {
        let e = table.line_tail_of(k);
        let line_chars = copy_range(&table.chars, k, e);
        let line = string_of(&line_chars);
        let ghost before = in_code;
        let info = analyze_line(line.as_str(), &mut in_code);
        let offset = table.starts[k];
        let ghost old_out = out@;
        out.push((info, offset));
        proof {
            lemma_line_tail(s, k as int);
            assert(out@.map_values(|e: (LineInfo, usize)| entry_view(e)) =~= old_out.map_values(
                |e: (LineInfo, usize)| entry_view(e),
            ).push(entry_view((info, offset))));
        }
        if e < n {
            k = e + 1;
        } else {
            done = true;
        }
    }
    out
}

} // verus!
