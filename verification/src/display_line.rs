//! How a source line is shown: wikilinks rendered as their titles (unless
//! the cursor is inside them), with byte maps between source and display.
use std::ops::Range;

use vstd::prelude::*;

use crate::code_edit::fence::{copy_range, trim, trimmed};
use crate::content_search::{find_chars, first_match_from};
use crate::bytes::{cont_byte, line_end, line_end_of};
use crate::display_map::{fresh_view, hidden_at, line_at, DisplayMap, DisplayView};
use crate::line_style::{lemma_lines_from_offsets, lines_from, LineKind, StyleKind, StyleSpan};
use crate::text::{
    boundary, byte_len, chars_of, lowercase, slice_text, str_eq, str_len, string_of, text_between, to_lowercase,
    to_owned, utf8_bytes,
};

verus! {

broadcast use vstd::string::group_string_axioms;

/// The known note titles, each under its lowercase key, as plain values.
pub open spec fn titles_view(ts: Seq<(String, String)>) -> Seq<(Seq<char>, Seq<char>)> {
    ts.map_values(|t: (String, String)| (t.0@, t.1@))
}

/// From entry `i` on, the title stored under `key`.
pub open spec fn title_lookup(ts: Seq<(Seq<char>, Seq<char>)>, key: Seq<char>, i: int) -> Option<Seq<char>>
    decreases ts.len() - i,
{
    if i < 0 || i >= ts.len() {
        None
    } else if ts[i].0 == key {
        Some(ts[i].1)
    } else {
        title_lookup(ts, key, i + 1)
    }
}

/// The title stored under `key`.
fn find_title(titles: &[(String, String)], key: &str) -> (r: Option<String>)
    ensures
        match r {
            Some(t) => title_lookup(titles_view(titles@), key@, 0) == Some(t@),
            None => title_lookup(titles_view(titles@), key@, 0) is None,
        },
{
    let ghost tv = titles_view(titles@);
    let mut i: usize = 0;
    while i < titles.len()
        invariant
            i <= titles@.len(),
            tv == titles_view(titles@),
            title_lookup(tv, key@, i as int) == title_lookup(tv, key@, 0),
        decreases titles@.len() - i,
    {
        assert(tv[i as int] == (titles@[i as int].0@, titles@[i as int].1@));
        if str_eq(titles[i].0.as_str(), key) {
            return Some(to_owned(titles[i].1.as_str()));
        }
        i = i + 1;
    }
    None
}

/// `raw` is `[[...]]`.
pub open spec fn is_bracketed(raw: Seq<char>) -> bool {
    &&& raw.len() >= 4
    &&& raw[0] == '[' && raw[1] == '['
    &&& raw[raw.len() - 2] == ']' && raw[raw.len() - 1] == ']'
}

/// What a wikilink shows for the target `t` (trimmed): the title of the
/// note it names, else the target itself.
pub open spec fn shown_target(t: Seq<char>, ts: Seq<(Seq<char>, Seq<char>)>) -> Seq<char> {
    match title_lookup(ts, lowercase(t), 0) {
        Some(title) => title,
        None => t,
    }
}

/// The label of the wikilink `raw` (`[[target]]` or `[[target|alias]]`):
/// its alias when one is given, else the title of the target note, else
/// the target; none when `raw` is not bracketed.
pub open spec fn wikilink_label_spec(raw: Seq<char>, ts: Seq<(Seq<char>, Seq<char>)>) -> Option<Seq<char>> {
    if !is_bracketed(raw) {
        None
    } else {
        let inner = raw.subrange(2, raw.len() - 2);
        match first_match_from(inner, seq!['|'], 0) {
            Some(i) => {
                let alias = trim(inner.skip(i + 1));
                if alias.len() > 0 {
                    Some(alias)
                } else {
                    Some(shown_target(trim(inner.take(i)), ts))
                }
            },
            None => Some(shown_target(trim(inner), ts)),
        }
    }
}

/// What a wikilink shows for its trimmed target.
fn shown_target_of(t: &Vec<char>, titles: &[(String, String)]) -> (r: String)
    ensures
        r@ == shown_target(t@, titles_view(titles@)),
{
    let text = string_of(t);
    let key = to_lowercase(text.as_str());
    match find_title(titles, key.as_str()) {
        Some(title) => title,
        None => text,
    }
}

/// The label of the wikilink `raw`, given the titles of the notes by
/// their lowercase keys.
pub fn wikilink_label(raw: &str, titles: &[(String, String)]) -> (r: Option<String>)
    ensures
        match r {
            Some(l) => wikilink_label_spec(raw@, titles_view(titles@)) == Some(l@),
            None => wikilink_label_spec(raw@, titles_view(titles@)) is None,
        },
{
    let cs = chars_of(raw);
    let n = cs.len();
    if !(n >= 4 && cs[0] == '[' && cs[1] == '[' && cs[n - 2] == ']' && cs[n - 1] == ']') {
        return None;
    }
    let inner = copy_range(&cs, 2, n - 2);
    let bar: Vec<char> = vec!['|'];
    assert(bar@ =~= seq!['|']);
    match find_chars(&inner, &bar) {
        Some(i) => {
            let alias = trimmed(&copy_range(&inner, i + 1, inner.len()));
            assert(inner@.subrange(i + 1, inner@.len() as int) =~= inner@.skip(i + 1));
            if alias.len() > 0 {
                Some(string_of(&alias))
            } else {
                let t = trimmed(&copy_range(&inner, 0, i));
                assert(inner@.subrange(0, i as int) =~= inner@.take(i as int));
                Some(shown_target_of(&t, titles))
            }
        },
        None => {
            let t = trimmed(&inner);
            Some(shown_target_of(&t, titles))
        },
    }
}

// ─── Display lines ─────────────────────────────────────────────────────────

/// A source line as shown: its text, its style spans over that text, and
/// for each source byte offset (the end included) the display offset it
/// maps to, and for each display offset the source offset.
#[derive(Debug)]
pub struct DisplayLine {
    pub text: String,
    pub spans: Vec<StyleSpan>,
    pub source_to_display: Vec<usize>,
    pub display_to_source: Vec<usize>,
}

/// What a display line holds.
pub struct DisplayLineView {
    pub text: Seq<char>,
    pub spans: Seq<StyleSpan>,
    pub source_to_display: Seq<int>,
    pub display_to_source: Seq<int>,
}

/// Offsets as plain integers.
pub open spec fn ints(v: Seq<usize>) -> Seq<int> {
    v.map_values(|x: usize| x as int)
}

impl View for DisplayLine {
    type V = DisplayLineView;

    open spec fn view(&self) -> DisplayLineView {
        DisplayLineView {
            text: self.text@,
            spans: self.spans@,
            source_to_display: ints(self.source_to_display@),
            display_to_source: ints(self.display_to_source@),
        }
    }
}

/// Offset `x` clamped to `len`.
pub open spec fn clamp(x: usize, len: int) -> int {
    if (x as int) < len {
        x as int
    } else {
        len
    }
}

/// `s` cut or padded with `v` to length `n` (`Vec::resize`).
pub open spec fn resized(s: Seq<int>, n: int, v: int) -> Seq<int> {
    if n <= s.len() {
        s.take(n)
    } else {
        s + Seq::new((n - s.len()) as nat, |k: int| v)
    }
}

/// The text shown after a folded heading.
pub open spec fn fold_marker() -> Seq<char> {
    seq!['.', '.', '.']
}

/// Line `i` is a heading whose next line is hidden: its section is folded.
pub open spec fn heading_folded(m: DisplayView, i: int) -> bool {
    0 <= i < m.lines.len() && m.lines[i].0 is Heading && hidden_at(m.hidden, i + 1)
}

/// Marks the display line of line `i`, whose source text is `line_text`,
/// when that line is a folded heading and not empty: `...` follows the
/// shown text, and every display offset from the end of the text on maps
/// to the end of the source line. Returns whether it did; otherwise the
/// display line is left as it was.
pub fn mark_folded_heading(display: &DisplayMap, i: usize, line_text: &str, line: &mut DisplayLine) -> (r:
    bool)
    ensures
        r == (heading_folded(display@, i as int) && line_text@.len() > 0),
        r ==> final(line)@ == (DisplayLineView {
            text: old(line)@.text + fold_marker(),
            display_to_source: resized(
                old(line)@.display_to_source,
                byte_len(final(line)@.text) + 1int,
                byte_len(line_text@) as int,
            ),
            ..old(line)@
        }),
        !r ==> *final(line) == *old(line),
{
    if i >= display.line_count() {
        return false;
    }
    let is_heading = match display.line_info(i).kind {
        LineKind::Heading(_) => true,
        _ => false,
    };
    if !(is_heading && display.is_line_hidden(i + 1) && line_text.unicode_len() > 0) {
        return false;
    }
    proof {
        reveal_strlit("...");
        assert("..."@ =~= fold_marker());
    }
    let ghost text_before = line.text@;
    line.text.append("...");
    assert(line.text@ =~= text_before + fold_marker());
    let n = str_len(line.text.as_str());
    let src = str_len(line_text);
    let ghost before = line.display_to_source@;
    line.display_to_source.resize(n + 1, src);
    proof {
        assert(ints(line.display_to_source@) =~= resized(ints(before), n + 1, src as int));
    }
    true
}

/// Every span, clamped to the line, runs forward between character
/// boundaries of the line.
pub open spec fn spans_sliceable(source: Seq<char>, spans: Seq<StyleSpan>) -> bool {
    let b = utf8_bytes(source);
    forall|i: int|
        0 <= i < spans.len() ==> {
            let ss = clamp(#[trigger] spans[i].range.start, b.len() as int);
            let se = clamp(spans[i].range.end, b.len() as int);
            ss <= se && boundary(b, ss) && boundary(b, se)
        }
}

/// What a span of `source` shows: a wikilink its label, unless the
/// cursor is inside it (or it has none); any other span its own text.
pub open spec fn shown_span(
    source: Seq<char>,
    ts: Seq<(Seq<char>, Seq<char>)>,
    cursor: Option<usize>,
    sp: StyleSpan,
) -> Seq<char> {
    let len = byte_len(source) as int;
    let ss = clamp(sp.range.start, len);
    let se = clamp(sp.range.end, len);
    let raw = text_between(source, ss, se);
    let under_cursor = match cursor {
        Some(o) => ss <= o < se,
        None => false,
    };
    if sp.kind == StyleKind::Wikilink && !under_cursor {
        match wikilink_label_spec(raw, ts) {
            Some(l) => l,
            None => raw,
        }
    } else {
        raw
    }
}

/// The display line after one more span: its shown text appended, a span
/// over it, and the offset maps extended. Source offsets inside a concealed
/// wikilink map to the start of its label and its end to the label's end;
/// display offsets inside the label map to the link's start.
pub open spec fn display_step(
    source: Seq<char>,
    ts: Seq<(Seq<char>, Seq<char>)>,
    cursor: Option<usize>,
    st: DisplayLineView,
    sp: StyleSpan,
) -> DisplayLineView {
    let len = byte_len(source) as int;
    let ss = clamp(sp.range.start, len);
    let se = clamp(sp.range.end, len);
    let raw = text_between(source, ss, se);
    let rep = shown_span(source, ts, cursor, sp);
    let ds = byte_len(st.text) as int;
    let de = ds + byte_len(rep);
    let concealed = sp.kind == StyleKind::Wikilink && rep != raw;
    DisplayLineView {
        text: st.text + rep,
        spans: st.spans.push(StyleSpan { range: Range { start: ds as usize, end: de as usize }, kind: sp.kind }),
        source_to_display: Seq::new(
            st.source_to_display.len(),
            |o: int|
                if concealed {
                    if ss <= o < se {
                        ds
                    } else if o == se {
                        de
                    } else {
                        st.source_to_display[o]
                    }
                } else if ss <= o <= se {
                    ds + o - ss
                } else {
                    st.source_to_display[o]
                },
        ),
        display_to_source: if concealed {
            resized(st.display_to_source, de + 1, ss).update(de, se)
        } else {
            st.display_to_source + Seq::new((de - ds) as nat, |k: int| ss + k + 1)
        },
    }
}

/// The display line of `source` with the spans `spans`, built span by span.
pub open spec fn display_line_spec(
    source: Seq<char>,
    ts: Seq<(Seq<char>, Seq<char>)>,
    cursor: Option<usize>,
    spans: Seq<StyleSpan>,
) -> DisplayLineView
    decreases spans.len(),
{
    if spans.len() == 0 {
        DisplayLineView {
            text: Seq::empty(),
            spans: Seq::empty(),
            source_to_display: Seq::new(byte_len(source) + 1, |o: int| 0),
            display_to_source: seq![0],
        }
    } else {
        display_step(source, ts, cursor, display_line_spec(source, ts, cursor, spans.drop_last()), spans.last())
    }
}

/// The display line of `source`, whose style spans are `spans`, given the
/// note titles by lowercase key and the cursor's offset in the line.
#[verifier::spinoff_prover]
pub fn build_display_line(
    source: &str,
    spans: &[StyleSpan],
    titles: &[(String, String)],
    cursor_offset: Option<usize>,
) -> (r: DisplayLine)
    requires
        spans_sliceable(source@, spans@),
    ensures
        r@ == display_line_spec(source@, titles_view(titles@), cursor_offset, spans@),
{
    let ghost ts = titles_view(titles@);
    let len = str_len(source);
    let mut text = String::new();
    let mut display_spans: Vec<StyleSpan> = Vec::new();
    let mut source_to_display: Vec<usize> = Vec::new();
    let mut z: usize = 0;
    while z <= len
        invariant
            z <= len + 1,
            len <= isize::MAX,
            source_to_display@.len() == z,
            forall|o: int| 0 <= o < z ==> #[trigger] source_to_display@[o] == 0,
        decreases len + 1 - z,
    {
        source_to_display.push(0);
        z = z + 1;
    }
    let mut display_to_source: Vec<usize> = vec![0];
    let mut i: usize = 0;
    proof {
        assert(spans@.take(0) =~= Seq::<StyleSpan>::empty());
        assert(ints(source_to_display@) =~= Seq::new(byte_len(source@) + 1, |o: int| 0));
        assert(ints(display_to_source@) =~= seq![0int]);
    }
    while i < spans.len()
        invariant
            i <= spans@.len(),
            len == byte_len(source@),
            len <= isize::MAX,
            ts == titles_view(titles@),
            spans_sliceable(source@, spans@),
            source_to_display@.len() == len + 1,
            text@ == display_line_spec(source@, ts, cursor_offset, spans@.take(i as int)).text,
            display_spans@ == display_line_spec(source@, ts, cursor_offset, spans@.take(i as int)).spans,
            ints(source_to_display@) == display_line_spec(source@, ts, cursor_offset, spans@.take(i as int)).source_to_display,
            ints(display_to_source@) == display_line_spec(source@, ts, cursor_offset, spans@.take(i as int)).display_to_source,
        decreases spans@.len() - i,
    {
        let ghost st = display_line_spec(source@, ts, cursor_offset, spans@.take(i as int));
        let sp = &spans[i];
        let ss = if sp.range.start < len {
            sp.range.start
        } else {
            len
        };
        let se = if sp.range.end < len {
            sp.range.end
        } else {
            len
        };
        proof {
            assert(spans@.take(i + 1).drop_last() =~= spans@.take(i as int));
            assert(spans@.take(i + 1).last() == spans@[i as int]);
            assert(ss == clamp(spans@[i as int].range.start, len as int));
        }
        let raw = slice_text(source, ss, se);
        let under_cursor = match cursor_offset {
            Some(o) => o >= ss && o < se,
            None => false,
        };
        let is_link = sp.kind == StyleKind::Wikilink;
        let replacement = if is_link && !under_cursor {
            match wikilink_label(raw, titles) {
                Some(l) => l,
                None => to_owned(raw),
            }
        } else {
            to_owned(raw)
        };
        let ds = str_len(text.as_str());
        text.append(replacement.as_str());
        let de = str_len(text.as_str());
        proof {
            crate::chars::lemma_encode_concat(st.text, replacement@);
        }
        let concealed = is_link && !str_eq(replacement.as_str(), raw);
        if concealed {
            let ghost before = source_to_display@;
            let mut o = ss;
            while o < se
                invariant
                    ss <= o <= se <= len,
                    source_to_display@.len() == len + 1,
                    forall|x: int|
                        0 <= x < source_to_display@.len() ==> #[trigger] source_to_display@[x] == if ss <= x < o {
                            ds
                        } else {
                            before[x]
                        },
                decreases se - o,
            {
                source_to_display.set(o, ds);
                o = o + 1;
            }
            source_to_display.set(se, de);
            let ghost d_before = display_to_source@;
            display_to_source.resize(de + 1, ss);
            proof {
                assert(ints(display_to_source@) =~= resized(ints(d_before), de + 1, ss as int));
            }
            display_to_source.set(de, se);
            proof {
                assert(ints(display_to_source@) =~= resized(ints(d_before), de + 1, ss as int).update(de as int, se as int));
            }
        } else {
            proof {
                assert(byte_len(replacement@) == se - ss);
            }
            let ghost before = source_to_display@;
            let mut o = ss;
            while o <= se
                invariant
                    ss <= o <= se + 1,
                    se <= len,
                    len <= isize::MAX,
                    de == ds + (se - ss),
                    source_to_display@.len() == len + 1,
                    forall|x: int|
                        0 <= x < source_to_display@.len() ==> #[trigger] source_to_display@[x] == if ss <= x < o {
                            ds + x - ss
                        } else {
                            before[x] as int
                        },
                decreases se + 1 - o,
            {
                source_to_display.set(o, ds + (o - ss));
                o = o + 1;
            }
            let ghost d_before = display_to_source@;
            let mut k = ds + 1;
            while k <= de
                invariant
                    ds + 1 <= k <= de + 1,
                    de <= isize::MAX,
                    de == ds + (se - ss),
                    display_to_source@ == d_before + Seq::new((k - ds - 1) as nat, |j: int| (ss + j + 1) as usize),
                decreases de + 1 - k,
            {
                display_to_source.push(ss + (k - ds));
                k = k + 1;
                assert(display_to_source@ =~= d_before + Seq::new((k - ds - 1) as nat, |j: int| (ss + j + 1) as usize));
            }
            proof {
                assert(ints(display_to_source@) =~= ints(d_before) + Seq::new((de - ds) as nat, |j: int| ss + j + 1));
            }
        }
        display_spans.push(StyleSpan { range: Range { start: ds, end: de }, kind: sp.kind });
        proof {
            assert(ints(source_to_display@) =~= display_step(source@, ts, cursor_offset, st, spans@[i as int]).source_to_display);
        }
        i = i + 1;
    }
    proof {
        assert(spans@.take(i as int) =~= spans@);
    }
    DisplayLine { text, spans: display_spans, source_to_display, display_to_source }
}

// ─── The wikilink under the cursor ─────────────────────────────────────────

/// The note a wikilink `raw` names: its target (the text before any `|`),
/// trimmed; none when `raw` is not bracketed or names nothing.
pub open spec fn wikilink_target_spec(raw: Seq<char>) -> Option<Seq<char>> {
    if !is_bracketed(raw) {
        None
    } else {
        let inner = raw.subrange(2, raw.len() - 2);
        let t = trim(
            match first_match_from(inner, seq!['|'], 0) {
                Some(i) => inner.take(i),
                None => inner,
            },
        );
        if t.len() > 0 {
            Some(t)
        } else {
            None
        }
    }
}

/// The note the wikilink `raw` names.
pub fn wikilink_target(raw: &str) -> (r: Option<String>)
    ensures
        match r {
            Some(t) => wikilink_target_spec(raw@) == Some(t@),
            None => wikilink_target_spec(raw@) is None,
        },
{
    let cs = chars_of(raw);
    let n = cs.len();
    if !(n >= 4 && cs[0] == '[' && cs[1] == '[' && cs[n - 2] == ']' && cs[n - 1] == ']') {
        return None;
    }
    let inner = copy_range(&cs, 2, n - 2);
    let bar: Vec<char> = vec!['|'];
    assert(bar@ =~= seq!['|']);
    let head = match find_chars(&inner, &bar) {
        Some(i) => {
            assert(inner@.subrange(0, i as int) =~= inner@.take(i as int));
            copy_range(&inner, 0, i)
        },
        None => {
            assert(inner@.subrange(0, inner@.len() as int) =~= inner@);
            copy_range(&inner, 0, inner.len())
        },
    };
    let t = trimmed(&head);
    if t.len() > 0 {
        Some(string_of(&t))
    } else {
        None
    }
}

/// Byte `x` of the line from `lo` to `le` of `b` is a character boundary
/// of the line.
pub open spec fn line_boundary(b: Seq<u8>, lo: int, le: int, x: int) -> bool {
    0 <= x <= le - lo && boundary(b, lo + x)
}

/// From span `i` on, the target of the first wikilink span of the line
/// (from byte `lo` to `le` of `content`) that holds line offset `pos`,
/// whose bytes are a piece of the line and that names a note.
pub open spec fn link_in_spans(
    content: Seq<char>,
    lo: int,
    le: int,
    spans: Seq<StyleSpan>,
    pos: int,
    i: int,
) -> Option<Seq<char>>
    decreases spans.len() - i,
{
    if i < 0 || i >= spans.len() {
        None
    } else {
        let b = utf8_bytes(content);
        let s = spans[i].range.start as int;
        let e = spans[i].range.end as int;
        let found = if spans[i].kind == StyleKind::Wikilink && s <= pos < e && line_boundary(b, lo, le, s)
            && line_boundary(b, lo, le, e) {
            wikilink_target_spec(text_between(content, lo + s, lo + e))
        } else {
            None
        };
        if found is Some {
            found
        } else {
            link_in_spans(content, lo, le, spans, pos, i + 1)
        }
    }
}

/// The note named by the wikilink at byte `offset` of `content`, given the
/// display lines of `content`.
pub open spec fn wikilink_at_spec(content: Seq<char>, lines: Seq<(LineKind, Seq<StyleSpan>, int)>, offset: int) -> Option<
    Seq<char>,
> {
    let li = line_at(lines, offset, lines.len() as int);
    let lo = lines[li].2;
    let le = line_end(utf8_bytes(content), lo);
    link_in_spans(content, lo, le, lines[li].1, offset - lo, 0)
}

proof fn lemma_line_at(lines: Seq<(LineKind, Seq<StyleSpan>, int)>, off: int, n: int)
    requires
        0 < n <= lines.len(),
        lines[0].2 <= off,
    ensures
        0 <= line_at(lines, off, n) < n,
        lines[line_at(lines, off, n)].2 <= off,
    decreases n,
{
    if n > 1 && lines[n - 1].2 > off {
        lemma_line_at(lines, off, n - 1);
    }
}

/// The note named by the wikilink at byte `offset` of `content`, whose
/// display map is up to date.
pub fn wikilink_at_offset(content: &str, display: &DisplayMap, offset: usize) -> (r: Option<String>)
    requires
        display@.lines == fresh_view(content@).lines,
    ensures
        match r {
            Some(t) => wikilink_at_spec(content@, display@.lines, offset as int) == Some(t@),
            None => wikilink_at_spec(content@, display@.lines, offset as int) is None,
        },
{
    let ghost lines = display@.lines;
    proof {
        lemma_lines_from_offsets(content@, 0, false);
        assert(content@.take(0) =~= Seq::<char>::empty());
        assert(lines.len() > 0);
        assert(lines[0].2 == 0);
        lemma_line_at(lines, offset as int, lines.len() as int);
    }
    let li = display.line_for_offset(offset);
    let lo = display.line_offset(li);
    let info = display.line_info(li);
    let pos = offset - lo;
    let bytes = content.as_bytes();
    proof {
        assert(0 <= lines[li as int].2 <= utf8_bytes(content@).len());
    }
    let le = line_end_of(bytes, lo);
    let ghost spans = lines[li as int].1;
    let mut i: usize = 0;
    while i < info.spans.len()
        invariant
            i <= info.spans@.len(),
            info.spans@ == spans,
            lines == display@.lines,
            li == line_at(lines, offset as int, lines.len() as int),
            0 <= li < lines.len(),
            lo == lines[li as int].2,
            spans == lines[li as int].1,
            le == line_end(utf8_bytes(content@), lo as int),
            bytes@ == utf8_bytes(content@),
            lo <= le <= bytes@.len(),
            pos == offset - lo,
            link_in_spans(content@, lo as int, le as int, spans, pos as int, i as int) == link_in_spans(
                content@,
                lo as int,
                le as int,
                spans,
                pos as int,
                0,
            ),
        decreases info.spans@.len() - i,
    {
        let sp = &info.spans[i];
        let s = sp.range.start;
        let e = sp.range.end;
        let line_len = le - lo;
        if sp.kind == StyleKind::Wikilink && s <= pos && pos < e && e <= line_len {
            let bs = lo + s;
            let be = lo + e;
            let ok_s = bs == bytes.len() || !(bytes[bs] >= 0x80 && bytes[bs] <= 0xbf);
            let ok_e = be == bytes.len() || !(bytes[be] >= 0x80 && bytes[be] <= 0xbf);
            if ok_s && ok_e {
                let raw = slice_text(content, bs, be);
                match wikilink_target(raw) {
                    Some(t) => {
                        proof {
                            assert(spans[i as int] == *sp);
                            assert(line_boundary(bytes@, lo as int, le as int, s as int));
                            assert(line_boundary(bytes@, lo as int, le as int, e as int));
                            assert(link_in_spans(content@, lo as int, le as int, spans, pos as int, i as int) == Some(
                                t@,
                            ));
                        }
                        return Some(t);
                    },
                    None => {},
                }
            }
        }
        i = i + 1;
    }
    None
}

} // verus!
