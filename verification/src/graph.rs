//! Links between notes: the wikilink targets a note's text names.
use vstd::prelude::*;

use crate::chars::{lemma_line_tail, line_tail};
use crate::code_edit::fence::{copy_range, trim, trimmed};
use crate::line_style::{StyleKind, StyleSpan};
use crate::text::{boundary, chars_of, slice_text, string_of, text_between, utf8_bytes};

verus! {

broadcast use vstd::string::group_string_axioms;

// ─── Lines ─────────────────────────────────────────────────────────────────

/// A line without the carriage return that ended it, if it had one.
pub open spec fn without_cr(l: Seq<char>) -> Seq<char> {
    if l.len() > 0 && l.last() == '\r' {
        l.drop_last()
    } else {
        l
    }
}

/// The lines of `s` from the one starting at character `k` on, as
/// `str::lines` gives them: split after each newline, a carriage return
/// before a newline dropped, and no line after a final newline.
pub open spec fn text_lines(s: Seq<char>, k: int) -> Seq<Seq<char>>
    decreases s.len() - k,
{
    if k < 0 || k >= s.len() {
        Seq::empty()
    } else {
        let e = line_tail(s, k);
        proof {
            lemma_line_tail(s, k);
        }
        if e < s.len() {
            seq![without_cr(s.subrange(k, e))] + text_lines(s, e + 1)
        } else {
            seq![s.subrange(k, e)]
        }
    }
}

// ─── Link targets ──────────────────────────────────────────────────────────

/// The index of the first `|` of `s` at or after `i`, or the length.
pub open spec fn bar_at(s: Seq<char>, i: int) -> int
    decreases s.len() - i,
{
    if i < 0 || i >= s.len() || s[i] == '|' {
        i
    } else {
        bar_at(s, i + 1)
    }
}

proof fn lemma_bar_at(s: Seq<char>, i: int)
    requires
        0 <= i <= s.len(),
    ensures
        i <= bar_at(s, i) <= s.len(),
    decreases s.len() - i,
{
    if i < s.len() && s[i] != '|' {
        lemma_bar_at(s, i + 1);
    }
}

/// The target a wikilink's text names: `[[target]]` or
/// `[[target|display]]`, the target trimmed of white space; nothing when
/// the text is not bracketed so or the target is empty.
pub open spec fn link_target(raw: Seq<char>) -> Option<Seq<char>> {
    if raw.len() >= 4 && raw[0] == '[' && raw[1] == '[' && raw[raw.len() - 2] == ']' && raw[raw.len() - 1]
        == ']' {
        let inner = raw.subrange(2, raw.len() - 2);
        let t = trim(inner.take(bar_at(inner, 0)));
        if t.len() > 0 {
            Some(t)
        } else {
            None
        }
    } else {
        None
    }
}

/// The target of the style span `sp` of `line`, when it is a wikilink.
pub open spec fn span_target(line: Seq<char>, sp: StyleSpan) -> Option<Seq<char>> {
    let b = utf8_bytes(line);
    let s = sp.range.start as int;
    let e = sp.range.end as int;
    if sp.kind == StyleKind::Wikilink && s <= e <= b.len() && boundary(b, s) && boundary(b, e) {
        link_target(text_between(line, s, e))
    } else {
        None
    }
}

/// The wikilink targets among the spans `spans` of `line`, in order.
pub open spec fn span_targets(line: Seq<char>, spans: Seq<StyleSpan>) -> Seq<Seq<char>>
    decreases spans.len(),
{
    if spans.len() == 0 {
        Seq::empty()
    } else {
        let before = span_targets(line, spans.drop_last());
        match span_target(line, spans.last()) {
            Some(t) => before.push(t),
            None => before,
        }
    }
}

/// The style spans given for the line at position 0 of `sp`, if any.
pub open spec fn first_spans(sp: Seq<Seq<StyleSpan>>) -> Seq<StyleSpan> {
    if sp.len() > 0 {
        sp[0]
    } else {
        Seq::empty()
    }
}

/// The spans of the lines after the first.
pub open spec fn rest_spans(sp: Seq<Seq<StyleSpan>>) -> Seq<Seq<StyleSpan>> {
    if sp.len() > 0 {
        sp.drop_first()
    } else {
        sp
    }
}

/// The wikilink targets of the lines `ls`, line by line, the style spans
/// of each line given in `sp` (a line without an entry has none).
pub open spec fn lines_targets(ls: Seq<Seq<char>>, sp: Seq<Seq<StyleSpan>>) -> Seq<Seq<char>>
    decreases ls.len(),
{
    if ls.len() == 0 {
        Seq::empty()
    } else {
        span_targets(ls[0], first_spans(sp)) + lines_targets(ls.drop_first(), rest_spans(sp))
    }
}

/// The wikilink targets of a note's text, in the order they occur, given
/// the inline style spans of each of its lines.
pub open spec fn wikilinks_spec(content: Seq<char>, sp: Seq<Seq<StyleSpan>>) -> Seq<Seq<char>> {
    lines_targets(text_lines(content, 0), sp)
}

/// The spans of each line as sequences.
pub open spec fn spans_view(v: Seq<Vec<StyleSpan>>) -> Seq<Seq<StyleSpan>> {
    v.map_values(|x: Vec<StyleSpan>| x@)
}

/// The strings as character sequences.
pub open spec fn strings_view(v: Seq<String>) -> Seq<Seq<char>> {
    v.map_values(|x: String| x@)
}

/// The target a wikilink's text names, if any.
fn target_of(raw: &str) -> (r: Option<String>)
    ensures
        match r {
            Some(t) => link_target(raw@) == Some(t@),
            None => link_target(raw@) is None,
        },
{
    let cs = chars_of(raw);
    let n = cs.len();
    if !(n >= 4 && cs[0] == '[' && cs[1] == '[' && cs[n - 2] == ']' && cs[n - 1] == ']') {
        return None;
    }
    let inner = copy_range(&cs, 2, n - 2);
    let mut j: usize = 0;
    proof {
        lemma_bar_at(inner@, 0);
    }
    while j < inner.len() && inner[j] != '|'
        invariant
            j <= inner@.len(),
            bar_at(inner@, j as int) == bar_at(inner@, 0),
        decreases inner@.len() - j,
    {
        j = j + 1;
    }
    let piece = copy_range(&inner, 0, j);
    assert(piece@ =~= inner@.take(bar_at(inner@, 0)));
    let t = trimmed(&piece);
    if t.len() > 0 {
        Some(string_of(&t))
    } else {
        None
    }
}

/// Appends the wikilink targets among the spans of one line.
fn push_line_targets(line: &str, spans: &[StyleSpan], links: &mut Vec<String>)
    ensures
        strings_view(final(links)@) == strings_view(old(links)@) + span_targets(line@, spans@),
{
    let bytes = line.as_bytes();
    let n = bytes.len();
    let mut i: usize = 0;
    assert(spans@.take(0) =~= Seq::<StyleSpan>::empty());
    assert(strings_view(links@) =~= strings_view(old(links)@) + span_targets(line@, spans@.take(0)));
    while i < spans.len()
        invariant
            i <= spans@.len(),
            bytes@ == utf8_bytes(line@),
            n == bytes@.len(),
            strings_view(links@) == strings_view(old(links)@) + span_targets(line@, spans@.take(i as int)),
        decreases spans@.len() - i,
    {
        let s = spans[i].range.start;
        let e = spans[i].range.end;
        let ghost before = links@;
        assert(spans@.take(i + 1).drop_last() =~= spans@.take(i as int));
        assert(spans@.take(i + 1).last() == spans@[i as int]);
        let ok = spans[i].kind == StyleKind::Wikilink && s <= e && e <= n && (s == n || !(bytes[s] >= 0x80
            && bytes[s] <= 0xbf)) && (e == n || !(bytes[e] >= 0x80 && bytes[e] <= 0xbf));
        if ok {
            let raw = slice_text(line, s, e);
            match target_of(raw) {
                Some(t) => {
                    links.push(t);
                    assert(strings_view(links@) =~= strings_view(before).push(links@.last()@));
                },
                None => {},
            }
        }
        i = i + 1;
    }
    assert(spans@.take(spans@.len() as int) =~= spans@);
}

/// Extract wikilink targets from markdown content: for each line (as
/// `str::lines` splits the text), each wikilink span among `line_spans`
/// (the inline style spans of that line, as the markdown parser gives
/// them), the target of `[[target]]` or `[[target|display]]`, trimmed, in
/// order; empty targets are left out.
pub fn extract_wikilinks(content: &str, line_spans: &Vec<Vec<StyleSpan>>) -> (r: Vec<String>)
    ensures
        strings_view(r@) == wikilinks_spec(content@, spans_view(line_spans@)),
{
    let cs = chars_of(content);
    let n = cs.len();
    let mut links: Vec<String> = Vec::new();
    let mut k: usize = 0;
    let mut li: usize = 0;
    let ghost all = spans_view(line_spans@);
    let no_spans: Vec<StyleSpan> = Vec::new();
    assert(strings_view(links@) =~= Seq::<Seq<char>>::empty());
    assert(all.skip(0) =~= all);
    while k < n
        invariant
            cs@ == content@,
            n == cs@.len(),
            k <= n,
            all == spans_view(line_spans@),
            no_spans@.len() == 0,
            wikilinks_spec(content@, all) == strings_view(links@) + lines_targets(
                text_lines(content@, k as int),
                if li <= all.len() {
                    all.skip(li as int)
                } else {
                    Seq::empty()
                },
            ),
        decreases n - k,
    {
        let ghost s = content@;
        let ghost sp = if li <= all.len() {
            all.skip(li as int)
        } else {
            Seq::<Seq<StyleSpan>>::empty()
        };
        proof {
            lemma_line_tail(s, k as int);
        }
        let mut e = k;
        while e < n && cs[e] != '\n'
            invariant
                k <= e <= n,
                cs@ == s,
                n == s.len(),
                line_tail(s, e as int) == line_tail(s, k as int),
            decreases n - e,
        {
            e = e + 1;
        }
        let ghost rest = text_lines(s, e + 1);
        let line_end = if e < n && e > k && cs[e - 1] == '\r' {
            e - 1
        } else {
            e
        };
        let line_chars = copy_range(&cs, k, line_end);
        let line = string_of(&line_chars);
        proof {
            let l = s.subrange(k as int, e as int);
            if e < n {
                assert(line@ =~= without_cr(l));
                assert(text_lines(s, k as int) == seq![without_cr(l)] + rest);
            } else {
                assert(line@ =~= l);
                assert(text_lines(s, k as int) == seq![l]);
                assert(text_lines(s, e + 1) =~= Seq::<Seq<char>>::empty());
            }
            let ls = text_lines(s, k as int);
            assert(ls.drop_first() =~= rest);
        }
        let ghost before = links@;
        let spans: &Vec<StyleSpan> = if li < line_spans.len() {
            &line_spans[li]
        } else {
            &no_spans
        };
        proof {
            if li < all.len() {
                assert(sp[0] == all[li as int]);
                assert(rest_spans(sp) =~= all.skip(li + 1));
            } else {
                assert(sp.len() == 0);
            }
            assert(spans@ == first_spans(sp));
        }
        push_line_targets(line.as_str(), spans.as_slice(), &mut links);
        proof {
            assert(lines_targets(text_lines(s, k as int), sp) == span_targets(line@, first_spans(sp))
                + lines_targets(rest, rest_spans(sp)));
            assert(strings_view(before) + lines_targets(text_lines(s, k as int), sp) =~= strings_view(links@)
                + lines_targets(rest, rest_spans(sp)));
            assert(text_lines(s, n as int) =~= Seq::<Seq<char>>::empty());
            if li >= all.len() {
                assert(rest_spans(sp) =~= Seq::<Seq<StyleSpan>>::empty());
            }
        }
        k = if e < n {
            e + 1
        } else {
            n
        };
        li = if li < line_spans.len() {
            li + 1
        } else {
            li
        };
    }
    assert(text_lines(content@, k as int) =~= Seq::<Seq<char>>::empty());
    assert(strings_view(links@) + Seq::<Seq<char>>::empty() =~= strings_view(links@));
    links
}

} // verus!
