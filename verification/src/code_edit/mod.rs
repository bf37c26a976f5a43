//! Editing help inside fenced code blocks: paired brackets and quotes,
//! indentation on newline.
pub mod fence;

use std::ops::Range;

use vstd::prelude::*;

use crate::chars::{
    char_index, char_table, char_width, lemma_byte_len_take, lemma_encode_concat, lemma_line_head,
    line_head, utf8_len, CharTable,
};
use crate::text::{
    alphanumeric, byte_len, char_is_alphanumeric, chars_equal, lowercase_equals, lowercase_is,
    push_char, str_eq,
};
use self::fence::{
    back_word_exec, back_ws_exec, code_context, code_context_spec, copy_range, last_word,
    skip_ws_exec, trim, trim_end, CodeContext,
};

verus! {

broadcast use vstd::string::group_string_axioms;

/// An edit to apply instead of plain typing: replace `range` with `text`
/// and put the cursor at `cursor_after`.
#[derive(Debug, PartialEq, Eq)]
pub struct CodeEdit {
    pub range: Range<usize>,
    pub text: String,
    pub cursor_after: usize,
}

/// What an edit holds.
pub struct CodeEditView {
    pub range: Range<usize>,
    pub text: Seq<char>,
    pub cursor_after: int,
}

impl View for CodeEdit {
    type V = CodeEditView;

    open spec fn view(&self) -> CodeEditView {
        CodeEditView { range: self.range, text: self.text@, cursor_after: self.cursor_after as int }
    }
}

impl Clone for CodeEdit {
    fn clone(&self) -> (r: Self)
        ensures
            r == *self,
    {
        CodeEdit {
            range: Range { start: self.range.start, end: self.range.end },
            text: self.text.clone(),
            cursor_after: self.cursor_after,
        }
    }
}

/// The optional edit, viewed.
pub open spec fn edit_view(e: Option<CodeEdit>) -> Option<CodeEditView> {
    match e {
        Some(x) => Some(x@),
        None => None,
    }
}

/// One level of indentation.
pub open spec fn indent_unit() -> Seq<char> {
    seq![' ', ' ', ' ', ' ']
}

// ─── Characters ────────────────────────────────────────────────────────────

/// The closing partner of an opening bracket or quote.
pub open spec fn matching_close_spec(c: char) -> Option<char> {
    if c == '(' {
        Some(')')
    } else if c == '[' {
        Some(']')
    } else if c == '{' {
        Some('}')
    } else if c == '"' || c == '\'' || c == '`' {
        Some(c)
    } else {
        None
    }
}

/// A closing bracket.
pub open spec fn is_closing_spec(c: char) -> bool {
    c == ')' || c == ']' || c == '}'
}

/// A character that belongs to a word: alphanumeric or `_`.
pub open spec fn word_char(c: char) -> bool {
    alphanumeric(c) || c == '_'
}

/// The character just before byte `off` of `t`, when `off` is a character
/// boundary with a character before it.
pub open spec fn previous_char_spec(t: Seq<char>, off: int) -> Option<char> {
    match char_index(t, off) {
        Some(k) => if k > 0 {
            Some(t[k - 1])
        } else {
            None
        },
        None => None,
    }
}

/// The character that starts at byte `off` of `t`, if one does.
pub open spec fn next_char_spec(t: Seq<char>, off: int) -> Option<char> {
    match char_index(t, off) {
        Some(k) => if k < t.len() {
            Some(t[k])
        } else {
            None
        },
        None => None,
    }
}

/// Typing a quote at byte `off` would split a word: a word character
/// touches the position on either side.
pub open spec fn splits_word(t: Seq<char>, off: int) -> bool {
    (previous_char_spec(t, off) matches Some(c) && word_char(c)) || (next_char_spec(t, off) matches Some(
        c,
    ) && word_char(c))
}

/// The leading spaces and tabs of `s`, as a count.
pub open spec fn indent_len(s: Seq<char>, i: int) -> int
    decreases s.len() - i,
{
    if 0 <= i < s.len() && (s[i] == ' ' || s[i] == '\t') {
        indent_len(s, i + 1)
    } else {
        i
    }
}

pub proof fn lemma_indent_len(s: Seq<char>, i: int)
    requires
        0 <= i <= s.len(),
    ensures
        i <= indent_len(s, i) <= s.len(),
    decreases s.len() - i,
{
    if i < s.len() && (s[i] == ' ' || s[i] == '\t') {
        lemma_indent_len(s, i + 1);
    }
}

/// `s` with one level of indentation taken off its end: four spaces, else a
/// tab, else nothing.
pub open spec fn remove_indent_spec(s: Seq<char>) -> Seq<char> {
    if s.len() >= 4 && s.skip(s.len() - 4) == indent_unit() {
        s.take(s.len() - 4)
    } else if s.len() >= 1 && s.last() == '\t' {
        s.drop_last()
    } else {
        s
    }
}

/// A newline after `line` (the text before the cursor, trailing white space
/// removed) in a block of `language` indents one level: the line ends with
/// an opening bracket, or with `:` in Python or YAML, or with `then`, `do`
/// or `else` in a shell language.
pub open spec fn should_indent_spec(line: Seq<char>, language: Seq<char>) -> bool {
    let lang = trim(language);
    if line.len() == 0 {
        false
    } else if line.last() == '{' || line.last() == '(' || line.last() == '[' {
        true
    } else if (lowercase_is(lang, seq!['p', 'y', 't', 'h', 'o', 'n']) || lowercase_is(
        lang,
        seq!['p', 'y'],
    ) || lowercase_is(lang, seq!['y', 'a', 'm', 'l']) || lowercase_is(lang, seq!['y', 'm', 'l']))
        && line.last() == ':' {
        true
    } else if lowercase_is(lang, seq!['b', 'a', 's', 'h']) || lowercase_is(lang, seq!['s', 'h'])
        || lowercase_is(lang, seq!['s', 'h', 'e', 'l', 'l']) || lowercase_is(
        lang,
        seq!['f', 'i', 's', 'h'],
    ) {
        let w = last_word(line);
        w == seq!['t', 'h', 'e', 'n'] || w == seq!['d', 'o'] || w == seq!['e', 'l', 's', 'e']
    } else {
        false
    }
}

// ─── Edits ─────────────────────────────────────────────────────────────────

/// Typing an opening bracket or quote: wrap the selected text (or nothing)
/// in the pair. A single quote typed against a word is left alone, and so
/// is a range that does not fall on character boundaries.
pub open spec fn open_pair_spec(t: Seq<char>, range: Range<usize>, open: char, close: char) -> Option<
    CodeEditView,
> {
    if open == '\'' && range.start >= range.end && splits_word(t, range.start as int) {
        None
    } else {
        match (char_index(t, range.start as int), char_index(t, range.end as int)) {
            (Some(ks), Some(ke)) => if ks <= ke {
                let selected = t.subrange(ks, ke);
                let text = seq![open] + selected + seq![close];
                Some(
                    CodeEditView {
                        range,
                        text,
                        cursor_after: if selected.len() == 0 {
                            range.start + char_width(open)
                        } else {
                            range.start + byte_len(text)
                        },
                    },
                )
            } else {
                None
            },
            _ => None,
        }
    }
}

/// Typing a closing bracket with the cursor at byte `range.start` (with no
/// selection). On a line of nothing but indentation the indentation loses
/// one level and the bracket follows it (or, when the same bracket is next,
/// the cursor steps over it). Elsewhere, when the same bracket is next, the
/// cursor steps over it.
pub open spec fn close_pair_spec(t: Seq<char>, range: Range<usize>, close: char) -> Option<CodeEditView> {
    let start = range.start as int;
    if range.start < range.end {
        None
    } else {
        let k = char_index(t, start)->0;
        let lh = line_head(t, k);
        let before = t.subrange(lh, k);
        let ls = byte_len(t.take(lh));
        let next_is_same = next_char_spec(t, start) == Some(close);
        if indent_len(before, 0) == before.len() && before.len() > 0 {
            let d = remove_indent_spec(before);
            Some(
                CodeEditView {
                    range: Range { start: ls as usize, end: range.start },
                    text: if next_is_same {
                        d
                    } else {
                        d.push(close)
                    },
                    cursor_after: (ls + byte_len(d) + char_width(close)) as int,
                },
            )
        } else if next_is_same {
            Some(
                CodeEditView {
                    range: Range { start: range.start, end: range.start },
                    text: Seq::<char>::empty(),
                    cursor_after: start + char_width(close),
                },
            )
        } else {
            None
        }
    }
}

/// Typing a newline in a block of `language` with the cursor at byte
/// `range.start` (no selection): the new line keeps the indentation of the
/// current one, one level more after an opener or a block keyword. Between
/// an opening bracket and its partner (and also where there is neither, as
/// at the very end of the text) a further line with the old indentation
/// holds the partner.
pub open spec fn newline_spec(t: Seq<char>, range: Range<usize>, language: Seq<char>) -> Option<
    CodeEditView,
> {
    let start = range.start as int;
    if range.start < range.end {
        None
    } else {
        let k = char_index(t, start)->0;
        let before = t.subrange(line_head(t, k), k);
        let base = before.take(indent_len(before, 0));
        let trimmed = trim_end(before);
        let opener = if trimmed.len() > 0 {
            Some(trimmed.last())
        } else {
            None
        };
        let expected = match opener {
            Some(o) => matching_close_spec(o),
            None => None,
        };
        let split_pair = expected == next_char_spec(t, start);
        let first = seq!['\n'] + base + (if split_pair || should_indent_spec(trimmed, language) {
            indent_unit()
        } else {
            Seq::<char>::empty()
        });
        Some(
            CodeEditView {
                range,
                text: if split_pair {
                    first + seq!['\n'] + base
                } else {
                    first
                },
                cursor_after: start + byte_len(first),
            },
        )
    }
}

/// What typing `text` over `range` of `t` becomes inside a fenced code
/// block; none outside one, and none for text that is neither a newline
/// nor a single bracket or quote.
pub open spec fn smart_insert_spec(t: Seq<char>, range: Range<usize>, text: Seq<char>) -> Option<
    CodeEditView,
> {
    match code_context_spec(t, range.end as int) {
        None => None,
        Some(language) => if text == seq!['\n'] {
            newline_spec(t, range, language)
        } else if text.len() != 1 {
            None
        } else if matching_close_spec(text[0]) is Some {
            open_pair_spec(t, range, text[0], matching_close_spec(text[0])->0)
        } else if is_closing_spec(text[0]) {
            close_pair_spec(t, range, text[0])
        } else {
            None
        },
    }
}

/// `smart_insert` only slices at `range.start` when that is a character
/// boundary: typing a newline or a closing bracket with an empty (or
/// reversed) range inside a code block needs it.
pub open spec fn smart_insert_ok(t: Seq<char>, range: Range<usize>, text: Seq<char>) -> bool {
    code_context_spec(t, range.end as int) is None || range.start < range.end || char_index(
        t,
        range.start as int,
    ) is Some || !(text == seq!['\n'] || (text.len() == 1 && is_closing_spec(text[0])))
}

/// Backspace at byte `cursor` between an opening bracket or quote and its
/// partner, inside a code block, deletes both.
pub open spec fn smart_backspace_spec(t: Seq<char>, cursor: int) -> Option<CodeEditView> {
    if code_context_spec(t, cursor) is None {
        None
    } else {
        match (previous_char_spec(t, cursor), next_char_spec(t, cursor)) {
            (Some(p), Some(n)) => if matching_close_spec(p) == Some(n) {
                Some(
                    CodeEditView {
                        range: Range {
                            start: (cursor - char_width(p)) as usize,
                            end: (cursor + char_width(n)) as usize,
                        },
                        text: Seq::<char>::empty(),
                        cursor_after: cursor - char_width(p),
                    },
                )
            } else {
                None
            },
            _ => None,
        }
    }
}

// ─── Implementation ────────────────────────────────────────────────────────

/// Bytes of a prefix of `t` split at character `i`.
proof fn lemma_byte_len_split(t: Seq<char>, i: int, j: int)
    requires
        0 <= i <= j <= t.len(),
    ensures
        byte_len(t.take(j)) == byte_len(t.take(i)) + byte_len(t.subrange(i, j)),
{
    assert(t.take(i) + t.subrange(i, j) =~= t.take(j));
    lemma_encode_concat(t.take(i), t.subrange(i, j));
}

/// Bytes of a concatenation.
proof fn lemma_byte_len_concat(a: Seq<char>, b: Seq<char>)
    ensures
        byte_len(a + b) == byte_len(a) + byte_len(b),
{
    lemma_encode_concat(a, b);
}

fn matching_close(ch: char) -> (r: Option<char>)
    ensures
        r == matching_close_spec(ch),
{
    if ch == '(' {
        Some(')')
    } else if ch == '[' {
        Some(']')
    } else if ch == '{' {
        Some('}')
    } else if ch == '"' || ch == '\'' || ch == '`' {
        Some(ch)
    } else {
        None
    }
}

fn pair_for_open(ch: char) -> (r: Option<(char, char)>)
    ensures
        match r {
            Some((o, c)) => o == ch && matching_close_spec(ch) == Some(c),
            None => matching_close_spec(ch) is None,
        },
{
    match matching_close(ch) {
        Some(c) => Some((ch, c)),
        None => None,
    }
}

fn is_closing_pair(ch: char) -> (r: bool)
    ensures
        r == is_closing_spec(ch),
{
    ch == ')' || ch == ']' || ch == '}'
}

fn previous_char(content: &str, cursor: usize) -> (r: Option<char>)
    ensures
        r == previous_char_spec(content@, cursor as int),
{
    let tbl = char_table(content);
    match tbl.index_of(cursor) {
        Some(k) => if k > 0 {
            Some(tbl.chars[k - 1])
        } else {
            None
        },
        None => None,
    }
}

fn next_char(content: &str, cursor: usize) -> (r: Option<char>)
    ensures
        r == next_char_spec(content@, cursor as int),
{
    let tbl = char_table(content);
    match tbl.index_of(cursor) {
        Some(k) => if k < tbl.chars.len() {
            Some(tbl.chars[k])
        } else {
            None
        },
        None => None,
    }
}

fn quote_would_split_word(content: &str, cursor: usize) -> (r: bool)
    ensures
        r == splits_word(content@, cursor as int),
{
    let before = match previous_char(content, cursor) {
        Some(c) => char_is_alphanumeric(c) || c == '_',
        None => false,
    };
    let after = match next_char(content, cursor) {
        Some(c) => char_is_alphanumeric(c) || c == '_',
        None => false,
    };
    before || after
}

/// The byte offset where the line holding byte `offset` starts.
fn line_start_at(content: &str, offset: usize) -> (r: usize)
    requires
        char_index(content@, offset as int) is Some,
    ensures
        r == byte_len(content@.take(line_head(content@, char_index(content@, offset as int)->0))),
{
    let tbl = char_table(content);
    match tbl.index_of(offset) {
        Some(k) => {
            let lh = tbl.line_head_of(k);
            tbl.starts[lh]
        },
        None => 0,
    }
}

/// The leading spaces and tabs of a line prefix.
fn leading_indent(line_prefix: &Vec<char>) -> (r: Vec<char>)
    ensures
        r@ == line_prefix@.take(indent_len(line_prefix@, 0)),
        0 <= indent_len(line_prefix@, 0) <= line_prefix@.len(),
{
    proof {
        lemma_indent_len(line_prefix@, 0);
    }
    let mut i: usize = 0;
    while i < line_prefix.len() && (line_prefix[i] == ' ' || line_prefix[i] == '\t')
        invariant
            i <= line_prefix@.len(),
            indent_len(line_prefix@, i as int) == indent_len(line_prefix@, 0),
        decreases line_prefix@.len() - i,
    {
        i = i + 1;
    }
    copy_range(line_prefix, 0, i)
}

/// One level of indentation less.
fn remove_one_indent(indent: &Vec<char>) -> (r: Vec<char>)
    ensures
        r@ == remove_indent_spec(indent@),
{
    let n = indent.len();
    if n >= 4 && indent[n - 4] == ' ' && indent[n - 3] == ' ' && indent[n - 2] == ' ' && indent[n
        - 1] == ' ' {
        assert(indent@.skip(n - 4) =~= indent_unit());
        return copy_range(indent, 0, n - 4);
    }
    proof {
        if n >= 4 {
            if indent@.skip(n - 4) == indent_unit() {
                assert(indent@.skip(n - 4)[0] == indent@[n - 4]);
                assert(indent@.skip(n - 4)[1] == indent@[n - 3]);
                assert(indent@.skip(n - 4)[2] == indent@[n - 2]);
                assert(indent@.skip(n - 4)[3] == indent@[n - 1]);
            }
        }
    }
    if n >= 1 && indent[n - 1] == '\t' {
        return copy_range(indent, 0, n - 1);
    }
    copy_range(indent, 0, n)
}

/// `s` without leading or trailing white space.
fn trimmed(s: &Vec<char>) -> (r: Vec<char>)
    ensures
        r@ == trim(s@),
{
    let e = back_ws_exec(s, s.len());
    let u = copy_range(s, 0, e);
    let a = skip_ws_exec(&u, 0);
    let r = copy_range(&u, a, u.len());
    assert(u@ =~= trim_end(s@));
    assert(r@ =~= u@.skip(a as int));
    r
}

fn should_indent_after(line: &Vec<char>, language: &Vec<char>) -> (r: bool)
    ensures
        r == should_indent_spec(line@, language@),
{
    if line.len() == 0 {
        return false;
    }
    let last = line[line.len() - 1];
    if last == '{' || last == '(' || last == '[' {
        return true;
    }
    let lang = trimmed(language);
    proof {
        reveal_strlit("python");
        reveal_strlit("py");
        reveal_strlit("yaml");
        reveal_strlit("yml");
        reveal_strlit("bash");
        reveal_strlit("sh");
        reveal_strlit("shell");
        reveal_strlit("fish");
        reveal_strlit("then");
        reveal_strlit("do");
        reveal_strlit("else");
        assert("python"@ =~= seq!['p', 'y', 't', 'h', 'o', 'n']);
        assert("py"@ =~= seq!['p', 'y']);
        assert("yaml"@ =~= seq!['y', 'a', 'm', 'l']);
        assert("yml"@ =~= seq!['y', 'm', 'l']);
        assert("bash"@ =~= seq!['b', 'a', 's', 'h']);
        assert("sh"@ =~= seq!['s', 'h']);
        assert("shell"@ =~= seq!['s', 'h', 'e', 'l', 'l']);
        assert("fish"@ =~= seq!['f', 'i', 's', 'h']);
        assert("then"@ =~= seq!['t', 'h', 'e', 'n']);
        assert("do"@ =~= seq!['d', 'o']);
        assert("else"@ =~= seq!['e', 'l', 's', 'e']);
    }
    let indents_colon = lowercase_equals(&lang, "python") || lowercase_equals(&lang, "py")
        || lowercase_equals(&lang, "yaml") || lowercase_equals(&lang, "yml");
    if indents_colon && last == ':' {
        return true;
    }
    if lowercase_equals(&lang, "bash") || lowercase_equals(&lang, "sh") || lowercase_equals(
        &lang,
        "shell",
    ) || lowercase_equals(&lang, "fish") {
        let e = back_ws_exec(line, line.len());
        let b = back_word_exec(line, e);
        let w = copy_range(line, b, e);
        return chars_equal(&w, "then") || chars_equal(&w, "do") || chars_equal(&w, "else");
    }
    false
}

/// Appends characters to a string.
fn push_all(s: &mut String, cs: &Vec<char>)
    ensures
        final(s)@ == old(s)@ + cs@,
{
    let mut i: usize = 0;
    while i < cs.len()
        invariant
            i <= cs@.len(),
            s@ == old(s)@ + cs@.take(i as int),
        decreases cs@.len() - i,
    {
        push_char(s, cs[i]);
        i = i + 1;
        assert(s@ =~= old(s)@ + cs@.take(i as int));
    }
    assert(cs@.take(cs@.len() as int) =~= cs@);
}

fn smart_open_pair(content: &str, range: Range<usize>, open: char, close: char) -> (r: Option<
    CodeEdit,
>)
    requires
        byte_len(content@) <= isize::MAX,
    ensures
        edit_view(r) == open_pair_spec(content@, range, open, close),
{
    if open == '\'' && range.start >= range.end && quote_would_split_word(content, range.start) {
        return None;
    }
    let tbl = char_table(content);
    let ks = match tbl.index_of(range.start) {
        Some(k) => k,
        None => return None,
    };
    let ke = match tbl.index_of(range.end) {
        Some(k) => k,
        None => return None,
    };
    if ks > ke {
        return None;
    }
    let selected = copy_range(&tbl.chars, ks, ke);
    let mut text = String::new();
    push_char(&mut text, open);
    push_all(&mut text, &selected);
    push_char(&mut text, close);
    proof {
        let t = content@;
        assert(text@ =~= seq![open] + selected@ + seq![close]);
        lemma_byte_len_split(t, ks as int, ke as int);
        lemma_byte_len_take(t, ke as int, t.len() as int);
        assert(t.take(t.len() as int) =~= t);
        lemma_byte_len_concat(seq![open] + selected@, seq![close]);
        lemma_byte_len_concat(seq![open], selected@);
        assert(seq![open] =~= Seq::<char>::empty().push(open));
        crate::chars::lemma_encode_push(Seq::<char>::empty(), open);
        assert(seq![close] =~= Seq::<char>::empty().push(close));
        crate::chars::lemma_encode_push(Seq::<char>::empty(), close);
        assert(vstd::utf8::encode_utf8(Seq::<char>::empty()) =~= Seq::<u8>::empty());
        vstd::utf8::char_is_scalar(open);
        vstd::utf8::char_is_scalar(close);
    }
    let cursor_after = if ke == ks {
        range.start + utf8_len(open)
    } else {
        range.start + text.as_str().len()
    };
    Some(CodeEdit { range, text, cursor_after })
}

/// The characters of the line holding character `k`, up to it, with the
/// index where the line starts.
fn line_before(tbl: &CharTable, k: usize) -> (r: (usize, Vec<char>))
    requires
        tbl.wf(),
        k <= tbl.chars@.len(),
    ensures
        r.0 == line_head(tbl.chars@, k as int),
        r.1@ == tbl.chars@.subrange(r.0 as int, k as int),
        r.0 <= k,
{
    let lh = tbl.line_head_of(k);
    (lh, copy_range(&tbl.chars, lh, k))
}

fn smart_close_pair(content: &str, range: Range<usize>, close: char) -> (r: Option<CodeEdit>)
    requires
        range.start < range.end || char_index(content@, range.start as int) is Some,
        byte_len(content@) <= isize::MAX,
    ensures
        edit_view(r) == close_pair_spec(content@, range, close),
{
    if range.start < range.end {
        return None;
    }
    let tbl = char_table(content);
    let k = match tbl.index_of(range.start) {
        Some(k) => k,
        None => return None,
    };
    let line_start = line_start_at(content, range.start);
    let (lh, before) = line_before(&tbl, k);
    let indent = leading_indent(&before);
    let line_is_indent_only = indent.len() == before.len();
    let next_is_same = match next_char(content, range.start) {
        Some(c) => c == close,
        None => false,
    };
    if line_is_indent_only && before.len() > 0 {
        let dedented = remove_one_indent(&before);
        let mut text = String::new();
        push_all(&mut text, &dedented);
        let dedented_len = text.as_str().len();
        if !next_is_same {
            push_char(&mut text, close);
        }
        proof {
            let t = content@;
            assert(text@ == dedented@ || text@ == dedented@.push(close));
            lemma_byte_len_split(t, lh as int, k as int);
            let d = dedented@;
            let b = before@;
            if b.len() >= 4 && b.skip(b.len() - 4) == indent_unit() {
                assert(d =~= b.take(b.len() - 4));
                lemma_byte_len_take(b, b.len() - 4, b.len() as int);
            } else if b.len() >= 1 && b.last() == '\t' {
                assert(d =~= b.take(b.len() - 1));
                lemma_byte_len_take(b, b.len() - 1, b.len() as int);
            } else {
                assert(d =~= b);
            }
            assert(b.take(b.len() as int) =~= b);
            lemma_byte_len_take(t, k as int, t.len() as int);
            assert(t.take(t.len() as int) =~= t);
            vstd::utf8::char_is_scalar(close);
        }
        let cursor_after = line_start + dedented_len + utf8_len(close);
        return Some(
            CodeEdit { range: Range { start: line_start, end: range.start }, text, cursor_after },
        );
    }
    if next_is_same {
        proof {
            lemma_byte_len_take(content@, k as int, content@.len() as int);
            assert(content@.take(content@.len() as int) =~= content@);
            vstd::utf8::char_is_scalar(close);
        }
        return Some(
            CodeEdit {
                range: Range { start: range.start, end: range.start },
                text: String::new(),
                cursor_after: range.start + utf8_len(close),
            },
        );
    }
    None
}

/// The edit for a newline typed in a code block. The bound on the text
/// keeps the replacement, which may repeat the line's indentation twice,
/// and the cursor after it within a `String` and a `usize`.
fn smart_newline(content: &str, range: Range<usize>, context: &CodeContext) -> (r: Option<
    CodeEdit,
>)
    requires
        range.start < range.end || char_index(content@, range.start as int) is Some,
        byte_len(content@) <= isize::MAX / 2,
    ensures
        edit_view(r) == newline_spec(content@, range, context.language@),
{
    if range.start < range.end {
        return None;
    }
    let tbl = char_table(content);
    let k = match tbl.index_of(range.start) {
        Some(k) => k,
        None => return None,
    };
    let (lh, before) = line_before(&tbl, k);
    let base_indent = leading_indent(&before);
    let e = back_ws_exec(&before, before.len());
    let trimmed_before = copy_range(&before, 0, e);
    let mut inserted = String::new();
    push_char(&mut inserted, '\n');
    push_all(&mut inserted, &base_indent);
    let opener = if e > 0 {
        Some(trimmed_before[e - 1])
    } else {
        None
    };
    let expected = match opener {
        Some(o) => matching_close(o),
        None => None,
    };
    let closer = next_char(content, range.start);
    let split_pair = match (expected, closer) {
        (Some(x), Some(y)) => x == y,
        (None, None) => true,
        _ => false,
    };
    let should_indent = split_pair || should_indent_after(&trimmed_before, &context.language);
    proof {
        reveal_strlit("    ");
        assert("    "@ =~= indent_unit());
    }
    if should_indent {
        inserted.append("    ");
    }
    proof {
        let t = content@;
        let b = before@;
        let first = inserted@;
        assert(first =~= seq!['\n'] + base_indent@ + (if should_indent {
            indent_unit()
        } else {
            Seq::<char>::empty()
        }));
        lemma_byte_len_split(t, lh as int, k as int);
        lemma_byte_len_take(t, k as int, t.len() as int);
        assert(t.take(t.len() as int) =~= t);
        lemma_byte_len_take(b, indent_len(b, 0), b.len() as int);
        assert(b.take(b.len() as int) =~= b);
        lemma_byte_len_concat(seq!['\n'] + base_indent@, if should_indent {
            indent_unit()
        } else {
            Seq::<char>::empty()
        });
        lemma_byte_len_concat(seq!['\n'], base_indent@);
        assert(seq!['\n'] =~= Seq::<char>::empty().push('\n'));
        crate::chars::lemma_encode_push(Seq::<char>::empty(), '\n');
        assert(vstd::utf8::encode_utf8(Seq::<char>::empty()) =~= Seq::<u8>::empty());
        assert(indent_unit() =~= Seq::<char>::empty().push(' ').push(' ').push(' ').push(' '));
        crate::chars::lemma_encode_push(Seq::<char>::empty(), ' ');
        crate::chars::lemma_encode_push(Seq::<char>::empty().push(' '), ' ');
        crate::chars::lemma_encode_push(Seq::<char>::empty().push(' ').push(' '), ' ');
        crate::chars::lemma_encode_push(Seq::<char>::empty().push(' ').push(' ').push(' '), ' ');
        assert(trimmed_before@ =~= trim_end(b));
    }
    let cursor_after = range.start + inserted.as_str().len();
    let ghost first = inserted@;
    if split_pair {
        push_char(&mut inserted, '\n');
        push_all(&mut inserted, &base_indent);
        assert(inserted@ =~= first + seq!['\n'] + base_indent@);
    }
    assert(split_pair == (expected == closer));
    assert(opener == (if trim_end(before@).len() > 0 { Some(trim_end(before@).last()) } else { None }));
    Some(CodeEdit { range, text: inserted, cursor_after })
}

/// What typing `text` over `range` becomes inside a fenced code block:
/// brackets and quotes come in pairs, a closing bracket steps over its
/// partner or dedents a blank line, a newline keeps (and after an opener
/// deepens) the indentation. `None` outside a code block, and for any other
/// text. The text must fit twice in an `isize`: a newline between brackets
/// builds a replacement that holds the line's indentation twice, and the
/// cursor after it lies past the insertion point by that much, which a
/// `String` (at most `isize::MAX` bytes) and a `usize` offset must hold.
pub fn smart_insert(content: &str, range: Range<usize>, text: &str) -> (r: Option<CodeEdit>)
    requires
        smart_insert_ok(content@, range, text@),
        byte_len(content@) <= isize::MAX / 2,
    ensures
        edit_view(r) == smart_insert_spec(content@, range, text@),
{
    let context = match code_context(content, range.end) {
        Some(c) => c,
        None => return None,
    };
    proof {
        reveal_strlit("\n");
        assert("\n"@ =~= seq!['\n']);
    }
    if str_eq(text, "\n") {
        return smart_newline(content, range, &context);
    }
    if text.unicode_len() != 1 {
        return None;
    }
    let ch = text.get_char(0);
    match pair_for_open(ch) {
        Some((open, close)) => {
            return smart_open_pair(content, range, open, close);
        },
        None => {},
    }
    if is_closing_pair(ch) {
        return smart_close_pair(content, range, ch);
    }
    None
}

/// Backspace inside a fenced code block between an opening bracket or
/// quote and its partner deletes both; `None` anywhere else.
pub fn smart_backspace(content: &str, cursor: usize) -> (r: Option<CodeEdit>)
    ensures
        edit_view(r) == smart_backspace_spec(content@, cursor as int),
{
    if code_context(content, cursor).is_none() {
        return None;
    }
    let prev = match previous_char(content, cursor) {
        Some(c) => c,
        None => return None,
    };
    let next = match next_char(content, cursor) {
        Some(c) => c,
        None => return None,
    };
    let closes = match matching_close(prev) {
        Some(c) => c == next,
        None => false,
    };
    if closes {
        let total = content.as_bytes().len();
        proof {
            let t = content@;
            let k = char_index(t, cursor as int)->0;
            lemma_byte_len_split(t, k - 1, k);
            lemma_byte_len_split(t, k, k + 1);
            lemma_byte_len_take(t, k + 1, t.len() as int);
            assert(t.take(t.len() as int) =~= t);
            assert(t.subrange(k - 1, k) =~= Seq::<char>::empty().push(prev));
            assert(t.subrange(k, k + 1) =~= Seq::<char>::empty().push(next));
            crate::chars::lemma_encode_push(Seq::<char>::empty(), prev);
            crate::chars::lemma_encode_push(Seq::<char>::empty(), next);
            assert(vstd::utf8::encode_utf8(Seq::<char>::empty()) =~= Seq::<u8>::empty());
        }
        let start = cursor - utf8_len(prev);
        let end = cursor + utf8_len(next);
        return Some(CodeEdit { range: Range { start, end }, text: String::new(), cursor_after: start });
    }
    None
}


/// The edit that puts `open` and `close` at byte `p` with the cursor
/// between them.
pub open spec fn pair_at(p: usize, open: char, close: char) -> CodeEditView {
    CodeEditView { range: Range { start: p, end: p }, text: seq![open, close], cursor_after: p + 1 }
}

/// Inside a code block, typing an opening bracket or a quote at a
/// character boundary (with nothing selected) inserts it with its partner,
/// the cursor between them: `"` with `"`, `` ` `` with `` ` ``, `'` with `'`
/// unless that would split a word, `(` with `)`, `[` with `]`, `{` with `}`.
/// Outside a code block nothing is paired.
pub proof fn lemma_typing_opens_pairs(t: Seq<char>, p: usize)
    requires
        char_index(t, p as int) is Some,
    ensures
        code_context_spec(t, p as int) is Some ==> {
            &&& smart_insert_spec(t, Range { start: p, end: p }, seq!['"']) == Some(pair_at(p, '"', '"'))
            &&& smart_insert_spec(t, Range { start: p, end: p }, seq!['`']) == Some(pair_at(p, '`', '`'))
            &&& !splits_word(t, p as int) ==> smart_insert_spec(t, Range { start: p, end: p }, seq!['\''])
                == Some(pair_at(p, '\'', '\''))
            &&& smart_insert_spec(t, Range { start: p, end: p }, seq!['(']) == Some(pair_at(p, '(', ')'))
            &&& smart_insert_spec(t, Range { start: p, end: p }, seq!['[']) == Some(pair_at(p, '[', ']'))
            &&& smart_insert_spec(t, Range { start: p, end: p }, seq!['{']) == Some(pair_at(p, '{', '}'))
        },
        code_context_spec(t, p as int) is None ==> smart_insert_spec(t, Range { start: p, end: p }, seq!['"'])
            is None,
{
    let k = char_index(t, p as int)->0;
    crate::chars::lemma_index_from(t, p as int, 0);
    assert(t.subrange(k, k) =~= Seq::<char>::empty());
    assert(seq!['"'] + Seq::<char>::empty() + seq!['"'] =~= seq!['"', '"']);
    assert(seq!['`'] + Seq::<char>::empty() + seq!['`'] =~= seq!['`', '`']);
    assert(seq!['\''] + Seq::<char>::empty() + seq!['\''] =~= seq!['\'', '\'']);
    assert(seq!['('] + Seq::<char>::empty() + seq![')'] =~= seq!['(', ')']);
    assert(seq!['['] + Seq::<char>::empty() + seq![']'] =~= seq!['[', ']']);
    assert(seq!['{'] + Seq::<char>::empty() + seq!['}'] =~= seq!['{', '}']);
    assert(seq!['"'] != seq!['\n']) by {
        assert(seq!['"'][0] != seq!['\n'][0]);
    }
    assert(seq!['`'] != seq!['\n']) by {
        assert(seq!['`'][0] != seq!['\n'][0]);
    }
    assert(seq!['\''] != seq!['\n']) by {
        assert(seq!['\''][0] != seq!['\n'][0]);
    }
    assert(seq!['('] != seq!['\n']) by {
        assert(seq!['('][0] != seq!['\n'][0]);
    }
    assert(seq!['['] != seq!['\n']) by {
        assert(seq!['['][0] != seq!['\n'][0]);
    }
    assert(seq!['{'] != seq!['\n']) by {
        assert(seq!['{'][0] != seq!['\n'][0]);
    }
    assert(char_width('"') == 1);
    assert(char_width('`') == 1);
    assert(char_width('\'') == 1);
    assert(char_width('(') == 1);
    assert(char_width('[') == 1);
    assert(char_width('{') == 1);
}


/// The pairs that belong together: brackets and their closing partners,
/// and each quote with itself.
pub open spec fn paired(open: char, close: char) -> bool {
    ||| open == '(' && close == ')'
    ||| open == '[' && close == ']'
    ||| open == '{' && close == '}'
    ||| open == '"' && close == '"'
    ||| open == '\'' && close == '\''
    ||| open == '`' && close == '`'
}

/// Inside a code block, backspace between the two halves of a pair deletes
/// both, leaving the cursor where the opening half was; between any other
/// two characters it does nothing special.
pub proof fn lemma_backspace_removes_pairs(t: Seq<char>, cursor: int, open: char, close: char)
    requires
        code_context_spec(t, cursor) is Some,
        previous_char_spec(t, cursor) == Some(open),
        next_char_spec(t, cursor) == Some(close),
    ensures
        paired(open, close) ==> smart_backspace_spec(t, cursor) == Some(
            CodeEditView {
                range: Range { start: (cursor - 1) as usize, end: (cursor + 1) as usize },
                text: Seq::<char>::empty(),
                cursor_after: cursor - 1,
            },
        ),
        !paired(open, close) ==> smart_backspace_spec(t, cursor) is None,
{
    assert(char_width('(') == 1 && char_width(')') == 1 && char_width('[') == 1 && char_width(']') == 1);
    assert(char_width('{') == 1 && char_width('}') == 1 && char_width('"') == 1 && char_width('\'') == 1);
    assert(char_width('`') == 1);
}

/// Inside a code block, typing a closing bracket right before the same
/// bracket, on a line with more than indentation before the cursor, steps
/// over it: nothing is inserted and the cursor moves past it.
pub proof fn lemma_closing_bracket_steps_over(t: Seq<char>, p: usize, close: char)
    requires
        code_context_spec(t, p as int) is Some,
        close == ')' || close == ']' || close == '}',
        next_char_spec(t, p as int) == Some(close),
        ({
            let k = char_index(t, p as int)->0;
            let before = t.subrange(line_head(t, k), k);
            before.len() == 0 || indent_len(before, 0) < before.len()
        }),
    ensures
        smart_insert_spec(t, Range { start: p, end: p }, seq![close]) == Some(
            CodeEditView { range: Range { start: p, end: p }, text: Seq::<char>::empty(), cursor_after: p + 1 },
        ),
{
    assert(seq![close] != seq!['\n']) by {
        assert(seq![close][0] != seq!['\n'][0]);
    }
    assert(char_width(')') == 1 && char_width(']') == 1 && char_width('}') == 1);
    assert(seq![close][0] == close);
}

} // verus!
