//! Fenced code blocks: which lines open and close them, and which block
//! (and language) the cursor is in.
use vstd::prelude::*;

use crate::chars::{
    char_table, is_whitespace_char, lemma_byte_len_take, lemma_encode_push, lemma_line_tail,
    line_tail, unicode_whitespace, utf8_len, CharTable,
};
use crate::text::byte_len;

verus! {

// ─── Runs of characters ────────────────────────────────────────────────────

/// From `i` on, the first character of `s` that is not white space, or
/// `s.len()`.
pub open spec fn skip_ws(s: Seq<char>, i: int) -> int
    decreases s.len() - i,
{
    if 0 <= i < s.len() && unicode_whitespace(s[i]) {
        skip_ws(s, i + 1)
    } else {
        i
    }
}

/// From `i` on, the first white-space character of `s`, or `s.len()`.
pub open spec fn skip_word(s: Seq<char>, i: int) -> int
    decreases s.len() - i,
{
    if 0 <= i < s.len() && !unicode_whitespace(s[i]) {
        skip_word(s, i + 1)
    } else {
        i
    }
}

/// From `i` on, the first character of `s` other than `c`, or `s.len()`.
pub open spec fn skip_char(s: Seq<char>, i: int, c: char) -> int
    decreases s.len() - i,
{
    if 0 <= i < s.len() && s[i] == c {
        skip_char(s, i + 1, c)
    } else {
        i
    }
}

/// Back from `i`, the start of the run of white space that ends at `i`.
pub open spec fn back_ws(s: Seq<char>, i: int) -> int
    decreases i,
{
    if 0 < i <= s.len() && unicode_whitespace(s[i - 1]) {
        back_ws(s, i - 1)
    } else {
        i
    }
}

/// Back from `i`, the start of the run of other characters that ends at `i`.
pub open spec fn back_word(s: Seq<char>, i: int) -> int
    decreases i,
{
    if 0 < i <= s.len() && !unicode_whitespace(s[i - 1]) {
        back_word(s, i - 1)
    } else {
        i
    }
}

/// `s` without trailing white space (`str::trim_end`).
pub open spec fn trim_end(s: Seq<char>) -> Seq<char> {
    s.take(back_ws(s, s.len() as int))
}

/// `s` without leading or trailing white space (`str::trim`).
pub open spec fn trim(s: Seq<char>) -> Seq<char> {
    let u = trim_end(s);
    u.skip(skip_ws(u, 0))
}

/// The first word of `s` between white space, or nothing
/// (`split_whitespace().next().unwrap_or("")`).
pub open spec fn first_word(s: Seq<char>) -> Seq<char> {
    let a = skip_ws(s, 0);
    s.subrange(a, skip_word(s, a))
}

/// The last word of `s` between white space, or nothing
/// (`split_whitespace().last().unwrap_or("")`).
pub open spec fn last_word(s: Seq<char>) -> Seq<char> {
    let e = back_ws(s, s.len() as int);
    s.subrange(back_word(s, e), e)
}

pub proof fn lemma_skip_ws(s: Seq<char>, i: int)
    requires
        0 <= i <= s.len(),
    ensures
        i <= skip_ws(s, i) <= s.len(),
        forall|j: int| i <= j < skip_ws(s, i) ==> #[trigger] unicode_whitespace(s[j]),
        skip_ws(s, i) < s.len() ==> !unicode_whitespace(s[skip_ws(s, i)]),
    decreases s.len() - i,
{
    if i < s.len() && unicode_whitespace(s[i]) {
        lemma_skip_ws(s, i + 1);
    }
}

pub proof fn lemma_skip_word(s: Seq<char>, i: int)
    requires
        0 <= i <= s.len(),
    ensures
        i <= skip_word(s, i) <= s.len(),
    decreases s.len() - i,
{
    if i < s.len() && !unicode_whitespace(s[i]) {
        lemma_skip_word(s, i + 1);
    }
}

pub proof fn lemma_skip_char(s: Seq<char>, i: int, c: char)
    requires
        0 <= i <= s.len(),
    ensures
        i <= skip_char(s, i, c) <= s.len(),
    decreases s.len() - i,
{
    if i < s.len() && s[i] == c {
        lemma_skip_char(s, i + 1, c);
    }
}

pub proof fn lemma_back_ws(s: Seq<char>, i: int)
    requires
        0 <= i <= s.len(),
    ensures
        0 <= back_ws(s, i) <= i,
        back_ws(s, i) > 0 ==> !unicode_whitespace(s[back_ws(s, i) - 1]),
    decreases i,
{
    if i > 0 && unicode_whitespace(s[i - 1]) {
        lemma_back_ws(s, i - 1);
    }
}

pub proof fn lemma_back_word(s: Seq<char>, i: int)
    requires
        0 <= i <= s.len(),
    ensures
        0 <= back_word(s, i) <= i,
    decreases i,
{
    if i > 0 && !unicode_whitespace(s[i - 1]) {
        lemma_back_word(s, i - 1);
    }
}

/// The end of the run of white space in `s` that starts at `i`.
pub fn skip_ws_exec(s: &Vec<char>, i: usize) -> (r: usize)
    requires
        i <= s@.len(),
    ensures
        r == skip_ws(s@, i as int),
        i <= r <= s@.len(),
{
    proof {
        lemma_skip_ws(s@, i as int);
    }
    let mut j = i;
    while j < s.len() && is_whitespace_char(s[j])
        invariant
            i <= j <= s@.len(),
            skip_ws(s@, j as int) == skip_ws(s@, i as int),
        decreases s@.len() - j,
    {
        j = j + 1;
    }
    j
}

/// The end of the run of non-white-space characters in `s` that starts at `i`.
pub fn skip_word_exec(s: &Vec<char>, i: usize) -> (r: usize)
    requires
        i <= s@.len(),
    ensures
        r == skip_word(s@, i as int),
        i <= r <= s@.len(),
{
    proof {
        lemma_skip_word(s@, i as int);
    }
    let mut j = i;
    while j < s.len() && !is_whitespace_char(s[j])
        invariant
            i <= j <= s@.len(),
            skip_word(s@, j as int) == skip_word(s@, i as int),
        decreases s@.len() - j,
    {
        j = j + 1;
    }
    j
}

/// The start of the run of white space in `s` that ends at `i`.
pub fn back_ws_exec(s: &Vec<char>, i: usize) -> (r: usize)
    requires
        i <= s@.len(),
    ensures
        r == back_ws(s@, i as int),
        r <= i,
{
    proof {
        lemma_back_ws(s@, i as int);
    }
    let mut j = i;
    while j > 0 && is_whitespace_char(s[j - 1])
        invariant
            j <= i <= s@.len(),
            back_ws(s@, j as int) == back_ws(s@, i as int),
        decreases j,
    {
        j = j - 1;
    }
    j
}

/// The start of the run of non-white-space characters in `s` that ends at `i`.
pub fn back_word_exec(s: &Vec<char>, i: usize) -> (r: usize)
    requires
        i <= s@.len(),
    ensures
        r == back_word(s@, i as int),
        r <= i,
{
    proof {
        lemma_back_word(s@, i as int);
    }
    let mut j = i;
    while j > 0 && !is_whitespace_char(s[j - 1])
        invariant
            j <= i <= s@.len(),
            back_word(s@, j as int) == back_word(s@, i as int),
        decreases j,
    {
        j = j - 1;
    }
    j
}

/// The characters of `s` from `from` to `to`, copied.
pub fn copy_range(s: &Vec<char>, from: usize, to: usize) -> (r: Vec<char>)
    requires
        from <= to <= s@.len(),
    ensures
        r@ == s@.subrange(from as int, to as int),
{
    let mut r: Vec<char> = Vec::new();
    let mut i = from;
    while i < to
        invariant
            from <= i <= to <= s@.len(),
            r@ == s@.subrange(from as int, i as int),
        decreases to - i,
    {
        r.push(s[i]);
        i = i + 1;
        assert(r@ =~= s@.subrange(from as int, i as int));
    }
    r
}

/// `s` trimmed of white space at both ends (`str::trim`).
pub fn trimmed(s: &Vec<char>) -> (r: Vec<char>)
    ensures
        r@ == trim(s@),
{
    let e = back_ws_exec(s, s.len());
    let u = copy_range(s, 0, e);
    let a = skip_ws_exec(&u, 0);
    let r = copy_range(&u, a, u.len());
    assert(u@ =~= trim_end(s@));
    assert(r@ =~= u@.skip(a as int));
    r
}

// ─── Fence lines ───────────────────────────────────────────────────────────

/// A fence line: its marker character, how many times the marker repeats,
/// and the language named after it.
pub struct Fence {
    pub marker: char,
    pub marker_len: usize,
    pub language: Vec<char>,
}

/// What a fence holds.
pub open spec fn fence_view(f: Fence) -> (char, int, Seq<char>) {
    (f.marker, f.marker_len as int, f.language@)
}

/// The optional fence, viewed.
pub open spec fn opt_fence_view(f: Option<Fence>) -> Option<(char, int, Seq<char>)> {
    match f {
        Some(g) => Some(fence_view(g)),
        None => None,
    }
}

/// A line that opens or closes a fenced block: at most three bytes of
/// leading white space, then three or more backticks or tildes, then
/// optionally a language (the first word that follows).
pub open spec fn fence_spec(l: Seq<char>) -> Option<(char, int, Seq<char>)> {
    let lead = skip_ws(l, 0);
    if byte_len(l.take(lead)) > 3 || lead >= l.len() {
        None
    } else {
        let m = l[lead];
        let e = skip_char(l, lead, m);
        if (m != '`' && m != '~') || e - lead < 3 {
            None
        } else {
            Some((m, e - lead, first_word(l.skip(e))))
        }
    }
}

/// Whether the leading white space of `l`, up to character `lead`, takes
/// more than three bytes.
fn indent_too_wide(l: &Vec<char>, lead: usize) -> (r: bool)
    requires
        lead <= l@.len(),
    ensures
        r == (byte_len(l@.take(lead as int)) > 3),
{
    let mut acc: usize = 0;
    let mut i: usize = 0;
    proof {
        assert(l@.take(0) =~= Seq::<char>::empty());
    }
    while i < lead
        invariant
            i <= lead <= l@.len(),
            acc == byte_len(l@.take(i as int)),
            acc <= 3,
        decreases lead - i,
    {
        let w = utf8_len(l[i]);
        proof {
            assert(l@.take(i + 1) =~= l@.take(i as int).push(l@[i as int]));
            lemma_encode_push(l@.take(i as int), l@[i as int]);
        }
        if acc + w > 3 {
            proof {
                lemma_byte_len_take(l@, i + 1, lead as int);
                assert(l@.take(lead as int).take(i + 1) =~= l@.take(i + 1));
                lemma_byte_len_take(l@.take(lead as int), i + 1, lead as int);
            }
            return true;
        }
        acc = acc + w;
        i = i + 1;
    }
    false
}

/// Parses a line as a fence.
pub fn fence_line(line: &Vec<char>) -> (r: Option<Fence>)
    ensures
        opt_fence_view(r) == fence_spec(line@),
{
    let lead = skip_ws_exec(line, 0);
    if indent_too_wide(line, lead) || lead >= line.len() {
        return None;
    }
    let marker = line[lead];
    let mut e = lead;
    proof {
        lemma_skip_char(line@, lead as int, marker);
    }
    while e < line.len() && line[e] == marker
        invariant
            lead <= e <= line@.len(),
            skip_char(line@, e as int, marker) == skip_char(line@, lead as int, marker),
        decreases line@.len() - e,
    {
        e = e + 1;
    }
    if (marker != '`' && marker != '~') || e - lead < 3 {
        return None;
    }
    let rest = copy_range(line, e, line.len());
    let a = skip_ws_exec(&rest, 0);
    let b = skip_word_exec(&rest, a);
    let language = copy_range(&rest, a, b);
    proof {
        assert(rest@ =~= line@.skip(e as int));
    }
    Some(Fence { marker, marker_len: e - lead, language })
}

// ─── The block around the cursor ───────────────────────────────────────────

/// A fence closes the block that `open` opened: the same marker, at least
/// as long, and no language.
pub open spec fn closes(open: (char, int, Seq<char>), fence: Option<(char, int, Seq<char>)>) -> bool {
    match fence {
        Some(f) => f.0 == open.0 && f.1 >= open.1 && f.2.len() == 0,
        None => false,
    }
}

/// The block after a line that is not the cursor's: a fence with a
/// language opens one, a matching fence closes it.
pub open spec fn next_block(
    block: Option<(char, int, Seq<char>)>,
    fence: Option<(char, int, Seq<char>)>,
) -> Option<(char, int, Seq<char>)> {
    match block {
        None => match fence {
            Some(f) => if f.2.len() > 0 {
                fence
            } else {
                None
            },
            None => None,
        },
        Some(b) => if closes(b, fence) {
            None
        } else {
            block
        },
    }
}

/// Scanning the lines of `t` from the one that starts at character `pos`,
/// with `block` the block open there: the language of the block that holds
/// the cursor (at byte `cursor`), if it is in one. The cursor is on a line
/// when it is at most the line's end, or just past its newline; a cursor on
/// the closing fence itself is outside the block.
pub open spec fn context_from(
    t: Seq<char>,
    cursor: int,
    pos: int,
    block: Option<(char, int, Seq<char>)>,
) -> Option<Seq<char>>
    decreases t.len() - pos,
{
    if pos < 0 || pos >= t.len() {
        match block {
            Some(b) => Some(b.2),
            None => None,
        }
    } else {
        let e = line_tail(t, pos);
        let has_nl = e < t.len();
        let line_end = byte_len(t.take(e));
        let fence = fence_spec(t.subrange(pos, e));
        if cursor <= line_end || (has_nl && cursor == line_end + 1) {
            match block {
                Some(b) => if closes(b, fence) {
                    None
                } else {
                    Some(b.2)
                },
                None => None,
            }
        } else {
            proof {
                lemma_line_tail(t, pos);
            }
            context_from(
                t,
                cursor,
                if has_nl {
                    e + 1
                } else {
                    e
                },
                next_block(block, fence),
            )
        }
    }
}

/// The language of the fenced code block that holds byte `cursor` of `t`,
/// if the cursor is inside one that names a language.
pub open spec fn code_context_spec(t: Seq<char>, cursor: int) -> Option<Seq<char>> {
    context_from(t, cursor, 0, None)
}

/// The code block around the cursor.
pub struct CodeContext {
    pub language: Vec<char>,
}

/// Finds the fenced code block that holds `cursor`, if any.
pub fn code_context(content: &str, cursor: usize) -> (r: Option<CodeContext>)
    ensures
        match r {
            Some(c) => code_context_spec(content@, cursor as int) == Some(c.language@),
            None => code_context_spec(content@, cursor as int) is None,
        },
{
    let tbl = char_table(content);
    let n = tbl.chars.len();
    let mut pos: usize = 0;
    let mut block: Option<Fence> = None;
    while pos < n
        invariant
            tbl.describes(content@),
            n == content@.len(),
            pos <= n,
            context_from(content@, cursor as int, pos as int, opt_fence_view(block))
                == code_context_spec(content@, cursor as int),
        decreases n - pos,
    {
        let e = tbl.line_tail_of(pos);
        let has_nl = e < n;
        let line_end = tbl.starts[e];
        let line = copy_range(&tbl.chars, pos, e);
        let fence = fence_line(&line);
        if cursor <= line_end || (has_nl && cursor > line_end && cursor - 1 == line_end) {
            return match block {
                Some(b) => {
                    let closing = match &fence {
                        Some(f) => f.marker == b.marker && f.marker_len >= b.marker_len
                            && f.language.len() == 0,
                        None => false,
                    };
                    if closing {
                        None
                    } else {
                        Some(CodeContext { language: b.language })
                    }
                },
                None => None,
            };
        }
        let ghost old_block = opt_fence_view(block);
        block = match block {
            None => match fence {
                Some(f) => if f.language.len() > 0 {
                    Some(f)
                } else {
                    None
                },
                None => None,
            },
            Some(b) => {
                let closing = match &fence {
                    Some(f) => f.marker == b.marker && f.marker_len >= b.marker_len
                        && f.language.len() == 0,
                    None => false,
                };
                if closing {
                    None
                } else {
                    Some(b)
                }
            },
        };
        assert(opt_fence_view(block) == next_block(old_block, fence_spec(content@.subrange(pos as int, e as int))));
        pos = if has_nl {
            e + 1
        } else {
            e
        };
    }
    match block {
        Some(b) => Some(CodeContext { language: b.language }),
        None => None,
    }
}

} // verus!
