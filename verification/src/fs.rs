//! Note file names: slugs made from titles, titles taken from paths, and
//! the parts of a path (file name, stem, extension).
use vstd::prelude::*;

use crate::code_edit::fence::copy_range;
use crate::number::{decimal, decimal_digits};
use crate::text::{
    alphanumeric, ascii_lower, char_is_alphanumeric, chars_of, string_of, to_ascii_lower, to_owned,
};

verus! {

broadcast use vstd::string::group_string_axioms;

// ─── Slugs ─────────────────────────────────────────────────────────────────

/// What a title character becomes in a slug: alphanumerics are lower-cased
/// (ASCII letters only), spaces, underscores and hyphens become hyphens,
/// and anything else becomes `'\0'`, which is dropped.
pub open spec fn slug_map(c: char) -> char {
    if alphanumeric(c) {
        ascii_lower(c)
    } else if c == ' ' || c == '_' || c == '-' {
        '-'
    } else {
        '\0'
    }
}

/// The slug of the characters `s`, before its trailing hyphens go, and
/// whether the last kept character was a hyphen: runs of hyphens collapse
/// into one, and no hyphen leads.
pub open spec fn slug_fold(s: Seq<char>) -> (Seq<char>, bool)
    decreases s.len(),
{
    if s.len() == 0 {
        (Seq::<char>::empty(), false)
    } else {
        let (r, prev) = slug_fold(s.drop_last());
        let m = slug_map(s.last());
        if m == '\0' {
            (r, prev)
        } else if m == '-' {
            if !prev && r.len() > 0 {
                (r.push('-'), true)
            } else {
                (r, true)
            }
        } else {
            (r.push(m), false)
        }
    }
}

/// Where the trailing hyphens of `s` before `i` start.
pub open spec fn hyphens_back(s: Seq<char>, i: int) -> int
    decreases i,
{
    if 0 < i <= s.len() && s[i - 1] == '-' {
        hyphens_back(s, i - 1)
    } else {
        i
    }
}

/// The file name for a note titled `title`: its slug, without trailing
/// hyphens, followed by `.md`.
pub open spec fn slug_spec(title: Seq<char>) -> Seq<char> {
    let r = slug_fold(title).0;
    r.take(hyphens_back(r, r.len() as int)) + seq!['.', 'm', 'd']
}

proof fn lemma_hyphens_back(s: Seq<char>, i: int)
    requires
        0 <= i <= s.len(),
    ensures
        0 <= hyphens_back(s, i) <= i,
    decreases i,
{
    if i > 0 && s[i - 1] == '-' {
        lemma_hyphens_back(s, i - 1);
    }
}

/// Convert a title string into a filename-safe slug:
/// "My Cool Note" becomes "my-cool-note.md".
pub fn slugify(title: &str) -> (r: String)
    ensures
        r@ == slug_spec(title@),
        r@ == slug_stem(title@) + seq!['.', 'm', 'd'],
        slug_shaped(slug_stem(title@)),
        slug_spec(slug_stem(title@)) == r@,
{
    let cs = chars_of(title);
    let mut result: Vec<char> = Vec::new();
    let mut prev_hyphen = false;
    let mut i: usize = 0;
    proof {
        assert(title@.take(0) =~= Seq::<char>::empty());
    }
    while i < cs.len()
        invariant
            cs@ == title@,
            i <= cs@.len(),
            (result@, prev_hyphen) == slug_fold(title@.take(i as int)),
        decreases cs@.len() - i,
    {
        let c = cs[i];
        let m = if char_is_alphanumeric(c) {
            to_ascii_lower(c)
        } else if c == ' ' || c == '_' || c == '-' {
            '-'
        } else {
            '\0'
        };
        proof {
            assert(title@.take(i + 1).drop_last() =~= title@.take(i as int));
            assert(title@.take(i + 1).last() == c);
        }
        if m == '-' {
            if !prev_hyphen && result.len() > 0 {
                result.push('-');
            }
            prev_hyphen = true;
        } else if m != '\0' {
            result.push(m);
            prev_hyphen = false;
        }
        i = i + 1;
    }
    proof {
        assert(title@.take(cs@.len() as int) =~= title@);
        lemma_hyphens_back(result@, result@.len() as int);
    }
    let mut e = result.len();
    while e > 0 && result[e - 1] == '-'
        invariant
            e <= result@.len(),
            hyphens_back(result@, e as int) == hyphens_back(result@, result@.len() as int),
        decreases e,
    {
        e = e - 1;
    }
    let mut out: Vec<char> = Vec::new();
    let mut j: usize = 0;
    while j < e
        invariant
            e <= result@.len(),
            j <= e,
            out@ == result@.take(j as int),
        decreases e - j,
    {
        out.push(result[j]);
        j = j + 1;
        assert(out@ =~= result@.take(j as int));
    }
    out.push('.');
    out.push('m');
    out.push('d');
    assert(out@ =~= slug_spec(title@));
    proof {
        lemma_slug_shape(title@);
        lemma_slugify_idempotent(title@);
    }
    string_of(&out)
}

// ─── What every slug looks like ────────────────────────────────────────────

/// A character a slug may hold: a hyphen, or an alphanumeric character
/// that is no ASCII capital.
pub open spec fn slug_char(x: char) -> bool {
    x == '-' || (!('A' <= x <= 'Z') && alphanumeric(x))
}

/// The shape of a slug stem: slug characters, no hyphen first or last, and
/// no two hyphens in a row.
pub open spec fn slug_shaped(s: Seq<char>) -> bool {
    &&& forall|i: int| 0 <= i < s.len() ==> slug_char(#[trigger] s[i])
    &&& s.len() > 0 ==> s[0] != '-' && s.last() != '-'
    &&& forall|i: int| 0 < i < s.len() && #[trigger] s[i] == '-' ==> s[i - 1] != '-'
}

/// The slug of `title` without its `.md` extension.
pub open spec fn slug_stem(title: Seq<char>) -> Seq<char> {
    let r = slug_fold(title).0;
    r.take(hyphens_back(r, r.len() as int))
}

proof fn lemma_slug_map_char(c: char)
    ensures
        slug_map(c) == '\0' || slug_char(slug_map(c)),
{
    if alphanumeric(c) && 'A' <= c <= 'Z' {
        let l = ((c as u32) + 32) as char;
        assert('a' <= l <= 'z');
    }
}

proof fn lemma_slug_fold_shape(s: Seq<char>)
    ensures
        forall|i: int| 0 <= i < slug_fold(s).0.len() ==> slug_char(#[trigger] slug_fold(s).0[i]),
        slug_fold(s).0.len() > 0 ==> slug_fold(s).0[0] != '-',
        forall|i: int|
            0 < i < slug_fold(s).0.len() && #[trigger] slug_fold(s).0[i] == '-' ==> slug_fold(s).0[i - 1] != '-',
        slug_fold(s).0.len() > 0 && slug_fold(s).0.last() == '-' ==> slug_fold(s).1,
    decreases s.len(),
{
    if s.len() > 0 {
        lemma_slug_fold_shape(s.drop_last());
        lemma_slug_map_char(s.last());
        let (r, prev) = slug_fold(s.drop_last());
        let m = slug_map(s.last());
        if m != '\0' && (m != '-' || (!prev && r.len() > 0)) {
            let r2 = r.push(m);
            assert(slug_fold(s).0 == r2);
            assert forall|i: int| 0 <= i < r2.len() implies slug_char(#[trigger] r2[i]) by {
                if i < r.len() {
                    assert(r2[i] == r[i]);
                }
            }
            assert forall|i: int| 0 < i < r2.len() && #[trigger] r2[i] == '-' implies r2[i - 1] != '-' by {
                if i < r.len() {
                    assert(r2[i] == r[i]);
                }
                assert(r2[i - 1] == r[i - 1]);
            }
        }
    }
}

proof fn lemma_hyphens_back_stops(s: Seq<char>, i: int)
    requires
        0 <= i <= s.len(),
    ensures
        hyphens_back(s, i) == 0 || s[hyphens_back(s, i) - 1] != '-',
    decreases i,
{
    if i > 0 && s[i - 1] == '-' {
        lemma_hyphens_back_stops(s, i - 1);
    }
}

/// Every slug is its stem followed by `.md`, and the stem is slug-shaped:
/// hyphens and characters that are no ASCII capital, never a hyphen first
/// or last, and never two hyphens in a row.
pub proof fn lemma_slug_shape(title: Seq<char>)
    ensures
        slug_spec(title) == slug_stem(title) + seq!['.', 'm', 'd'],
        slug_shaped(slug_stem(title)),
{
    let r = slug_fold(title).0;
    lemma_slug_fold_shape(title);
    lemma_hyphens_back(r, r.len() as int);
    lemma_hyphens_back_stops(r, r.len() as int);
    let e = hyphens_back(r, r.len() as int);
    let st = r.take(e);
    assert forall|i: int| 0 <= i < st.len() implies slug_char(#[trigger] st[i]) by {
        assert(st[i] == r[i]);
    }
    assert forall|i: int| 0 < i < st.len() && #[trigger] st[i] == '-' implies st[i - 1] != '-' by {
        assert(st[i] == r[i]);
        assert(st[i - 1] == r[i - 1]);
    }
    if st.len() > 0 {
        assert(st[0] == r[0]);
        assert(st.last() == r[e - 1]);
    }
}

proof fn lemma_slug_fold_fixed(s: Seq<char>, k: int)
    requires
        slug_shaped(s),
        0 <= k <= s.len(),
    ensures
        slug_fold(s.take(k)) == (s.take(k), k > 0 && s[k - 1] == '-'),
    decreases k,
{
    if k > 0 {
        lemma_slug_fold_fixed(s, k - 1);
        assert(s.take(k).drop_last() =~= s.take(k - 1));
        let c = s[k - 1];
        assert(s.take(k).last() == c);
        assert(slug_char(c));
        if c != '-' {
            assert(alphanumeric(c));
            assert(slug_map(c) == c);
        } else {
            assert(k - 1 > 0);
            assert(s[k - 2] != '-');
        }
        assert(s.take(k - 1).push(c) =~= s.take(k));
    }
}

/// A slug made again from its own stem is the same slug.
pub proof fn lemma_slugify_idempotent(title: Seq<char>)
    ensures
        slug_spec(slug_stem(title)) == slug_spec(title),
{
    lemma_slug_shape(title);
    let st = slug_stem(title);
    lemma_slug_fold_fixed(st, st.len() as int);
    assert(st.take(st.len() as int) =~= st);
    if st.len() > 0 {
        assert(hyphens_back(st, st.len() as int) == st.len());
    }
    assert(st.take(st.len() as int) =~= st);
}

// ─── Paths ─────────────────────────────────────────────────────────────────

/// Where the path component that ends at `end` starts: just after the last
/// `/` before `end`, or 0.
pub open spec fn component_start(p: Seq<char>, end: int) -> int
    decreases end,
{
    if end <= 0 || end > p.len() {
        0
    } else if p[end - 1] == '/' {
        end
    } else {
        component_start(p, end - 1)
    }
}

/// Scanning back from `end`, the bounds of the last component of `p` that
/// is neither empty nor `.`.
pub open spec fn last_component(p: Seq<char>, end: int) -> Option<(int, int)>
    decreases end,
{
    if end <= 0 || end > p.len() {
        None
    } else {
        let s = component_start(p, end);
        if s == end || (end - s == 1 && p[s] == '.') {
            if s == 0 {
                None
            } else {
                last_component(p, s - 1)
            }
        } else {
            Some((s, end))
        }
    }
}

/// The final component of a path, unless the path ends in `..` or has
/// none (`Path::file_name`).
pub open spec fn file_name(p: Seq<char>) -> Option<Seq<char>> {
    match last_component(p, p.len() as int) {
        Some((s, e)) => {
            let c = p.subrange(s, e);
            if c == seq!['.', '.'] {
                None
            } else {
                Some(c)
            }
        },
        None => None,
    }
}

/// The index of the last `.` in `n` before `i`, or -1.
pub open spec fn last_dot(n: Seq<char>, i: int) -> int
    decreases i,
{
    if i <= 0 || i > n.len() {
        -1
    } else if n[i - 1] == '.' {
        i - 1
    } else {
        last_dot(n, i - 1)
    }
}

/// A file name without its extension (`Path::file_stem`): everything before
/// the last `.`, unless that dot starts the name.
pub open spec fn stem_of(n: Seq<char>) -> Seq<char> {
    let d = last_dot(n, n.len() as int);
    if d >= 1 {
        n.take(d)
    } else {
        n
    }
}

/// The extension of a file name (`Path::extension`): what follows the last
/// `.`, unless that dot starts the name.
pub open spec fn extension_of(n: Seq<char>) -> Option<Seq<char>> {
    let d = last_dot(n, n.len() as int);
    if d >= 1 {
        Some(n.skip(d + 1))
    } else {
        None
    }
}

/// The display title of the note at `path`: the file stem, or "untitled".
pub open spec fn title_spec(path: Seq<char>) -> Seq<char> {
    match file_name(path) {
        Some(n) => stem_of(n),
        None => seq!['u', 'n', 't', 'i', 't', 'l', 'e', 'd'],
    }
}

proof fn lemma_component_start(p: Seq<char>, end: int)
    requires
        0 <= end <= p.len(),
    ensures
        0 <= component_start(p, end) <= end,
    decreases end,
{
    if end > 0 && p[end - 1] != '/' {
        lemma_component_start(p, end - 1);
    }
}

proof fn lemma_last_component(p: Seq<char>, end: int)
    requires
        0 <= end <= p.len(),
    ensures
        match last_component(p, end) {
            Some((s, e)) => 0 <= s < e <= end,
            None => true,
        },
    decreases end,
{
    lemma_component_start(p, end);
    if end > 0 {
        let s = component_start(p, end);
        if s == end || (end - s == 1 && p[s] == '.') {
            if s > 0 {
                lemma_last_component(p, s - 1);
            }
        }
    }
}

proof fn lemma_last_dot(n: Seq<char>, i: int)
    requires
        0 <= i <= n.len(),
    ensures
        -1 <= last_dot(n, i) < i,
    decreases i,
{
    if i > 0 && n[i - 1] != '.' {
        lemma_last_dot(n, i - 1);
    }
}

fn component_start_exec(p: &Vec<char>, end: usize) -> (r: usize)
    requires
        end <= p@.len(),
    ensures
        r == component_start(p@, end as int),
        r <= end,
{
    proof {
        lemma_component_start(p@, end as int);
    }
    let mut i = end;
    while i > 0 && p[i - 1] != '/'
        invariant
            i <= end <= p@.len(),
            component_start(p@, i as int) == component_start(p@, end as int),
        decreases i,
    {
        i = i - 1;
    }
    i
}

/// The bounds of the file name of a path, as character indices.
pub(crate) fn file_name_bounds(p: &Vec<char>) -> (r: Option<(usize, usize)>)
    ensures
        match r {
            Some((s, e)) => s < e <= p@.len() && file_name(p@) == Some(p@.subrange(s as int, e as int)),
            None => file_name(p@) is None,
        },
{
    let mut end = p.len();
    proof {
        lemma_last_component(p@, end as int);
    }
    loop
        invariant
            end <= p@.len(),
            last_component(p@, end as int) == last_component(p@, p@.len() as int),
        decreases end,
    {
        if end == 0 {
            return None;
        }
        let s = component_start_exec(p, end);
        if s == end || (end - s == 1 && p[s] == '.') {
            if s == 0 {
                return None;
            }
            end = s - 1;
        } else {
            proof {
                lemma_last_component(p@, end as int);
                assert(last_component(p@, end as int) == Some((s as int, end as int)));
            }
            if end - s == 2 && p[s] == '.' && p[s + 1] == '.' {
                assert(p@.subrange(s as int, end as int) =~= seq!['.', '.']);
                return None;
            }
            proof {
                let c = p@.subrange(s as int, end as int);
                if c == seq!['.', '.'] {
                    assert(c.len() == seq!['.', '.'].len());
                    assert(seq!['.', '.'].len() == 2);
                    assert(c[0] == seq!['.', '.'][0]);
                    assert(c[1] == seq!['.', '.'][1]);
                    assert(c[0] == p@[s as int]);
                    assert(c[1] == p@[s + 1]);
                    assert(false);
                }
            }
            assert(file_name(p@) == Some(p@.subrange(s as int, end as int)));
            return Some((s, end));
        }
    }
}

/// The index of the last `.` in `n[from..to]`, if any.
fn last_dot_exec(n: &Vec<char>, from: usize, to: usize) -> (r: Option<usize>)
    requires
        from <= to <= n@.len(),
    ensures
        match r {
            Some(d) => from <= d < to && last_dot(n@.subrange(from as int, to as int), (to - from) as int)
                == d - from,
            None => last_dot(n@.subrange(from as int, to as int), (to - from) as int) == -1,
        },
{
    let ghost m = n@.subrange(from as int, to as int);
    let mut i = to;
    while i > from
        invariant
            from <= i <= to <= n@.len(),
            m == n@.subrange(from as int, to as int),
            last_dot(m, (i - from) as int) == last_dot(m, (to - from) as int),
        decreases i,
    {
        assert(m[i - 1 - from] == n@[i - 1]);
        if n[i - 1] == '.' {
            return Some(i - 1);
        }
        i = i - 1;
    }
    None
}

/// Extract a display title from a note path: the file stem, so
/// "my-note.md" gives "my-note"; "untitled" when the path names no file.
pub fn title_from_path(path: &str) -> (r: String)
    ensures
        r@ == title_spec(path@),
{
    let p = chars_of(path);
    match file_name_bounds(&p) {
        Some((s, e)) => {
            let ghost name = p@.subrange(s as int, e as int);
            let stem_end = match last_dot_exec(&p, s, e) {
                Some(d) => if d > s {
                    d
                } else {
                    e
                },
                None => e,
            };
            let mut out: Vec<char> = Vec::new();
            let mut i = s;
            while i < stem_end
                invariant
                    s <= i <= stem_end <= e <= p@.len(),
                    out@ == p@.subrange(s as int, i as int),
                decreases stem_end - i,
            {
                out.push(p[i]);
                i = i + 1;
                assert(out@ =~= p@.subrange(s as int, i as int));
            }
            assert(out@ =~= stem_of(name));
            string_of(&out)
        },
        None => {
            let r = crate::text::to_owned("untitled");
            proof {
                reveal_strlit("untitled");
                assert("untitled"@ =~= seq!['u', 'n', 't', 'i', 't', 'l', 'e', 'd']);
            }
            r
        },
    }
}

/// The extension of the file a path names, as character bounds.
pub fn extension_bounds(p: &Vec<char>) -> (r: Option<(usize, usize)>)
    ensures
        match r {
            Some((s, e)) => s <= e <= p@.len() && (file_name(p@) matches Some(n) && extension_of(n)
                == Some(p@.subrange(s as int, e as int))),
            None => (file_name(p@) matches Some(n) ==> extension_of(n) is None),
        },
{
    match file_name_bounds(p) {
        Some((s, e)) => match last_dot_exec(p, s, e) {
            Some(d) => if d > s {
                assert(p@.subrange(s as int, e as int).skip(d - s + 1) =~= p@.subrange(d + 1, e as int));
                Some((d + 1, e))
            } else {
                None
            },
            None => None,
        },
        None => None,
    }
}

// ─── Attachments ───────────────────────────────────────────────────────────

/// The `ix`-th alternative name for an attachment whose own name is taken:
/// `stem-ix.extension`, or `stem-ix` without an extension (or with an
/// empty one).
pub open spec fn attachment_name_spec(stem: Seq<char>, extension: Option<Seq<char>>, ix: nat) -> Seq<
    char,
> {
    match extension {
        Some(e) => if e.len() > 0 {
            stem + seq!['-'] + decimal(ix) + seq!['.'] + e
        } else {
            stem + seq!['-'] + decimal(ix)
        },
        None => stem + seq!['-'] + decimal(ix),
    }
}

/// An alternative name for an attachment whose own name is taken.
pub fn attachment_name(stem: &str, extension: Option<&str>, ix: usize) -> (r: String)
    ensures
        r@ == attachment_name_spec(stem@, match extension {
            Some(e) => Some(e@),
            None => None,
        }, ix as nat),
{
    let mut out = chars_of(stem);
    out.push('-');
    let digits = decimal_digits(ix);
    let mut i: usize = 0;
    let ghost base = out@;
    while i < digits.len()
        invariant
            i <= digits@.len(),
            out@ == base + digits@.take(i as int),
        decreases digits@.len() - i,
    {
        out.push(digits[i]);
        i = i + 1;
        assert(out@ =~= base + digits@.take(i as int));
    }
    assert(digits@.take(digits@.len() as int) =~= digits@);
    match extension {
        Some(e) => {
            let ext = chars_of(e);
            if ext.len() > 0 {
                out.push('.');
                let ghost before = out@;
                let mut j: usize = 0;
                while j < ext.len()
                    invariant
                        j <= ext@.len(),
                        out@ == before + ext@.take(j as int),
                    decreases ext@.len() - j,
                {
                    out.push(ext[j]);
                    j = j + 1;
                    assert(out@ =~= before + ext@.take(j as int));
                }
                assert(ext@.take(ext@.len() as int) =~= ext@);
            }
        },
        None => {},
    }
    string_of(&out)
}

// ─── Typed paths ───────────────────────────────────────────────────────────

/// `base` joined with `rest` (`Path::join`): `rest` itself when absolute,
/// else appended after a `/` unless `base` is empty or already ends in one.
pub open spec fn join_path(base: Seq<char>, rest: Seq<char>) -> Seq<char> {
    if rest.len() > 0 && rest[0] == '/' {
        rest
    } else if base.len() > 0 && base.last() != '/' {
        base + seq!['/'] + rest
    } else {
        base + rest
    }
}

/// A typed path with a leading `~` (and one `/` after it) standing for the
/// home directory `home`; unchanged when it has no `~` or the home
/// directory is unknown.
pub open spec fn expand_home(input: Seq<char>, home: Option<Seq<char>>) -> Seq<char> {
    if input.len() > 0 && input[0] == '~' {
        let after = input.skip(1);
        let rest = if after.len() > 0 && after[0] == '/' {
            after.skip(1)
        } else {
            after
        };
        match home {
            Some(h) => if rest.len() == 0 {
                h
            } else {
                join_path(h, rest)
            },
            None => input,
        }
    } else {
        input
    }
}

/// The typed path with `~` expanded to the home directory, if known.
pub fn expand_home_input(input: &str, home: Option<&str>) -> (r: String)
    ensures
        r@ == expand_home(
            input@,
            match home {
                Some(h) => Some(h@),
                None => None,
            },
        ),
{
    let cs = chars_of(input);
    if cs.len() == 0 || cs[0] != '~' {
        return string_of(&cs);
    }
    let h = match home {
        Some(h) => h,
        None => {
            return string_of(&cs);
        },
    };
    let from: usize = if cs.len() > 1 && cs[1] == '/' {
        2
    } else {
        1
    };
    let rest = copy_range(&cs, from, cs.len());
    proof {
        if from == 2 {
            assert(input@.skip(1).skip(1) =~= input@.skip(2));
        }
        assert(rest@ =~= if input@.skip(1).len() > 0 && input@.skip(1)[0] == '/' {
            input@.skip(1).skip(1)
        } else {
            input@.skip(1)
        });
    }
    if rest.len() == 0 {
        return to_owned(h);
    }
    if rest[0] == '/' {
        return string_of(&rest);
    }
    let mut out = chars_of(h);
    if out.len() > 0 && out[out.len() - 1] != '/' {
        out.push('/');
    }
    let ghost mid = out@;
    let mut i: usize = 0;
    while i < rest.len()
        invariant
            i <= rest@.len(),
            out@ == mid + rest@.take(i as int),
        decreases rest@.len() - i,
    {
        out.push(rest[i]);
        i = i + 1;
        assert(out@ =~= mid + rest@.take(i as int));
    }
    assert(rest@.take(i as int) =~= rest@);
    proof {
        if h@.len() > 0 && h@.last() != '/' {
            assert(mid =~= h@ + seq!['/']);
        } else {
            assert(mid =~= h@);
        }
    }
    string_of(&out)
}

} // verus!
