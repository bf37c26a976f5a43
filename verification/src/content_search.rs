//! Full-text search over the notes: counting occurrences of the query and
//! ranking the notes that hold it.
use vstd::prelude::*;

use crate::chars::{
    char_index, char_table, index_from, lemma_byte_len_take, lemma_byte_len_take_strict, line_tail,
    lemma_line_tail,
};
use crate::code_edit::fence::{copy_range, trim, trimmed};
use crate::command::{Candidate, CandidateView};
use crate::number::{decimal, decimal_digits};
use crate::palette::{candidates_view, capped, MAX_RESULTS};
use crate::ranking::{lemma_sort_ranked_len, rank_keys, ranked_order, sort_ranked, RankKey};
use crate::text::{byte_len, chars_of, lowercase, str_byte_len, string_of, to_lowercase, to_owned};

verus! {

broadcast use vstd::string::group_string_axioms;

/// The number of non-overlapping occurrences of `n` in `h` from character
/// `i` on, found left to right (`str::matches(..).count()`); an empty `n`
/// occurs at every position, the end included.
pub open spec fn occurrences(h: Seq<char>, n: Seq<char>, i: int) -> nat
    decreases h.len() - i,
{
    if i < 0 || i > h.len() {
        0
    } else if n.len() == 0 {
        (h.len() - i + 1) as nat
    } else if i + n.len() > h.len() {
        0
    } else if h.subrange(i, i + n.len()) == n {
        1 + occurrences(h, n, i + n.len())
    } else {
        occurrences(h, n, i + 1)
    }
}

proof fn lemma_occurrences_bound(h: Seq<char>, n: Seq<char>, i: int)
    requires
        0 <= i <= h.len(),
    ensures
        occurrences(h, n, i) <= h.len() - i + 1,
    decreases h.len() - i,
{
    if n.len() > 0 && i + n.len() <= h.len() {
        if h.subrange(i, i + n.len()) == n {
            lemma_occurrences_bound(h, n, i + n.len());
        } else {
            lemma_occurrences_bound(h, n, i + 1);
        }
    }
}

/// Whether `n` occurs in `h` at character `i`.
pub fn occurs_at(h: &Vec<char>, n: &Vec<char>, i: usize) -> (r: bool)
    requires
        i + n@.len() <= h@.len(),
    ensures
        r == (h@.subrange(i as int, i + n@.len()) == n@),
{
    let mut j: usize = 0;
    while j < n.len()
        invariant
            i + n@.len() <= h@.len(),
            j <= n@.len(),
            forall|k: int| 0 <= k < j ==> h@[i + k] == n@[k],
        decreases n@.len() - j,
    {
        let hl = h.len();
        assert(i + j < hl);
        if h[i + j] != n[j] {
            assert(h@.subrange(i as int, i + n@.len())[j as int] != n@[j as int]);
            return false;
        }
        j = j + 1;
    }
    assert(h@.subrange(i as int, i + n@.len()) =~= n@);
    true
}

/// How many times the non-empty `needle` occurs in `haystack`, without
/// overlaps.
pub fn count_matches(haystack: &str, needle: &str) -> (r: usize)
    requires
        needle@.len() > 0,
    ensures
        r == occurrences(haystack@, needle@, 0),
{
    let h = chars_of(haystack);
    let n = chars_of(needle);
    proof {
        lemma_occurrences_bound(h@, n@, 0);
    }
    let mut count: usize = 0;
    let mut i: usize = 0;
    while i <= h.len() && h.len() - i >= n.len()
        invariant
            i <= h@.len() + 1,
            n@.len() > 0,
            count + occurrences(h@, n@, i as int) == occurrences(h@, n@, 0),
            count <= i,
        decreases h@.len() + 1 - i,
    {
        if occurs_at(&h, &n, i) {
            count = count + 1;
            i = i + n.len();
        } else {
            i = i + 1;
        }
    }
    count
}

/// A note that holds the query: how often, its title and path, and a
/// snippet around the first occurrence.
#[derive(Debug, PartialEq, Eq)]
pub struct Hit {
    pub count: usize,
    pub title: String,
    pub path: String,
    pub snippet: String,
}

/// The keys of a list of hits.
pub open spec fn hit_keys(hs: Seq<Hit>) -> Seq<RankKey> {
    Seq::new(hs.len(), |i: int| (hs[i].count as nat, hs[i].title@, i))
}

/// The entry for a hit: its title, with the count when above one,
/// detailed by its snippet and carrying its path.
pub open spec fn hit_candidate(h: Hit) -> CandidateView {
    CandidateView {
        label: if h.count > 1 {
            h.title@ + " ("@ + decimal(h.count as nat) + "×)"@
        } else {
            h.title@
        },
        detail: Some(h.snippet@),
        is_action: false,
        data: h.path@,
    }
}

/// The content search's entries: the hits by rank, at most `MAX_RESULTS`.
pub open spec fn content_search_spec(hs: Seq<Hit>) -> Seq<CandidateView> {
    let ranked = sort_ranked(hit_keys(hs));
    Seq::new(capped(ranked.len() as int) as nat, |i: int| hit_candidate(hs[ranked[i].2]))
}

/// The content search's entries for the notes that hold the query.
pub fn content_search_candidates(hits: &Vec<Hit>) -> (r: Vec<Candidate>)
    ensures
        candidates_view(r@) == content_search_spec(hits@),
{
    let ghost keys = hit_keys(hits@);
    let mut weights: Vec<usize> = Vec::new();
    let mut names: Vec<String> = Vec::new();
    let mut i: usize = 0;
    while i < hits.len()
        invariant
            i <= hits@.len(),
            weights@.len() == i,
            names@.len() == i,
            forall|j: int| 0 <= j < i ==> #[trigger] weights@[j] == hits@[j].count && names@[j]@ == hits@[j].title@,
        decreases hits@.len() - i,
    {
        weights.push(hits[i].count);
        names.push(to_owned(hits[i].title.as_str()));
        i = i + 1;
    }
    let order = ranked_order(&weights, &names);
    assert(rank_keys(weights@, names@) =~= keys);
    proof {
        lemma_sort_ranked_len(keys);
    }
    let mut out: Vec<Candidate> = Vec::new();
    let mut m: usize = 0;
    while m < order.len() && m < MAX_RESULTS
        invariant
            m <= order@.len(),
            m <= MAX_RESULTS,
            order@.len() == hits@.len(),
            keys == hit_keys(hits@),
            order@.map_values(|k: usize| keys[k as int]) == sort_ranked(keys),
            forall|x: int| 0 <= x < order@.len() ==> #[trigger] order@[x] < hits@.len(),
            candidates_view(out@) == Seq::new(m as nat, |j: int| hit_candidate(hits@[sort_ranked(keys)[j].2])),
        decreases order@.len() - m,
    {
        let h = &hits[order[m]];
        let label = if h.count > 1 {
            let mut l = to_owned(h.title.as_str());
            l.append(" (");
            let digits = string_of(&decimal_digits(h.count));
            l.append(digits.as_str());
            l.append("×)");
            l
        } else {
            to_owned(h.title.as_str())
        };
        let c = Candidate {
            label,
            detail: Some(to_owned(h.snippet.as_str())),
            is_action: false,
            data: to_owned(h.path.as_str()),
        };
        let ghost before = out@;
        out.push(c);
        proof {
            assert(sort_ranked(keys)[m as int] == keys[order@[m as int] as int]);
            assert(keys[order@[m as int] as int].2 == order@[m as int] as int);
            assert(candidates_view(out@) =~= candidates_view(before).push(c@));
        }
        m = m + 1;
        assert(candidates_view(out@) =~= Seq::new(m as nat, |j: int| hit_candidate(hits@[sort_ranked(keys)[j].2])));
    }
    assert(candidates_view(out@) =~= content_search_spec(hits@));
    out
}

/// From character `i` on, the first position where `n` occurs in `h`.
pub open spec fn first_match_from(h: Seq<char>, n: Seq<char>, i: int) -> Option<int>
    decreases h.len() + 1 - i,
{
    if i < 0 || i + n.len() > h.len() {
        None
    } else if h.subrange(i, i + n.len()) == n {
        Some(i)
    } else {
        first_match_from(h, n, i + 1)
    }
}

proof fn lemma_first_match_from(h: Seq<char>, n: Seq<char>, i: int)
    requires
        0 <= i,
    ensures
        first_match_from(h, n, i) matches Some(q) ==> i <= q && q + n.len() <= h.len(),
    decreases h.len() + 1 - i,
{
    if i + n.len() <= h.len() && h.subrange(i, i + n.len()) != n {
        lemma_first_match_from(h, n, i + 1);
    }
}

/// The first position where `n` occurs in `h`.
pub fn find_chars(h: &Vec<char>, n: &Vec<char>) -> (r: Option<usize>)
    ensures
        match r {
            Some(q) => first_match_from(h@, n@, 0) == Some(q as int) && q + n@.len() <= h@.len(),
            None => first_match_from(h@, n@, 0) is None,
        },
{
    if n.len() > h.len() {
        return None;
    }
    let last = h.len() - n.len();
    let mut i: usize = 0;
    loop
        invariant
            last == h@.len() - n@.len(),
            i <= last,
            first_match_from(h@, n@, i as int) == first_match_from(h@, n@, 0),
        decreases last - i,
    {
        if occurs_at(h, n, i) {
            return Some(i);
        }
        if i == last {
            assert(first_match_from(h@, n@, i + 1) is None);
            return None;
        }
        i = i + 1;
    }
}

/// Where a snippet of `radius` characters before a match at character
/// `k` starts.
pub open spec fn snippet_start(k: int, radius: int) -> int {
    if radius == 0 || k <= radius {
        0
    } else {
        k - radius
    }
}

/// The snippet of `body` around the first match of `needle` in `lower`,
/// the lowercase form of `body`: the line of text from `radius` characters
/// before the match to `radius` bytes after it, trimmed, with `…` where
/// the text was cut; `…` alone when nothing matches. The match is found in
/// `lower` and its byte offset taken in `body`: none when that offset
/// falls inside a character of `body` or past its end.
pub open spec fn snippet_of(body: Seq<char>, lower: Seq<char>, needle: Seq<char>, radius: int) -> Option<
    Seq<char>,
> {
    match first_match_from(lower, needle, 0) {
        None => Some("…"@),
        Some(q) => {
            let pos = byte_len(lower.take(q)) as int;
            match char_index(body, pos) {
                None => None,
                Some(k) => {
                    let sc = snippet_start(k, radius);
                    let total = byte_len(body) as int;
                    let target = pos + byte_len(needle) + radius;
                    let ec = index_from(body, if target < total { target } else { total }, 0);
                    let cut = body.subrange(sc, ec);
                    let line = cut.take(line_tail(cut, 0));
                    let prefix = if sc > 0 { "…"@ } else { Seq::<char>::empty() };
                    let suffix = if ec < body.len() { "…"@ } else { Seq::<char>::empty() };
                    Some(prefix + trim(line) + suffix)
                },
            }
        },
    }
}

/// The snippet of `body` around the first match of `needle` in `lower`,
/// its lowercase form.
#[verifier::spinoff_prover]
pub fn snippet_in(body: &str, lower: &str, needle: &str, radius: usize) -> (r: Option<String>)
    ensures
        match r {
            Some(t) => snippet_of(body@, lower@, needle@, radius as int) == Some(t@),
            None => snippet_of(body@, lower@, needle@, radius as int) is None,
        },
{
    let lc = chars_of(lower);
    let nc = chars_of(needle);
    let q = match find_chars(&lc, &nc) {
        None => {
            return Some(to_owned("…"));
        },
        Some(q) => q,
    };
    let lt = char_table(lower);
    let pos = lt.starts[q];
    let bt = char_table(body);
    let k = match bt.index_of(pos) {
        None => {
            return None;
        },
        Some(k) => k,
    };
    let blen = bt.chars.len();
    let total = bt.starts[blen];
    proof {
        assert(body@.take(blen as int) =~= body@);
        lemma_byte_len_take(body@, k as int, blen as int);
    }
    let sc = if radius == 0 || k <= radius {
        0
    } else {
        k - radius
    };
    let nb = str_byte_len(needle);
    let e = if nb >= total - pos {
        total
    } else if radius >= total - pos - nb {
        total
    } else {
        pos + nb + radius
    };
    let mut ec: usize = 0;
    while ec < blen && bt.starts[ec] < e
        invariant
            bt.describes(body@),
            blen == body@.len(),
            ec <= blen,
            index_from(body@, e as int, ec as int) == index_from(body@, e as int, 0),
        decreases blen - ec,
    {
        ec = ec + 1;
    }
    proof {
        if ec < k {
            lemma_byte_len_take_strict(body@, ec as int, k as int);
        }
    }
    let cut = copy_range(&bt.chars, sc, ec);
    let mut t: usize = 0;
    proof {
        lemma_line_tail(cut@, 0);
    }
    while t < cut.len() && cut[t] != '\n'
        invariant
            t <= cut@.len(),
            line_tail(cut@, t as int) == line_tail(cut@, 0),
        decreases cut@.len() - t,
    {
        t = t + 1;
    }
    let line = copy_range(&cut, 0, t);
    let trimmed_line = trimmed(&line);
    let mut out = String::new();
    if sc > 0 {
        out.append("…");
    }
    out.append(string_of(&trimmed_line).as_str());
    if ec < blen {
        out.append("…");
    }
    proof {
        assert(line@ =~= cut@.take(line_tail(cut@, 0)));
        let prefix = if sc > 0 { "…"@ } else { Seq::<char>::empty() };
        let suffix = if ec < blen { "…"@ } else { Seq::<char>::empty() };
        assert(out@ =~= prefix + trim(line@) + suffix);
    }
    Some(out)
}

/// The snippet of `body` around the first match of `needle`, found case
/// insensitively: `needle` is lowercase and is looked for in the lowercase
/// form of `body`.
pub fn extract_snippet(body: &str, needle: &str, radius: usize) -> (r: Option<String>)
    ensures
        match r {
            Some(t) => snippet_of(body@, lowercase(body@), needle@, radius as int) == Some(t@),
            None => snippet_of(body@, lowercase(body@), needle@, radius as int) is None,
        },
{
    let lower = to_lowercase(body);
    snippet_in(body, lower.as_str(), needle, radius)
}

/// What searching one note for the query finds.
#[derive(Debug, PartialEq, Eq)]
pub enum NoteMatch {
    /// The query does not occur in the note.
    Absent,
    /// The note holds the query.
    Found(Hit),
    /// The query occurs, but its offset in the lowercase text falls inside
    /// a character of the note's own text, where no snippet can be cut.
    Uncut,
}

/// How many characters of context a search snippet shows before a match.
pub const SNIPPET_RADIUS: usize = 60;

/// The search needle for what was typed: the trimmed input in lowercase,
/// or none when only white space was typed.
pub fn search_needle(input: &str) -> (r: Option<String>)
    ensures
        r is None <==> trim(input@).len() == 0,
        r matches Some(t) ==> t@ == lowercase(trim(input@)),
{
    let t = trimmed(&chars_of(input));
    if t.len() == 0 {
        return None;
    }
    let s = string_of(&t);
    Some(to_lowercase(s.as_str()))
}

/// Searches one note, with title `title`, at `path` and holding `body`,
/// for the lowercase `needle`.
pub fn note_hit(needle: &str, title: &str, path: &str, body: &str) -> (r: NoteMatch)
    requires
        needle@.len() > 0,
    ensures
        ({
            let count = occurrences(lowercase(body@), needle@, 0);
            if count == 0 {
                r is Absent
            } else {
                match snippet_of(body@, lowercase(body@), needle@, SNIPPET_RADIUS as int) {
                    None => r is Uncut,
                    Some(sn) => r matches NoteMatch::Found(h) && h.count == count && h.title@ == title@
                        && h.path@ == path@ && h.snippet@ == sn,
                }
            }
        }),
{
    let lower = to_lowercase(body);
    let count = count_matches(lower.as_str(), needle);
    if count == 0 {
        return NoteMatch::Absent;
    }
    match extract_snippet(body, needle, SNIPPET_RADIUS) {
        None => NoteMatch::Uncut,
        Some(snippet) => NoteMatch::Found(
            Hit { count, title: to_owned(title), path: to_owned(path), snippet },
        ),
    }
}

} // verus!
