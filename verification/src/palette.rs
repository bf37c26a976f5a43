//! Ranking entries of the command palette and of the note finder by fuzzy
//! match score.
use std::path::PathBuf;

use fuzzy_matcher::skim::SkimMatcherV2;
use fuzzy_matcher::FuzzyMatcher;
use vstd::prelude::*;

use crate::command::{
    candidate_of, command_to_candidate, commands_info, Candidate, CandidateView, Command,
    CommandInfo,
};

verus! {

/// How many entries a list shows.
pub const MAX_RESULTS: usize = 15;

/// The score that the `fuzzy_matcher` crate's default skim matcher
/// (`SkimMatcherV2::default().fuzzy_match`) gives `choice` for `pattern`;
/// none when the pattern does not match.
pub uninterp spec fn skim_score(choice: Seq<char>, pattern: Seq<char>) -> Option<i64>;

/// Scores `choice` against `pattern` with the default skim matcher. An
/// empty pattern matches everything with score 0.
#[verifier::external_body]
pub(crate) fn fuzzy_score(choice: &str, pattern: &str) -> (r: Option<i64>)
    ensures
        r == skim_score(choice@, pattern@),
        pattern@.len() == 0 ==> r == Some(0i64),
{
    SkimMatcherV2::default().fuzzy_match(choice, pattern)
}

/// The larger of two optional scores; a missing score loses.
pub open spec fn opt_max(a: Option<i64>, b: Option<i64>) -> Option<i64> {
    match (a, b) {
        (Some(x), Some(y)) => Some(if x < y {
            y
        } else {
            x
        }),
        (Some(x), None) => Some(x),
        (None, y) => y,
    }
}

pub(crate) fn opt_max_exec(a: Option<i64>, b: Option<i64>) -> (r: Option<i64>)
    ensures
        r == opt_max(a, b),
{
    match (a, b) {
        (Some(x), Some(y)) => Some(if x < y {
            y
        } else {
            x
        }),
        (Some(x), None) => Some(x),
        (None, y) => y,
    }
}

/// The best score among the aliases.
pub open spec fn alias_best(aliases: Seq<Seq<char>>, q: Seq<char>) -> Option<i64>
    decreases aliases.len(),
{
    if aliases.len() == 0 {
        None
    } else {
        opt_max(alias_best(aliases.drop_last(), q), skim_score(aliases.last(), q))
    }
}

/// How well a command matches a query: the best score of its name,
/// description, id and aliases.
pub open spec fn command_score(c: CommandInfo, q: Seq<char>) -> Option<i64> {
    opt_max(
        opt_max(opt_max(skim_score(c.name, q), skim_score(c.description, q)), skim_score(c.id, q)),
        alias_best(c.aliases, q),
    )
}

// ─── Ordering by score ─────────────────────────────────────────────────────

/// From position `i` on, the first entry of `s` scoring below `score`, or
/// `s.len()`.
pub open spec fn first_below(s: Seq<(i64, usize)>, score: i64, i: int) -> int
    decreases s.len() - i,
{
    if i < 0 || i >= s.len() || s[i].0 < score {
        i
    } else {
        first_below(s, score, i + 1)
    }
}

/// `x` placed into the list `s` after every entry that scores at least as
/// much.
pub open spec fn insert_desc(s: Seq<(i64, usize)>, x: (i64, usize)) -> Seq<(i64, usize)> {
    let p = first_below(s, x.0, 0);
    s.take(p).push(x) + s.skip(p)
}

/// The entries ordered by score, highest first, entries with equal scores
/// in their original order (a stable sort).
pub open spec fn sort_desc(s: Seq<(i64, usize)>) -> Seq<(i64, usize)>
    decreases s.len(),
{
    if s.len() == 0 {
        s
    } else {
        insert_desc(sort_desc(s.drop_last()), s.last())
    }
}

/// Scores never increase along the list.
pub open spec fn sorted_desc(s: Seq<(i64, usize)>) -> bool {
    forall|i: int, j: int| 0 <= i < j < s.len() ==> s[i].0 >= s[j].0
}

proof fn lemma_first_below(s: Seq<(i64, usize)>, score: i64, i: int)
    requires
        0 <= i <= s.len(),
    ensures
        i <= first_below(s, score, i) <= s.len(),
        forall|k: int| i <= k < first_below(s, score, i) ==> s[k].0 >= score,
        first_below(s, score, i) < s.len() ==> s[first_below(s, score, i)].0 < score,
    decreases s.len() - i,
{
    if i < s.len() && s[i].0 >= score {
        lemma_first_below(s, score, i + 1);
    }
}

/// Inserting into an ordered list keeps it ordered.
proof fn lemma_insert_sorted(s: Seq<(i64, usize)>, x: (i64, usize))
    requires
        sorted_desc(s),
    ensures
        sorted_desc(insert_desc(s, x)),
        insert_desc(s, x).len() == s.len() + 1,
{
    let p = first_below(s, x.0, 0);
    lemma_first_below(s, x.0, 0);
    let r = insert_desc(s, x);
    assert forall|i: int, j: int| 0 <= i < j < r.len() implies r[i].0 >= r[j].0 by {
        if j < p {
            assert(r[i] == s[i] && r[j] == s[j]);
        } else if j == p {
            assert(r[i] == s[i]);
        } else if i < p {
            assert(r[i] == s[i] && r[j] == s[j - 1]);
        } else if i == p {
            assert(r[j] == s[j - 1]);
        } else {
            assert(r[i] == s[i - 1] && r[j] == s[j - 1]);
        }
    }
}

/// The list the palette shows is ordered best match first.
pub proof fn lemma_sort_desc_sorted(s: Seq<(i64, usize)>)
    ensures
        sorted_desc(sort_desc(s)),
        sort_desc(s).len() == s.len(),
    decreases s.len(),
{
    if s.len() > 0 {
        lemma_sort_desc_sorted(s.drop_last());
        lemma_insert_sorted(sort_desc(s.drop_last()), s.last());
    }
}

/// Sorts scored entries, highest score first, keeping the order of equal
/// scores.
fn sort_scored(items: &Vec<(i64, usize)>) -> (r: Vec<(i64, usize)>)
    ensures
        r@ == sort_desc(items@),
{
    let mut sorted: Vec<(i64, usize)> = Vec::new();
    let mut i: usize = 0;
    assert(items@.take(0) =~= Seq::<(i64, usize)>::empty());
    while i < items.len()
        invariant
            i <= items@.len(),
            sorted@ == sort_desc(items@.take(i as int)),
        decreases items@.len() - i,
    {
        let x = items[i];
        let mut p: usize = 0;
        while p < sorted.len() && sorted[p].0 >= x.0
            invariant
                p <= sorted@.len(),
                first_below(sorted@, x.0, p as int) == first_below(sorted@, x.0, 0),
            decreases sorted@.len() - p,
        {
            p = p + 1;
        }
        let ghost before = sorted@;
        sorted.insert(p, x);
        proof {
            assert(items@.take(i + 1).drop_last() =~= items@.take(i as int));
            assert(items@.take(i + 1).last() == x);
            assert(sorted@ =~= before.take(p as int).push(x) + before.skip(p as int));
        }
        i = i + 1;
    }
    assert(items@.take(items@.len() as int) =~= items@);
    sorted
}

// ─── The command palette ───────────────────────────────────────────────────

/// The commands with a score for `q`, each with its score and index, in
/// list order.
pub open spec fn scored_commands(cs: Seq<CommandInfo>, q: Seq<char>) -> Seq<(i64, usize)>
    decreases cs.len(),
{
    if cs.len() == 0 {
        Seq::<(i64, usize)>::empty()
    } else {
        let rest = scored_commands(cs.drop_last(), q);
        match command_score(cs.last(), q) {
            Some(s) => rest.push((s, (cs.len() - 1) as usize)),
            None => rest,
        }
    }
}

/// The entries the palette lists for `q` among `cs`: with no query the
/// first ones in order; otherwise those that match, best match first, at
/// most `MAX_RESULTS` of them.
pub open spec fn palette_spec(cs: Seq<CommandInfo>, q: Seq<char>) -> Seq<CandidateView> {
    if q.len() == 0 {
        let n = if cs.len() < MAX_RESULTS {
            cs.len() as int
        } else {
            MAX_RESULTS as int
        };
        Seq::new(n as nat, |i: int| candidate_of(cs[i]))
    } else {
        let ranked = sort_desc(scored_commands(cs, q));
        let n = if ranked.len() < MAX_RESULTS {
            ranked.len() as int
        } else {
            MAX_RESULTS as int
        };
        Seq::new(n as nat, |i: int| candidate_of(cs[ranked[i].1 as int]))
    }
}

/// The views of a list of candidates.
pub open spec fn candidates_view(cs: Seq<Candidate>) -> Seq<CandidateView> {
    cs.map_values(|c: Candidate| c@)
}

/// The best score of a command's aliases.
fn best_alias_score(aliases: &[&str], query: &str) -> (r: Option<i64>)
    ensures
        r == alias_best(aliases@.map_values(|a: &str| a@), query@),
{
    let ghost al = aliases@.map_values(|a: &str| a@);
    let mut best: Option<i64> = None;
    let mut i: usize = 0;
    assert(al.take(0) =~= Seq::<Seq<char>>::empty());
    while i < aliases.len()
        invariant
            i <= aliases@.len(),
            al == aliases@.map_values(|a: &str| a@),
            best == alias_best(al.take(i as int), query@),
        decreases aliases@.len() - i,
    {
        let s = fuzzy_score(aliases[i], query);
        proof {
            assert(al.take(i + 1).drop_last() =~= al.take(i as int));
            assert(al.take(i + 1).last() == aliases@[i as int]@);
        }
        best = opt_max_exec(best, s);
        i = i + 1;
    }
    assert(al.take(aliases@.len() as int) =~= al);
    best
}

/// How well a command matches the query.
fn score_command(c: &Command, query: &str) -> (r: Option<i64>)
    ensures
        r == command_score(c@, query@),
{
    let by_name = fuzzy_score(c.name, query);
    let by_description = fuzzy_score(c.description, query);
    let by_id = fuzzy_score(c.id, query);
    let by_alias = best_alias_score(c.aliases, query);
    opt_max_exec(opt_max_exec(opt_max_exec(by_name, by_description), by_id), by_alias)
}

/// The palette entries for `query` among the focused item's commands
/// followed by the global ones.
pub fn palette_candidates(item_cmds: &[Command], global_cmds: &[Command], query: &str) -> (r: Vec<
    Candidate,
>)
    ensures
        candidates_view(r@) == palette_spec(commands_info(item_cmds@ + global_cmds@), query@),
{
    let mut all: Vec<Command> = Vec::new();
    let mut i: usize = 0;
    while i < item_cmds.len()
        invariant
            i <= item_cmds@.len(),
            all@ == item_cmds@.take(i as int),
        decreases item_cmds@.len() - i,
    {
        all.push(item_cmds[i]);
        i = i + 1;
        assert(all@ =~= item_cmds@.take(i as int));
    }
    let mut j: usize = 0;
    while j < global_cmds.len()
        invariant
            i == item_cmds@.len(),
            j <= global_cmds@.len(),
            all@ == item_cmds@ + global_cmds@.take(j as int),
        decreases global_cmds@.len() - j,
    {
        all.push(global_cmds[j]);
        j = j + 1;
        assert(all@ =~= item_cmds@ + global_cmds@.take(j as int));
    }
    assert(item_cmds@.take(item_cmds@.len() as int) =~= item_cmds@);
    assert(global_cmds@.take(global_cmds@.len() as int) =~= global_cmds@);
    let ghost cs = commands_info(all@);
    let mut out: Vec<Candidate> = Vec::new();
    if query.unicode_len() == 0 {
        let mut k: usize = 0;
        while k < all.len() && k < MAX_RESULTS
            invariant
                k <= all@.len(),
                k <= MAX_RESULTS,
                cs == commands_info(all@),
                candidates_view(out@) =~= Seq::new(k as nat, |x: int| candidate_of(cs[x])),
            decreases all@.len() - k,
        {
            let c = command_to_candidate(&all[k]);
            assert(cs[k as int] == all@[k as int]@);
            let ghost before = out@;
            out.push(c);
            assert(candidates_view(out@) =~= candidates_view(before).push(c@));
            k = k + 1;
            assert(candidates_view(out@) =~= Seq::new(k as nat, |x: int| candidate_of(cs[x])));
        }
        return out;
    }
    let mut scored: Vec<(i64, usize)> = Vec::new();
    let mut k: usize = 0;
    assert(cs.take(0) =~= Seq::<CommandInfo>::empty());
    while k < all.len()
        invariant
            k <= all@.len(),
            cs == commands_info(all@),
            scored@ == scored_commands(cs.take(k as int), query@),
        decreases all@.len() - k,
    {
        let s = score_command(&all[k], query);
        proof {
            assert(cs.take(k + 1).drop_last() =~= cs.take(k as int));
            assert(cs.take(k + 1).last() == all@[k as int]@);
            assert(cs.take(k + 1).len() - 1 == k);
        }
        match s {
            Some(score) => {
                scored.push((score, k));
            },
            None => {},
        }
        k = k + 1;
    }
    assert(cs.take(all@.len() as int) =~= cs);
    let ranked = sort_scored(&scored);
    proof {
        lemma_scored_indices(cs, query@);
        lemma_sort_desc_keeps(scored@);
        assert forall|x: int| 0 <= x < ranked@.len() implies (#[trigger] ranked@[x]).1 < all@.len() by {
            assert(scored@.contains(ranked@[x]));
            let k = choose|k: int| 0 <= k < scored@.len() && scored@[k] == ranked@[x];
            assert(scored@[k].1 < cs.len());
        }
    }
    let mut m: usize = 0;
    while m < ranked.len() && m < MAX_RESULTS
        invariant
            m <= ranked@.len(),
            m <= MAX_RESULTS,
            cs == commands_info(all@),
            ranked@ == sort_desc(scored_commands(cs, query@)),
            forall|x: int| 0 <= x < ranked@.len() ==> (#[trigger] ranked@[x]).1 < all@.len(),
            candidates_view(out@) =~= Seq::new(
                m as nat,
                |x: int| candidate_of(cs[ranked@[x].1 as int]),
            ),
        decreases ranked@.len() - m,
    {
        let idx = ranked[m].1;
        let c = command_to_candidate(&all[idx]);
        assert(cs[idx as int] == all@[idx as int]@);
        let ghost before = out@;
        out.push(c);
        assert(candidates_view(out@) =~= candidates_view(before).push(c@));
        m = m + 1;
        assert(candidates_view(out@) =~= Seq::new(
            m as nat,
            |x: int| candidate_of(cs[ranked@[x].1 as int]),
        ));
    }
    out
}

/// Every scored entry refers to a command of the list.
proof fn lemma_scored_indices(cs: Seq<CommandInfo>, q: Seq<char>)
    ensures
        forall|x: int|
            0 <= x < scored_commands(cs, q).len() ==> (#[trigger] scored_commands(cs, q)[x]).1
                < cs.len(),
    decreases cs.len(),
{
    if cs.len() > 0 {
        let rest = scored_commands(cs.drop_last(), q);
        lemma_scored_indices(cs.drop_last(), q);
        assert forall|x: int| 0 <= x < scored_commands(cs, q).len() implies (#[trigger] scored_commands(
            cs,
            q,
        )[x]).1 < cs.len() by {
            if x < rest.len() {
                assert(scored_commands(cs, q)[x] == rest[x]);
            }
        }
    }
}

/// Sorting keeps the entries: each entry of the sorted list is one of the
/// original entries.
proof fn lemma_sort_desc_keeps(s: Seq<(i64, usize)>)
    ensures
        forall|x: int| 0 <= x < sort_desc(s).len() ==> s.contains(#[trigger] sort_desc(s)[x]),
        sort_desc(s).len() == s.len(),
    decreases s.len(),
{
    if s.len() > 0 {
        let t = s.drop_last();
        lemma_sort_desc_keeps(t);
        let sorted = sort_desc(t);
        let p = first_below(sorted, s.last().0, 0);
        lemma_first_below(sorted, s.last().0, 0);
        let r = sort_desc(s);
        assert forall|x: int| 0 <= x < r.len() implies s.contains(#[trigger] r[x]) by {
            if x < p {
                assert(r[x] == sorted[x]);
                assert(t.contains(sorted[x]));
                let k = choose|k: int| 0 <= k < t.len() && t[k] == sorted[x];
                assert(s[k] == t[k]);
            } else if x == p {
                assert(r[x] == s[s.len() - 1]);
            } else {
                assert(r[x] == sorted[x - 1]);
                assert(t.contains(sorted[x - 1]));
                let k = choose|k: int| 0 <= k < t.len() && t[k] == sorted[x - 1];
                assert(s[k] == t[k]);
            }
        }
    }
}

// ─── The note finder ───────────────────────────────────────────────────────

/// The titles with a score for `q`, each with its score and index, in list
/// order.
pub open spec fn scored_titles(ts: Seq<Seq<char>>, q: Seq<char>) -> Seq<(i64, usize)>
    decreases ts.len(),
{
    if ts.len() == 0 {
        Seq::<(i64, usize)>::empty()
    } else {
        let rest = scored_titles(ts.drop_last(), q);
        match skim_score(ts.last(), q) {
            Some(s) => rest.push((s, (ts.len() - 1) as usize)),
            None => rest,
        }
    }
}

/// Which notes (by index) the finder lists for `q` among notes titled
/// `ts`: with no query the first ones in order; otherwise those whose title
/// matches, best match first, at most `MAX_RESULTS` of them.
pub open spec fn search_spec(ts: Seq<Seq<char>>, q: Seq<char>) -> Seq<int> {
    if q.len() == 0 {
        let n = if ts.len() < MAX_RESULTS {
            ts.len() as int
        } else {
            MAX_RESULTS as int
        };
        Seq::new(n as nat, |i: int| i)
    } else {
        let ranked = sort_desc(scored_titles(ts, q));
        let n = if ranked.len() < MAX_RESULTS {
            ranked.len() as int
        } else {
            MAX_RESULTS as int
        };
        Seq::new(n as nat, |i: int| ranked[i].1 as int)
    }
}

/// The titles of a list of notes.
pub open spec fn titles_of(notes: Seq<(String, PathBuf)>) -> Seq<Seq<char>> {
    notes.map_values(|n: (String, PathBuf)| n.0@)
}

/// `PathBuf::clone`: an equal path.
#[verifier::external_body]
fn clone_path(p: &PathBuf) -> (r: PathBuf)
    ensures
        r == *p,
{
    p.clone()
}

/// Every scored title refers to a note of the list.
proof fn lemma_scored_title_indices(ts: Seq<Seq<char>>, q: Seq<char>)
    ensures
        forall|x: int|
            0 <= x < scored_titles(ts, q).len() ==> (#[trigger] scored_titles(ts, q)[x]).1 < ts.len(),
    decreases ts.len(),
{
    if ts.len() > 0 {
        let rest = scored_titles(ts.drop_last(), q);
        lemma_scored_title_indices(ts.drop_last(), q);
        assert forall|x: int| 0 <= x < scored_titles(ts, q).len() implies (#[trigger] scored_titles(
            ts,
            q,
        )[x]).1 < ts.len() by {
            if x < rest.len() {
                assert(scored_titles(ts, q)[x] == rest[x]);
            }
        }
    }
}

/// The notes the finder lists for `query`, given the notes that can be
/// opened with their titles.
pub fn search_titles(notes: &Vec<(String, PathBuf)>, query: &str) -> (r: Vec<(String, PathBuf)>)
    ensures
        r@.len() == search_spec(titles_of(notes@), query@).len(),
        forall|i: int|
            0 <= i < r@.len() ==> {
                let k = search_spec(titles_of(notes@), query@)[i];
                0 <= k < notes@.len() && (#[trigger] r@[i]).0@ == notes@[k].0@ && r@[i].1
                    == notes@[k].1
            },
{
    let ghost ts = titles_of(notes@);
    let mut picks: Vec<usize> = Vec::new();
    if query.unicode_len() == 0 {
        let mut k: usize = 0;
        while k < notes.len() && k < MAX_RESULTS
            invariant
                k <= notes@.len(),
                k <= MAX_RESULTS,
                picks@ =~= Seq::new(k as nat, |x: int| x as usize),
            decreases notes@.len() - k,
        {
            picks.push(k);
            k = k + 1;
            assert(picks@ =~= Seq::new(k as nat, |x: int| x as usize));
        }
    } else {
        let mut scored: Vec<(i64, usize)> = Vec::new();
        let mut k: usize = 0;
        assert(ts.take(0) =~= Seq::<Seq<char>>::empty());
        while k < notes.len()
            invariant
                k <= notes@.len(),
                ts == titles_of(notes@),
                scored@ == scored_titles(ts.take(k as int), query@),
            decreases notes@.len() - k,
        {
            let s = fuzzy_score(notes[k].0.as_str(), query);
            proof {
                assert(ts.take(k + 1).drop_last() =~= ts.take(k as int));
                assert(ts.take(k + 1).last() == notes@[k as int].0@);
            }
            match s {
                Some(score) => {
                    scored.push((score, k));
                },
                None => {},
            }
            k = k + 1;
        }
        assert(ts.take(notes@.len() as int) =~= ts);
        let ranked = sort_scored(&scored);
        let mut m: usize = 0;
        while m < ranked.len() && m < MAX_RESULTS
            invariant
                m <= ranked@.len(),
                m <= MAX_RESULTS,
                picks@ =~= Seq::new(m as nat, |x: int| ranked@[x].1),
            decreases ranked@.len() - m,
        {
            picks.push(ranked[m].1);
            m = m + 1;
            assert(picks@ =~= Seq::new(m as nat, |x: int| ranked@[x].1));
        }
        proof {
            lemma_scored_title_indices(ts, query@);
            lemma_sort_desc_keeps(scored@);
            lemma_sort_desc_sorted(scored@);
            assert forall|x: int| 0 <= x < ranked@.len() implies (#[trigger] ranked@[x]).1
                < notes@.len() by {
                assert(scored@.contains(ranked@[x]));
                let j = choose|j: int| 0 <= j < scored@.len() && scored@[j] == ranked@[x];
                assert(scored@[j].1 < ts.len());
            }
        }
    }
    assert forall|x: int| 0 <= x < picks@.len() implies picks@[x] as int == search_spec(
        ts,
        query@,
    )[x] && #[trigger] picks@[x] < notes@.len() by {}
    let mut out: Vec<(String, PathBuf)> = Vec::new();
    let mut i: usize = 0;
    while i < picks.len()
        invariant
            i <= picks@.len(),
            picks@.len() == search_spec(ts, query@).len(),
            ts == titles_of(notes@),
            forall|x: int| 0 <= x < picks@.len() ==> picks@[x] as int == search_spec(ts, query@)[x]
                && #[trigger] picks@[x] < notes@.len(),
            out@.len() == i,
            forall|x: int|
                0 <= x < i ==> (#[trigger] out@[x]).0@ == notes@[picks@[x] as int].0@ && out@[x].1
                    == notes@[picks@[x] as int].1,
        decreases picks@.len() - i,
    {
        let k = picks[i];
        let title = notes[k].0.clone();
        let path = clone_path(&notes[k].1);
        out.push((title, path));
        i = i + 1;
    }
    out
}

// ─── Ranking by scores ─────────────────────────────────────────────────────

/// The entries that have a score, each with its score and index, in list
/// order.
pub open spec fn scored_seq(scores: Seq<Option<i64>>) -> Seq<(i64, usize)>
    decreases scores.len(),
{
    if scores.len() == 0 {
        Seq::<(i64, usize)>::empty()
    } else {
        let rest = scored_seq(scores.drop_last());
        match scores.last() {
            Some(s) => rest.push((s, (scores.len() - 1) as usize)),
            None => rest,
        }
    }
}

/// `n` capped at `MAX_RESULTS`.
pub open spec fn capped(n: int) -> int {
    if n < MAX_RESULTS {
        n
    } else {
        MAX_RESULTS as int
    }
}

/// Which entries a list shows, by index: with `all`, the first ones in
/// order; otherwise those with a score, best first (equal scores in list
/// order), at most `MAX_RESULTS` of them.
pub open spec fn rank_spec(scores: Seq<Option<i64>>, all: bool) -> Seq<int> {
    if all {
        Seq::new(capped(scores.len() as int) as nat, |i: int| i)
    } else {
        let ranked = sort_desc(scored_seq(scores));
        Seq::new(capped(ranked.len() as int) as nat, |i: int| ranked[i].1 as int)
    }
}

/// Every scored entry refers to an entry of the list.
proof fn lemma_scored_seq_indices(scores: Seq<Option<i64>>)
    ensures
        forall|x: int|
            0 <= x < scored_seq(scores).len() ==> (#[trigger] scored_seq(scores)[x]).1 < scores.len(),
    decreases scores.len(),
{
    if scores.len() > 0 {
        let rest = scored_seq(scores.drop_last());
        lemma_scored_seq_indices(scores.drop_last());
        assert forall|x: int| 0 <= x < scored_seq(scores).len() implies (#[trigger] scored_seq(
            scores,
        )[x]).1 < scores.len() by {
            if x < rest.len() {
                assert(scored_seq(scores)[x] == rest[x]);
            }
        }
    }
}

/// Every scored entry carries the score of the entry it refers to.
pub proof fn lemma_scored_seq_scores(scores: Seq<Option<i64>>)
    requires
        scores.len() <= usize::MAX,
    ensures
        forall|x: int|
            0 <= x < scored_seq(scores).len() ==> (#[trigger] scored_seq(scores)[x]).1 < scores.len()
                && scores[scored_seq(scores)[x].1 as int] == Some(scored_seq(scores)[x].0),
    decreases scores.len(),
{
    if scores.len() > 0 {
        let rest = scored_seq(scores.drop_last());
        lemma_scored_seq_scores(scores.drop_last());
        assert forall|x: int| 0 <= x < scored_seq(scores).len() implies (#[trigger] scored_seq(
            scores,
        )[x]).1 < scores.len() && scores[scored_seq(scores)[x].1 as int] == Some(
            scored_seq(scores)[x].0,
        ) by {
            if x < rest.len() {
                assert(scored_seq(scores)[x] == rest[x]);
                assert(scores.drop_last()[rest[x].1 as int] == scores[rest[x].1 as int]);
            }
        }
    }
}

/// The entries a ranking shows have a score, unless it shows all.
pub proof fn lemma_rank_scored(scores: Seq<Option<i64>>, all: bool)
    requires
        scores.len() <= usize::MAX,
    ensures
        forall|i: int|
            0 <= i < rank_spec(scores, all).len() ==> 0 <= #[trigger] rank_spec(scores, all)[i]
                < scores.len() && (!all ==> scores[rank_spec(scores, all)[i]] is Some),
{
    lemma_scored_seq_scores(scores);
    lemma_sort_desc_keeps(scored_seq(scores));
    let ranked = sort_desc(scored_seq(scores));
    assert forall|i: int| 0 <= i < rank_spec(scores, all).len() implies 0 <= #[trigger] rank_spec(
        scores,
        all,
    )[i] < scores.len() && (!all ==> scores[rank_spec(scores, all)[i]] is Some) by {
        if !all {
            assert(scored_seq(scores).contains(ranked[i]));
            let j = choose|j: int| 0 <= j < scored_seq(scores).len() && scored_seq(scores)[j] == ranked[i];
            assert(scored_seq(scores)[j].1 < scores.len());
        }
    }
}

/// Which entries to show, by index, given each entry's score (see
/// `rank_spec`).
pub fn rank(scores: &Vec<Option<i64>>, all: bool) -> (r: Vec<usize>)
    ensures
        r@.map_values(|i: usize| i as int) == rank_spec(scores@, all),
        forall|x: int| 0 <= x < r@.len() ==> #[trigger] r@[x] < scores@.len(),
{
    let mut picks: Vec<usize> = Vec::new();
    if all {
        let mut k: usize = 0;
        while k < scores.len() && k < MAX_RESULTS
            invariant
                k <= scores@.len(),
                k <= MAX_RESULTS,
                picks@ =~= Seq::new(k as nat, |x: int| x as usize),
            decreases scores@.len() - k,
        {
            picks.push(k);
            k = k + 1;
            assert(picks@ =~= Seq::new(k as nat, |x: int| x as usize));
        }
        assert(picks@.map_values(|i: usize| i as int) =~= rank_spec(scores@, all));
        return picks;
    }
    let mut scored: Vec<(i64, usize)> = Vec::new();
    let mut k: usize = 0;
    assert(scores@.take(0) =~= Seq::<Option<i64>>::empty());
    while k < scores.len()
        invariant
            k <= scores@.len(),
            scored@ == scored_seq(scores@.take(k as int)),
        decreases scores@.len() - k,
    {
        proof {
            assert(scores@.take(k + 1).drop_last() =~= scores@.take(k as int));
            assert(scores@.take(k + 1).last() == scores@[k as int]);
        }
        match scores[k] {
            Some(score) => {
                scored.push((score, k));
            },
            None => {},
        }
        k = k + 1;
    }
    assert(scores@.take(scores@.len() as int) =~= scores@);
    let ranked = sort_scored(&scored);
    let mut m: usize = 0;
    while m < ranked.len() && m < MAX_RESULTS
        invariant
            m <= ranked@.len(),
            m <= MAX_RESULTS,
            picks@ =~= Seq::new(m as nat, |x: int| ranked@[x].1),
        decreases ranked@.len() - m,
    {
        picks.push(ranked[m].1);
        m = m + 1;
        assert(picks@ =~= Seq::new(m as nat, |x: int| ranked@[x].1));
    }
    proof {
        lemma_scored_seq_indices(scores@);
        lemma_sort_desc_keeps(scored@);
        lemma_sort_desc_sorted(scored@);
        assert forall|x: int| 0 <= x < ranked@.len() implies (#[trigger] ranked@[x]).1 < scores@.len() by {
            assert(scored@.contains(ranked@[x]));
            let j = choose|j: int| 0 <= j < scored@.len() && scored@[j] == ranked@[x];
            assert(scored@[j].1 < scores@.len());
        }
        assert(picks@.map_values(|i: usize| i as int) =~= rank_spec(scores@, all));
    }
    picks
}

} // verus!
