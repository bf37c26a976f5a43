//! The entries the minibuffer lists for notes, wikilinks, tags, orphan
//! notes and vaults, ranked by fuzzy match against what was typed.
use vstd::prelude::*;

use crate::code_edit::fence::copy_range;
use crate::content_search::{find_chars, first_match_from, occurs_at};
use crate::ranking::{lemma_sort_ranked_len, rank_keys, ranked_order, sort_ranked, RankKey};
use crate::resource::starts_with;
use crate::command::{Candidate, CandidateView};
use crate::fs::{extension_bounds, extension_of, file_name, file_name_bounds};
use crate::number::{decimal, decimal_digits};
use crate::palette::{
    alias_best, candidates_view, capped, fuzzy_score, lemma_rank_scored, opt_max, opt_max_exec, rank, rank_spec,
    skim_score, MAX_RESULTS,
};
use crate::resource::{is_pdf_path, is_pdf_path_spec};
use crate::text::{byte_len, str_byte_len, utf8_bytes};
use crate::undo::EditOp;
use crate::text::{chars_equal, chars_of, lowercase, str_eq, string_of, to_lowercase, to_owned};

verus! {

broadcast use vstd::string::group_string_axioms;

/// Joins two strings.
fn cat(a: &str, b: &str) -> (r: String)
    ensures
        r@ == a@ + b@,
{
    let mut r = to_owned(a);
    r.append(b);
    r
}

// ─── Tags ──────────────────────────────────────────────────────────────────

/// The entry for a tag used by `count` notes: `#tag`, detailed `N note(s)`.
pub open spec fn tag_candidate(tag: Seq<char>, count: nat) -> CandidateView {
    CandidateView {
        label: seq!['#'] + tag,
        detail: Some(decimal(count) + " note"@ + if count == 1 {
            Seq::<char>::empty()
        } else {
            "s"@
        }),
        is_action: false,
        data: tag,
    }
}

/// The tags (with their note counts) as plain values.
pub open spec fn tags_view(tags: Seq<(String, usize)>) -> Seq<(Seq<char>, nat)> {
    tags.map_values(|t: (String, usize)| (t.0@, t.1 as nat))
}

/// The tag list for `q`: all tags (the first ones) with no query, else
/// those that match, best first.
pub open spec fn tag_list_spec(tags: Seq<(Seq<char>, nat)>, q: Seq<char>) -> Seq<CandidateView> {
    let idx = rank_spec(tags.map_values(|t: (Seq<char>, nat)| skim_score(t.0, q)), q.len() == 0);
    Seq::new(idx.len(), |i: int| tag_candidate(tags[idx[i]].0, tags[idx[i]].1))
}

/// The entry for a tag.
fn build_tag(tag: &str, count: usize) -> (r: Candidate)
    ensures
        r@ == tag_candidate(tag@, count as nat),
{
    let label = cat("#", tag);
    let digits = string_of(&decimal_digits(count));
    let with_word = cat(digits.as_str(), " note");
    let detail = if count == 1 {
        with_word
    } else {
        cat(with_word.as_str(), "s")
    };
    proof {
        reveal_strlit("#");
        assert("#"@ =~= seq!['#']);
        assert(with_word@ + Seq::<char>::empty() =~= with_word@);
    }
    Candidate { label, detail: Some(detail), is_action: false, data: to_owned(tag) }
}

/// The minibuffer entries for the tags of the vault.
pub fn tag_list_candidates(tags: &[(String, usize)], query: &str) -> (r: Vec<Candidate>)
    ensures
        candidates_view(r@) == tag_list_spec(tags_view(tags@), query@),
{
    let ghost tv = tags_view(tags@);
    let mut scores: Vec<Option<i64>> = Vec::new();
    let mut k: usize = 0;
    while k < tags.len()
        invariant
            k <= tags@.len(),
            tv == tags_view(tags@),
            scores@ == tv.take(k as int).map_values(|t: (Seq<char>, nat)| skim_score(t.0, query@)),
        decreases tags@.len() - k,
    {
        scores.push(fuzzy_score(tags[k].0.as_str(), query));
        k = k + 1;
        assert(scores@ =~= tv.take(k as int).map_values(|t: (Seq<char>, nat)| skim_score(t.0, query@)));
    }
    assert(tv.take(k as int) =~= tv);
    let picks = rank(&scores, query.unicode_len() == 0);
    let ghost idx = rank_spec(scores@, query@.len() == 0);
    let mut out: Vec<Candidate> = Vec::new();
    let mut i: usize = 0;
    while i < picks.len()
        invariant
            i <= picks@.len(),
            tv == tags_view(tags@),
            scores@.len() == tags@.len(),
            picks@.map_values(|x: usize| x as int) == idx,
            forall|x: int| 0 <= x < picks@.len() ==> #[trigger] picks@[x] < scores@.len(),
            candidates_view(out@) == Seq::new(i as nat, |j: int| tag_candidate(tv[idx[j]].0, tv[idx[j]].1)),
        decreases picks@.len() - i,
    {
        let p = picks[i];
        assert(idx[i as int] == p as int);
        let c = build_tag(tags[p].0.as_str(), tags[p].1);
        let ghost before = out@;
        out.push(c);
        proof {
            assert(tv[p as int] == (tags@[p as int].0@, tags@[p as int].1 as nat));
            assert(candidates_view(out@) =~= candidates_view(before).push(c@));
        }
        i = i + 1;
        assert(candidates_view(out@) =~= Seq::new(i as nat, |j: int| tag_candidate(tv[idx[j]].0, tv[idx[j]].1)));
    }
    assert(candidates_view(out@) =~= tag_list_spec(tv, query@));
    out
}

// ─── Notes by title ────────────────────────────────────────────────────────

/// The entry for a note: its title, carrying its path.
pub open spec fn note_candidate(title: Seq<char>, path: Seq<char>) -> CandidateView {
    CandidateView { label: title, detail: None, is_action: false, data: path }
}

/// Notes (title, path) as plain values.
pub open spec fn notes_view(es: Seq<(String, String)>) -> Seq<(Seq<char>, Seq<char>)> {
    es.map_values(|e: (String, String)| (e.0@, e.1@))
}

/// The notes with a tag, for `q`: the first ones with no query, else those
/// whose title matches, best first.
pub open spec fn tag_notes_spec(es: Seq<(Seq<char>, Seq<char>)>, q: Seq<char>) -> Seq<CandidateView> {
    let idx = rank_spec(es.map_values(|e: (Seq<char>, Seq<char>)| skim_score(e.0, q)), q.len() == 0);
    Seq::new(idx.len(), |i: int| note_candidate(es[idx[i]].0, es[idx[i]].1))
}

/// The entry for a note.
fn build_note(title: &str, path: &str) -> (r: Candidate)
    ensures
        r@ == note_candidate(title@, path@),
{
    Candidate { label: to_owned(title), detail: None, is_action: false, data: to_owned(path) }
}

/// The minibuffer entries for the notes that carry a tag.
pub fn tag_notes_candidates(entries: &[(String, String)], query: &str) -> (r: Vec<Candidate>)
    ensures
        candidates_view(r@) == tag_notes_spec(notes_view(entries@), query@),
{
    let ghost ev = notes_view(entries@);
    let mut scores: Vec<Option<i64>> = Vec::new();
    let mut k: usize = 0;
    while k < entries.len()
        invariant
            k <= entries@.len(),
            ev == notes_view(entries@),
            scores@ == ev.take(k as int).map_values(|e: (Seq<char>, Seq<char>)| skim_score(e.0, query@)),
        decreases entries@.len() - k,
    {
        scores.push(fuzzy_score(entries[k].0.as_str(), query));
        k = k + 1;
        assert(scores@ =~= ev.take(k as int).map_values(|e: (Seq<char>, Seq<char>)| skim_score(e.0, query@)));
    }
    assert(ev.take(k as int) =~= ev);
    let picks = rank(&scores, query.unicode_len() == 0);
    let ghost idx = rank_spec(scores@, query@.len() == 0);
    let mut out: Vec<Candidate> = Vec::new();
    let mut i: usize = 0;
    while i < picks.len()
        invariant
            i <= picks@.len(),
            ev == notes_view(entries@),
            scores@.len() == entries@.len(),
            picks@.map_values(|x: usize| x as int) == idx,
            forall|x: int| 0 <= x < picks@.len() ==> #[trigger] picks@[x] < scores@.len(),
            candidates_view(out@) == Seq::new(i as nat, |j: int| note_candidate(ev[idx[j]].0, ev[idx[j]].1)),
        decreases picks@.len() - i,
    {
        let p = picks[i];
        assert(idx[i as int] == p as int);
        let c = build_note(entries[p].0.as_str(), entries[p].1.as_str());
        let ghost before = out@;
        out.push(c);
        proof {
            assert(ev[p as int] == (entries@[p as int].0@, entries@[p as int].1@));
            assert(candidates_view(out@) =~= candidates_view(before).push(c@));
        }
        i = i + 1;
        assert(candidates_view(out@) =~= Seq::new(i as nat, |j: int| note_candidate(ev[idx[j]].0, ev[idx[j]].1)));
    }
    assert(candidates_view(out@) =~= tag_notes_spec(ev, query@));
    out
}

// ─── Orphan notes ──────────────────────────────────────────────────────────

/// Orphan notes as plain values; `None` for an id the index cannot resolve.
pub open spec fn orphans_view(es: Seq<Option<(String, String)>>) -> Seq<Option<(Seq<char>, Seq<char>)>> {
    es.map_values(|e: Option<(String, String)>| match e {
        Some((t, p)) => Some((t@, p@)),
        None => None,
    })
}

/// The entries of the resolvable notes among `es`, in order.
pub open spec fn resolved(es: Seq<Option<(Seq<char>, Seq<char>)>>) -> Seq<CandidateView>
    decreases es.len(),
{
    if es.len() == 0 {
        Seq::empty()
    } else {
        let r = resolved(es.drop_last());
        match es.last() {
            Some((t, p)) => r.push(note_candidate(t, p)),
            None => r,
        }
    }
}

/// The score of an orphan for `q`: that of its title, none when it cannot
/// be resolved.
pub open spec fn orphan_score(e: Option<(Seq<char>, Seq<char>)>, q: Seq<char>) -> Option<i64> {
    match e {
        Some((t, _)) => skim_score(t, q),
        None => None,
    }
}

/// The orphan list for `q`: with no query, the resolvable ones among the
/// first `MAX_RESULTS`; otherwise the resolvable ones whose title matches,
/// best first, at most `MAX_RESULTS` of them.
pub open spec fn orphans_spec(es: Seq<Option<(Seq<char>, Seq<char>)>>, q: Seq<char>) -> Seq<CandidateView> {
    if q.len() == 0 {
        resolved(es.take(capped(es.len() as int)))
    } else {
        let idx = rank_spec(es.map_values(|e: Option<(Seq<char>, Seq<char>)>| orphan_score(e, q)), false);
        Seq::new(idx.len(), |i: int| match es[idx[i]] {
            Some((t, p)) => note_candidate(t, p),
            None => note_candidate(Seq::empty(), Seq::empty()),
        })
    }
}

/// The minibuffer entries for the orphan notes (the notes nothing links
/// to), each given as its title and path when the index resolves it.
pub fn orphan_candidates(entries: &[Option<(String, String)>], query: &str) -> (r: Vec<Candidate>)
    ensures
        candidates_view(r@) == orphans_spec(orphans_view(entries@), query@),
{
    let ghost ev = orphans_view(entries@);
    let mut out: Vec<Candidate> = Vec::new();
    if query.unicode_len() == 0 {
        let n = if entries.len() < MAX_RESULTS {
            entries.len()
        } else {
            MAX_RESULTS
        };
        let mut k: usize = 0;
        assert(ev.take(n as int).take(0) =~= Seq::<Option<(Seq<char>, Seq<char>)>>::empty());
        while k < n
            invariant
                k <= n <= entries@.len(),
                ev == orphans_view(entries@),
                candidates_view(out@) == resolved(ev.take(k as int)),
            decreases n - k,
        {
            let ghost before = out@;
            proof {
                assert(ev.take(k + 1).drop_last() =~= ev.take(k as int));
                assert(ev.take(k + 1).last() == ev[k as int]);
            }
            match &entries[k] {
                Some((t, p)) => {
                    let c = build_note(t.as_str(), p.as_str());
                    out.push(c);
                    assert(candidates_view(out@) =~= candidates_view(before).push(c@));
                },
                None => {},
            }
            k = k + 1;
        }
        return out;
    }
    let mut scores: Vec<Option<i64>> = Vec::new();
    let mut k: usize = 0;
    while k < entries.len()
        invariant
            k <= entries@.len(),
            ev == orphans_view(entries@),
            scores@ == ev.take(k as int).map_values(|e: Option<(Seq<char>, Seq<char>)>| orphan_score(e, query@)),
        decreases entries@.len() - k,
    {
        let s = match &entries[k] {
            Some((t, _)) => fuzzy_score(t.as_str(), query),
            None => None,
        };
        scores.push(s);
        k = k + 1;
        assert(scores@ =~= ev.take(k as int).map_values(|e: Option<(Seq<char>, Seq<char>)>| orphan_score(e, query@)));
    }
    assert(ev.take(k as int) =~= ev);
    let picks = rank(&scores, false);
    let ghost idx = rank_spec(scores@, false);
    proof {
        lemma_rank_scored(scores@, false);
    }
    let mut i: usize = 0;
    while i < picks.len()
        invariant
            i <= picks@.len(),
            ev == orphans_view(entries@),
            scores@.len() == entries@.len(),
            scores@ == ev.map_values(|e: Option<(Seq<char>, Seq<char>)>| orphan_score(e, query@)),
            picks@.map_values(|x: usize| x as int) == idx,
            idx == rank_spec(scores@, false),
            forall|x: int| 0 <= x < idx.len() ==> 0 <= #[trigger] idx[x] < scores@.len() && scores@[idx[x]] is Some,
            candidates_view(out@) == Seq::new(i as nat, |j: int| match ev[idx[j]] {
                Some((t, p)) => note_candidate(t, p),
                None => note_candidate(Seq::empty(), Seq::empty()),
            }),
        decreases picks@.len() - i,
    {
        let p = picks[i];
        assert(idx[i as int] == p as int);
        let ghost before = out@;
        match &entries[p] {
            Some((t, path)) => {
                let c = build_note(t.as_str(), path.as_str());
                out.push(c);
                assert(candidates_view(out@) =~= candidates_view(before).push(c@));
            },
            None => {
                assert(scores@[p as int] is Some);
                assert(false);
            },
        }
        i = i + 1;
        assert(candidates_view(out@) =~= Seq::new(i as nat, |j: int| match ev[idx[j]] {
            Some((t, p)) => note_candidate(t, p),
            None => note_candidate(Seq::empty(), Seq::empty()),
        }));
    }
    assert(candidates_view(out@) =~= orphans_spec(ev, query@));
    out
}

// ─── Vaults ────────────────────────────────────────────────────────────────

/// The name shown for a vault: the last component of its path, or `vault`.
pub open spec fn vault_name(path: Seq<char>) -> Seq<char> {
    match file_name(path) {
        Some(n) => n,
        None => "vault"@,
    }
}

/// The entry for a vault: its name, detailed and carrying its path.
pub open spec fn vault_candidate(path: Seq<char>) -> CandidateView {
    CandidateView { label: vault_name(path), detail: Some(path), is_action: false, data: path }
}

/// How well a vault matches `q`: by name or by path, whichever is better.
pub open spec fn vault_score(path: Seq<char>, q: Seq<char>) -> Option<i64> {
    opt_max(skim_score(vault_name(path), q), skim_score(path, q))
}

/// The vault switcher's list for `q` among the recent vaults' paths.
pub open spec fn vault_switch_spec(paths: Seq<Seq<char>>, q: Seq<char>) -> Seq<CandidateView> {
    let idx = rank_spec(paths.map_values(|p: Seq<char>| vault_score(p, q)), q.len() == 0);
    Seq::new(idx.len(), |i: int| vault_candidate(paths[idx[i]]))
}

/// The name shown for a vault.
fn vault_name_of(path: &str) -> (r: String)
    ensures
        r@ == vault_name(path@),
{
    let p = chars_of(path);
    match file_name_bounds(&p) {
        Some((s, e)) => {
            let n = copy_range(&p, s, e);
            string_of(&n)
        },
        None => {
            proof {
                reveal_strlit("vault");
            }
            to_owned("vault")
        },
    }
}

/// The paths as plain values.
pub open spec fn paths_view(ps: Seq<String>) -> Seq<Seq<char>> {
    ps.map_values(|p: String| p@)
}

/// The minibuffer entries for switching to a recent vault.
pub fn vault_switch_candidates(paths: &[String], query: &str) -> (r: Vec<Candidate>)
    ensures
        candidates_view(r@) == vault_switch_spec(paths_view(paths@), query@),
{
    let ghost pv = paths_view(paths@);
    let mut scores: Vec<Option<i64>> = Vec::new();
    let mut names: Vec<String> = Vec::new();
    let mut k: usize = 0;
    while k < paths.len()
        invariant
            k <= paths@.len(),
            pv == paths_view(paths@),
            scores@ == pv.take(k as int).map_values(|p: Seq<char>| vault_score(p, query@)),
            names@.len() == k,
            forall|j: int| 0 <= j < k ==> #[trigger] names@[j]@ == vault_name(pv[j]),
        decreases paths@.len() - k,
    {
        let name = vault_name_of(paths[k].as_str());
        let by_name = fuzzy_score(name.as_str(), query);
        let by_path = fuzzy_score(paths[k].as_str(), query);
        scores.push(opt_max_exec(by_name, by_path));
        names.push(name);
        k = k + 1;
        assert(scores@ =~= pv.take(k as int).map_values(|p: Seq<char>| vault_score(p, query@)));
    }
    assert(pv.take(k as int) =~= pv);
    let picks = rank(&scores, query.unicode_len() == 0);
    let ghost idx = rank_spec(scores@, query@.len() == 0);
    let mut out: Vec<Candidate> = Vec::new();
    let mut i: usize = 0;
    while i < picks.len()
        invariant
            i <= picks@.len(),
            pv == paths_view(paths@),
            scores@.len() == paths@.len(),
            names@.len() == paths@.len(),
            forall|j: int| 0 <= j < names@.len() ==> #[trigger] names@[j]@ == vault_name(pv[j]),
            picks@.map_values(|x: usize| x as int) == idx,
            forall|x: int| 0 <= x < picks@.len() ==> #[trigger] picks@[x] < scores@.len(),
            candidates_view(out@) == Seq::new(i as nat, |j: int| vault_candidate(pv[idx[j]])),
        decreases picks@.len() - i,
    {
        let p = picks[i];
        assert(idx[i as int] == p as int);
        let c = Candidate {
            label: names[p].clone(),
            detail: Some(paths[p].clone()),
            is_action: false,
            data: paths[p].clone(),
        };
        let ghost before = out@;
        out.push(c);
        proof {
            assert(pv[p as int] == paths@[p as int]@);
            assert(candidates_view(out@) =~= candidates_view(before).push(c@));
        }
        i = i + 1;
        assert(candidates_view(out@) =~= Seq::new(i as nat, |j: int| vault_candidate(pv[idx[j]])));
    }
    assert(candidates_view(out@) =~= vault_switch_spec(pv, query@));
    out
}

// ─── The note finder's entries ─────────────────────────────────────────────

/// The entry for a found note: PDF files are marked with a page icon.
pub open spec fn found_candidate(title: Seq<char>, path: Seq<char>) -> CandidateView {
    CandidateView {
        label: if is_pdf_path_spec(path) {
            "📄 "@ + title
        } else {
            title
        },
        detail: None,
        is_action: false,
        data: path,
    }
}

/// The note finder's entries for the notes found for `input`, followed by
/// an action to create a note titled `input` when something was typed and
/// no found title equals it (ignoring case).
pub open spec fn note_candidates_spec(found: Seq<(Seq<char>, Seq<char>)>, input: Seq<char>) -> Seq<CandidateView> {
    let has_exact = exists|i: int| 0 <= i < found.len() && lowercase(#[trigger] found[i].0) == lowercase(input);
    let listed = found.map_values(|f: (Seq<char>, Seq<char>)| found_candidate(f.0, f.1));
    if input.len() > 0 && !has_exact {
        listed.push(
            CandidateView {
                label: "+ Create \""@ + input + "\""@,
                detail: None,
                is_action: true,
                data: input,
            },
        )
    } else {
        listed
    }
}

/// The note finder's entries, given the notes found (title and path) for
/// what was typed.
pub fn note_candidates(found: &[(String, String)], input: &str) -> (r: Vec<Candidate>)
    ensures
        candidates_view(r@) == note_candidates_spec(notes_view(found@), input@),
{
    let ghost fv = notes_view(found@);
    let lowered_input = to_lowercase(input);
    let mut has_exact = false;
    let mut out: Vec<Candidate> = Vec::new();
    let mut k: usize = 0;
    while k < found.len()
        invariant
            k <= found@.len(),
            fv == notes_view(found@),
            lowered_input@ == lowercase(input@),
            has_exact == exists|i: int| 0 <= i < k && lowercase(#[trigger] fv[i].0) == lowercase(input@),
            candidates_view(out@) == fv.take(k as int).map_values(
                |f: (Seq<char>, Seq<char>)| found_candidate(f.0, f.1),
            ),
        decreases found@.len() - k,
    {
        let title = found[k].0.as_str();
        let path = found[k].1.as_str();
        let lowered = to_lowercase(title);
        let same = str_eq(lowered.as_str(), lowered_input.as_str());
        proof {
            assert(fv[k as int] == (found@[k as int].0@, found@[k as int].1@));
        }
        let ghost old_exact = has_exact;
        has_exact = has_exact || same;
        proof {
            if same {
                assert(lowercase(fv[k as int].0) == lowercase(input@));
            }
            if !has_exact {
                assert forall|i: int| 0 <= i < k + 1 implies !(lowercase(#[trigger] fv[i].0) == lowercase(
                    input@,
                )) by {
                    if i < k {
                        assert(!old_exact);
                    }
                }
            }
        }
        let label = if is_pdf_path(path) {
            let mut l = to_owned("📄 ");
            l.append(title);
            l
        } else {
            to_owned(title)
        };
        let c = Candidate { label, detail: None, is_action: false, data: to_owned(path) };
        let ghost before = out@;
        out.push(c);
        proof {
            assert(candidates_view(out@) =~= candidates_view(before).push(c@));
            assert(c@ == found_candidate(fv[k as int].0, fv[k as int].1));
            assert(fv.take(k + 1) =~= fv.take(k as int).push(fv[k as int]));
        }
        k = k + 1;
        assert(candidates_view(out@) =~= fv.take(k as int).map_values(
            |f: (Seq<char>, Seq<char>)| found_candidate(f.0, f.1),
        ));
    }
    assert(fv.take(k as int) =~= fv);
    if input.unicode_len() > 0 && !has_exact {
        let mut label = to_owned("+ Create \"");
        label.append(input);
        label.append("\"");
        let c = Candidate { label, detail: None, is_action: true, data: to_owned(input) };
        let ghost before = out@;
        out.push(c);
        assert(candidates_view(out@) =~= candidates_view(before).push(c@));
    }
    out
}

// ─── Wikilink completion ───────────────────────────────────────────────────

/// A note that a wikilink can point to: title, path and aliases.
pub open spec fn wiki_view(ns: Seq<(String, String, Vec<String>)>) -> Seq<(Seq<char>, Seq<char>, Seq<Seq<char>>)> {
    ns.map_values(|n: (String, String, Vec<String>)| (n.0@, n.1@, n.2@.map_values(|a: String| a@)))
}

/// The file a path names has exactly the extension `pdf`.
pub open spec fn pdf_extension(path: Seq<char>) -> bool {
    match file_name(path) {
        Some(n) => extension_of(n) == Some("pdf"@),
        None => false,
    }
}

/// The score of a note's own entry for `q`: 0 with no query, else its
/// title's score, else the best score of its aliases; none leaves the note
/// out.
pub open spec fn title_entry_score(n: (Seq<char>, Seq<char>, Seq<Seq<char>>), q: Seq<char>) -> Option<i64> {
    if q.len() == 0 {
        Some(0)
    } else {
        match skim_score(n.0, q) {
            Some(s) => Some(s),
            None => alias_best(n.2, q),
        }
    }
}

/// The score of an alias entry: 0 with no query, else the alias's score,
/// or half of `i64::MIN` when it does not match.
pub open spec fn alias_entry_score(a: Seq<char>, q: Seq<char>) -> i64 {
    if q.len() == 0 {
        0
    } else {
        match skim_score(a, q) {
            Some(s) => s,
            None => -4611686018427387904i64,
        }
    }
}

/// The entries (score, label, detail, title) of one note: the note
/// itself, then each alias, detailed `alias of <title>`; none for PDF files
/// and for notes that do not match.
pub open spec fn note_entries(n: (Seq<char>, Seq<char>, Seq<Seq<char>>), q: Seq<char>) -> Seq<(i64, Seq<char>, Option<Seq<char>>, Seq<char>)> {
    if pdf_extension(n.1) {
        Seq::empty()
    } else {
        match title_entry_score(n, q) {
            Some(ts) => seq![(ts, n.0, None::<Seq<char>>, n.0)] + n.2.map_values(
                |a: Seq<char>| (alias_entry_score(a, q), a, Some("alias of "@ + n.0), n.0),
            ),
            None => Seq::empty(),
        }
    }
}

/// The entries of all notes, note after note.
pub open spec fn wiki_entries(ns: Seq<(Seq<char>, Seq<char>, Seq<Seq<char>>)>, q: Seq<char>) -> Seq<(i64, Seq<char>, Option<Seq<char>>, Seq<char>)>
    decreases ns.len(),
{
    if ns.len() == 0 {
        Seq::empty()
    } else {
        wiki_entries(ns.drop_last(), q) + note_entries(ns.last(), q)
    }
}

/// The completion list for a wikilink: every entry in note order with no
/// query, else best first; at most `MAX_RESULTS`; each carrying the title
/// to link to.
pub open spec fn wikilink_spec(ns: Seq<(Seq<char>, Seq<char>, Seq<Seq<char>>)>, q: Seq<char>) -> Seq<CandidateView> {
    let es = wiki_entries(ns, q);
    let idx = rank_spec(es.map_values(|e: (i64, Seq<char>, Option<Seq<char>>, Seq<char>)| Some(e.0)), q.len() == 0);
    Seq::new(idx.len(), |i: int| CandidateView {
        label: es[idx[i]].1,
        detail: es[idx[i]].2,
        is_action: false,
        data: es[idx[i]].3,
    })
}

/// An entry as plain values.
pub open spec fn entry_view(e: (i64, String, Option<String>, String)) -> (i64, Seq<char>, Option<Seq<char>>, Seq<char>) {
    (e.0, e.1@, match e.2 {
        Some(d) => Some(d@),
        None => None,
    }, e.3@)
}

/// Whether a path names a file with exactly the extension `pdf`.
fn has_pdf_extension(path: &str) -> (r: bool)
    ensures
        r == pdf_extension(path@),
{
    let p = chars_of(path);
    match extension_bounds(&p) {
        Some((s, e)) => {
            let ext = copy_range(&p, s, e);
            chars_equal(&ext, "pdf")
        },
        None => false,
    }
}

/// The best score among a note's aliases.
fn best_alias(aliases: &Vec<String>, query: &str) -> (r: Option<i64>)
    ensures
        r == alias_best(aliases@.map_values(|a: String| a@), query@),
{
    let ghost al = aliases@.map_values(|a: String| a@);
    let mut best: Option<i64> = None;
    let mut i: usize = 0;
    assert(al.take(0) =~= Seq::<Seq<char>>::empty());
    while i < aliases.len()
        invariant
            i <= aliases@.len(),
            al == aliases@.map_values(|a: String| a@),
            best == alias_best(al.take(i as int), query@),
        decreases aliases@.len() - i,
    {
        let s = fuzzy_score(aliases[i].as_str(), query);
        proof {
            assert(al.take(i + 1).drop_last() =~= al.take(i as int));
        }
        best = opt_max_exec(best, s);
        i = i + 1;
    }
    assert(al.take(aliases@.len() as int) =~= al);
    best
}

/// Appends the entries of one note.
fn push_note_entries(
    out: &mut Vec<(i64, String, Option<String>, String)>,
    title: &str,
    path: &str,
    aliases: &Vec<String>,
    query: &str,
)
    ensures
        final(out)@.map_values(|e: (i64, String, Option<String>, String)| entry_view(e)) == old(
            out,
        )@.map_values(|e: (i64, String, Option<String>, String)| entry_view(e)) + note_entries(
            (title@, path@, aliases@.map_values(|a: String| a@)),
            query@,
        ),
{
    let ghost n = (title@, path@, aliases@.map_values(|a: String| a@));
    let ghost start = old(out)@.map_values(|e: (i64, String, Option<String>, String)| entry_view(e));
    if has_pdf_extension(path) {
        assert(start + Seq::<(i64, Seq<char>, Option<Seq<char>>, Seq<char>)>::empty() =~= start);
        return;
    }
    let empty = query.unicode_len() == 0;
    let title_score = if empty {
        Some(0i64)
    } else {
        match fuzzy_score(title, query) {
            Some(s) => Some(s),
            None => best_alias(aliases, query),
        }
    };
    let ts = match title_score {
        Some(t) => t,
        None => {
            assert(start + Seq::<(i64, Seq<char>, Option<Seq<char>>, Seq<char>)>::empty() =~= start);
            return;
        },
    };
    out.push((ts, to_owned(title), None, to_owned(title)));
    let ghost al = aliases@.map_values(|a: String| a@);
    let ghost tail = al.map_values(|a: Seq<char>| (alias_entry_score(a, query@), a, Some("alias of "@ + title@), title@));
    let mut i: usize = 0;
    while i < aliases.len()
        invariant
            i <= aliases@.len(),
            al == aliases@.map_values(|a: String| a@),
            tail == al.map_values(|a: Seq<char>| (alias_entry_score(a, query@), a, Some("alias of "@ + title@), title@)),
            empty == (query@.len() == 0),
            out@.map_values(|e: (i64, String, Option<String>, String)| entry_view(e)) == start + seq![
                (ts, title@, None::<Seq<char>>, title@),
            ] + tail.take(i as int),
        decreases aliases@.len() - i,
    {
        let alias = aliases[i].as_str();
        let score = if empty {
            0i64
        } else {
            match fuzzy_score(alias, query) {
                Some(s) => s,
                None => i64::MIN / 2,
            }
        };
        assert(i64::MIN / 2 == -4611686018427387904i64);
        let detail = {
            let mut d = to_owned("alias of ");
            d.append(title);
            d
        };
        let ghost before = out@;
        out.push((score, to_owned(alias), Some(detail), to_owned(title)));
        proof {
            assert(out@.map_values(|e: (i64, String, Option<String>, String)| entry_view(e)) =~= before.map_values(
                |e: (i64, String, Option<String>, String)| entry_view(e),
            ).push(tail[i as int]));
            assert(tail.take(i + 1) =~= tail.take(i as int).push(tail[i as int]));
        }
        i = i + 1;
    }
    assert(tail.take(i as int) =~= tail);
    assert(out@.map_values(|e: (i64, String, Option<String>, String)| entry_view(e)) =~= start + note_entries(n, query@));
}

/// The completion entries for a wikilink being typed, given the notes and
/// journal entries of the vault.
pub fn wikilink_candidates(notes: &[(String, String, Vec<String>)], query: &str) -> (r: Vec<Candidate>)
    ensures
        candidates_view(r@) == wikilink_spec(wiki_view(notes@), query@),
{
    let ghost nv = wiki_view(notes@);
    let mut entries: Vec<(i64, String, Option<String>, String)> = Vec::new();
    let mut k: usize = 0;
    assert(nv.take(0) =~= Seq::<(Seq<char>, Seq<char>, Seq<Seq<char>>)>::empty());
    while k < notes.len()
        invariant
            k <= notes@.len(),
            nv == wiki_view(notes@),
            entries@.map_values(|e: (i64, String, Option<String>, String)| entry_view(e)) == wiki_entries(
                nv.take(k as int),
                query@,
            ),
        decreases notes@.len() - k,
    {
        push_note_entries(&mut entries, notes[k].0.as_str(), notes[k].1.as_str(), &notes[k].2, query);
        proof {
            assert(nv.take(k + 1).drop_last() =~= nv.take(k as int));
            assert(nv.take(k + 1).last() == nv[k as int]);
        }
        k = k + 1;
    }
    assert(nv.take(k as int) =~= nv);
    let ghost ev = wiki_entries(nv, query@);
    let mut scores: Vec<Option<i64>> = Vec::new();
    let mut j: usize = 0;
    while j < entries.len()
        invariant
            j <= entries@.len(),
            entries@.map_values(|e: (i64, String, Option<String>, String)| entry_view(e)) == ev,
            scores@ == ev.take(j as int).map_values(|e: (i64, Seq<char>, Option<Seq<char>>, Seq<char>)| Some(e.0)),
        decreases entries@.len() - j,
    {
        scores.push(Some(entries[j].0));
        proof {
            assert(ev[j as int].0 == entries@[j as int].0);
        }
        j = j + 1;
        assert(scores@ =~= ev.take(j as int).map_values(|e: (i64, Seq<char>, Option<Seq<char>>, Seq<char>)| Some(e.0)));
    }
    assert(ev.take(j as int) =~= ev);
    let picks = rank(&scores, query.unicode_len() == 0);
    let ghost idx = rank_spec(scores@, query@.len() == 0);
    let mut out: Vec<Candidate> = Vec::new();
    let mut i: usize = 0;
    while i < picks.len()
        invariant
            i <= picks@.len(),
            entries@.map_values(|e: (i64, String, Option<String>, String)| entry_view(e)) == ev,
            scores@.len() == entries@.len(),
            picks@.map_values(|x: usize| x as int) == idx,
            forall|x: int| 0 <= x < picks@.len() ==> #[trigger] picks@[x] < scores@.len(),
            candidates_view(out@) == Seq::new(i as nat, |t: int| CandidateView {
                label: ev[idx[t]].1,
                detail: ev[idx[t]].2,
                is_action: false,
                data: ev[idx[t]].3,
            }),
        decreases picks@.len() - i,
    {
        let p = picks[i];
        assert(idx[i as int] == p as int);
        let e = &entries[p];
        let detail = match &e.2 {
            Some(d) => Some(d.clone()),
            None => None,
        };
        let c = Candidate { label: e.1.clone(), detail, is_action: false, data: e.3.clone() };
        let ghost before = out@;
        out.push(c);
        proof {
            assert(ev[p as int] == entry_view(entries@[p as int]));
            assert(candidates_view(out@) =~= candidates_view(before).push(c@));
        }
        i = i + 1;
        assert(candidates_view(out@) =~= Seq::new(i as nat, |t: int| CandidateView {
            label: ev[idx[t]].1,
            detail: ev[idx[t]].2,
            is_action: false,
            data: ev[idx[t]].3,
        }));
    }
    assert(candidates_view(out@) =~= wikilink_spec(nv, query@));
    out
}

/// Completing a wikilink: when the two bytes before the cursor are `[[`,
/// they are replaced by `[[title]]` and the cursor goes after it. The parts
/// are the start of the replaced range and the replacement.
pub open spec fn completion_spec(s: Seq<char>, cursor: int, title: Seq<char>) -> Option<(int, Seq<char>)> {
    let b = utf8_bytes(s);
    if 2 <= cursor <= b.len() && b[cursor - 2] == 91 && b[cursor - 1] == 91 {
        Some((cursor - 2, "[["@ + title + "]]"@))
    } else {
        None
    }
}

/// The edit that completes the wikilink being typed at the cursor with
/// `title`.
pub fn wikilink_completion_op(content: &str, cursor: usize, title: &str) -> (r: Option<EditOp>)
    requires
        utf8_bytes(content@).len() + byte_len(title@) + 4 <= usize::MAX,
    ensures
        match r {
            Some(op) => completion_spec(content@, cursor as int, title@) == Some((op.range.start as int, op.new_text@))
                && op.range.end == cursor && op.old_text@ == "[["@ && op.cursor_before == cursor
                && op.cursor_after == cursor + 2 + byte_len(title@),
            None => completion_spec(content@, cursor as int, title@) is None,
        },
{
    let bytes = content.as_bytes();
    if cursor < 2 || cursor > bytes.len() || bytes[cursor - 2] != 91 || bytes[cursor - 1] != 91 {
        return None;
    }
    let mut replacement = to_owned("[[");
    replacement.append(title);
    replacement.append("]]");
    let tl = str_byte_len(title);
    Some(EditOp {
        range: std::ops::Range { start: cursor - 2, end: cursor },
        old_text: to_owned("[["),
        new_text: replacement,
        cursor_before: cursor,
        cursor_after: cursor + 2 + tl,
    })
}

// ─── Themes ────────────────────────────────────────────────────────────────

/// The themes (id, name, description) as plain values.
pub open spec fn themes_view(ts: Seq<(String, String, String)>) -> Seq<(Seq<char>, Seq<char>, Seq<char>)> {
    ts.map_values(|t: (String, String, String)| (t.0@, t.1@, t.2@))
}

/// The theme picker shows a theme for the lowercase query `q` when `q` is
/// empty or occurs in the theme's lowercase name or in its id.
pub open spec fn theme_shown(t: (Seq<char>, Seq<char>, Seq<char>), q: Seq<char>) -> bool {
    ||| q.len() == 0
    ||| first_match_from(lowercase(t.1), q, 0) is Some
    ||| first_match_from(t.0, q, 0) is Some
}

/// The entry for a theme: its name, detailed by its description (marked
/// when it is the active theme), choosable unless active, carrying its id.
pub open spec fn theme_candidate(t: (Seq<char>, Seq<char>, Seq<char>), active: Seq<char>) -> CandidateView {
    CandidateView {
        label: t.1,
        detail: Some(
            if t.0 == active {
                t.2 + " (active)"@
            } else {
                t.2
            },
        ),
        is_action: t.0 != active,
        data: t.0,
    }
}

/// The theme picker's entries for the lowercase query `q`, in table order.
pub open spec fn theme_candidates_spec(
    ts: Seq<(Seq<char>, Seq<char>, Seq<char>)>,
    active: Seq<char>,
    q: Seq<char>,
) -> Seq<CandidateView> {
    ts.filter_map(theme_entry(active, q))
}

/// The entry for a theme when the picker shows it.
pub open spec fn theme_entry(active: Seq<char>, q: Seq<char>) -> spec_fn(
    (Seq<char>, Seq<char>, Seq<char>),
) -> Option<CandidateView> {
    |t: (Seq<char>, Seq<char>, Seq<char>)|
        if theme_shown(t, q) {
            Some(theme_candidate(t, active))
        } else {
            None
        }
}

/// Whether the characters `n` occur in `h`.
fn occurs_in(h: &str, n: &Vec<char>) -> (r: bool)
    ensures
        r == (first_match_from(h@, n@, 0) is Some),
{
    find_chars(&chars_of(h), n).is_some()
}

/// The theme picker's entries for what was typed, given the themes as
/// (id, name, description) and the id of the active theme.
#[verifier::spinoff_prover]
pub fn theme_candidates(themes: &[(String, String, String)], active: &str, input: &str) -> (r: Vec<Candidate>)
    ensures
        candidates_view(r@) == theme_candidates_spec(themes_view(themes@), active@, lowercase(input@)),
{
    let ghost tv = themes_view(themes@);
    let query = to_lowercase(input);
    let q = chars_of(query.as_str());
    let ghost f = theme_entry(active@, q@);
    let mut out: Vec<Candidate> = Vec::new();
    let mut k: usize = 0;
    assert(tv.take(0) =~= Seq::<(Seq<char>, Seq<char>, Seq<char>)>::empty());
    while k < themes.len()
        invariant
            k <= themes@.len(),
            tv == themes_view(themes@),
            q@ == lowercase(input@),
            f == theme_entry(active@, q@),
            candidates_view(out@) == tv.take(k as int).filter_map(f),
        decreases themes@.len() - k,
    {
        let t = &themes[k];
        let shown = q.len() == 0 || occurs_in(to_lowercase(t.1.as_str()).as_str(), &q) || occurs_in(
            t.0.as_str(),
            &q,
        );
        let ghost before = out@;
        proof {
            assert(tv[k as int] == (t.0@, t.1@, t.2@));
            assert(tv.take(k + 1).drop_last() =~= tv.take(k as int));
            assert(tv.take(k + 1).last() == tv[k as int]);
        }
        if shown {
            let is_active = str_eq(t.0.as_str(), active);
            let detail = if is_active {
                cat(t.2.as_str(), " (active)")
            } else {
                to_owned(t.2.as_str())
            };
            let c = Candidate { label: to_owned(t.1.as_str()), detail: Some(detail), is_action: !is_active, data: to_owned(t.0.as_str()) };
            out.push(c);
            proof {
                assert(candidates_view(out@) =~= candidates_view(before).push(c@));
                assert(c@ == theme_candidate(tv[k as int], active@));
                assert(candidates_view(out@) =~= tv.take(k + 1).filter_map(f));
            }
        } else {
            assert(tv.take(k + 1).filter_map(f) =~= tv.take(k as int).filter_map(f));
        }
        k = k + 1;
    }
    assert(tv.take(k as int) =~= tv);
    out
}

// ─── Opening a vault ───────────────────────────────────────────────────────

/// An optional text as plain value.
pub open spec fn opt_text(t: Option<&str>) -> Option<Seq<char>> {
    match t {
        Some(s) => Some(s@),
        None => None,
    }
}

/// The entry for a recent vault: its name, marked when it is the open
/// vault, detailed and carrying its path.
pub open spec fn recent_vault_candidate(path: Seq<char>, current: Option<Seq<char>>) -> CandidateView {
    CandidateView {
        label: vault_name(path) + if current == Some(path) {
            "  (current)"@
        } else {
            Seq::<char>::empty()
        },
        detail: Some(path),
        is_action: false,
        data: path,
    }
}

/// The vault opener's list before anything is typed: the first recent
/// vaults, most recent first.
pub open spec fn recent_vaults_spec(paths: Seq<Seq<char>>, current: Option<Seq<char>>) -> Seq<CandidateView> {
    Seq::new(capped(paths.len() as int) as nat, |i: int| recent_vault_candidate(paths[i], current))
}

/// The vault opener's entries for the recent vaults, given the path of the
/// open vault, if any.
pub fn recent_vault_candidates(paths: &[String], current: Option<&str>) -> (r: Vec<Candidate>)
    ensures
        candidates_view(r@) == recent_vaults_spec(paths_view(paths@), opt_text(current)),
{
    let ghost pv = paths_view(paths@);
    let mut out: Vec<Candidate> = Vec::new();
    let mut i: usize = 0;
    while i < paths.len() && i < MAX_RESULTS
        invariant
            i <= paths@.len(),
            i <= MAX_RESULTS,
            pv == paths_view(paths@),
            candidates_view(out@) == Seq::new(i as nat, |j: int| recent_vault_candidate(pv[j], opt_text(current))),
        decreases paths@.len() - i,
    {
        let path = paths[i].as_str();
        let name = vault_name_of(path);
        let is_current = match current {
            Some(c) => str_eq(c, path),
            None => false,
        };
        let label = if is_current {
            cat(name.as_str(), "  (current)")
        } else {
            name
        };
        let c = Candidate { label, detail: Some(to_owned(path)), is_action: false, data: to_owned(path) };
        let ghost before = out@;
        out.push(c);
        proof {
            assert(pv[i as int] == path@);
            if !is_current {
                assert(label@ =~= vault_name(path@) + Seq::<char>::empty());
            }
            assert(c@ == recent_vault_candidate(pv[i as int], opt_text(current)));
            assert(candidates_view(out@) =~= candidates_view(before).push(c@));
        }
        i = i + 1;
        assert(candidates_view(out@) =~= Seq::new(i as nat, |j: int| recent_vault_candidate(pv[j], opt_text(current))));
    }
    out
}

/// A subdirectory offered by the vault opener: its name, its path, and
/// whether a registered vault lives there.
pub type DirEntryView = (Seq<char>, Seq<char>, bool);

/// The subdirectories as plain values.
pub open spec fn dirs_view(es: Seq<(String, String, bool)>) -> Seq<DirEntryView> {
    es.map_values(|e: (String, String, bool)| (e.0@, e.1@, e.2))
}

/// The opener lists a subdirectory when its name is not hidden (starts
/// with no `.`) and, in lowercase, starts with the lowercase `prefix`.
pub open spec fn dir_shown(e: DirEntryView, prefix: Seq<char>) -> bool {
    &&& !(e.0.len() > 0 && e.0[0] == '.')
    &&& (prefix.len() == 0 || starts_with(lowercase(e.0), prefix))
}

/// A subdirectory when the opener lists it.
pub open spec fn dir_kept(prefix: Seq<char>) -> spec_fn(DirEntryView) -> Option<DirEntryView> {
    |e: DirEntryView|
        if dir_shown(e, prefix) {
            Some(e)
        } else {
            None
        }
}

/// The listed subdirectories, ranked by their lowercase names.
pub open spec fn dir_keys(kept: Seq<DirEntryView>) -> Seq<RankKey> {
    Seq::new(kept.len(), |i: int| (0nat, lowercase(kept[i].0), i))
}

/// The entry for a subdirectory: `name/`, starred when a registered vault
/// lives there, detailed and carrying its path.
pub open spec fn dir_candidate(e: DirEntryView) -> CandidateView {
    CandidateView {
        label: e.0 + seq!['/'] + if e.2 {
            "  ★"@
        } else {
            Seq::<char>::empty()
        },
        detail: Some(e.1),
        is_action: false,
        data: e.1,
    }
}

/// The vault opener's list for a typed path: the subdirectories of its
/// parent whose names start with `name` (the typed path's last component),
/// ignoring case, sorted by lowercase name, at most `MAX_RESULTS`.
pub open spec fn vault_dir_spec(es: Seq<DirEntryView>, name: Seq<char>) -> Seq<CandidateView> {
    let kept = es.filter_map(dir_kept(lowercase(name)));
    let ranked = sort_ranked(dir_keys(kept));
    Seq::new(capped(ranked.len() as int) as nat, |i: int| dir_candidate(kept[ranked[i].2]))
}

/// Whether `h` starts with `p`.
fn has_prefix(h: &Vec<char>, p: &Vec<char>) -> (r: bool)
    ensures
        r == starts_with(h@, p@),
{
    p.len() <= h.len() && occurs_at(h, p, 0)
}

/// The vault opener's entries for the subdirectories `entries` (name, path,
/// registered) of the typed path's parent, given the typed path's last
/// component `name`.
#[verifier::spinoff_prover]
pub fn vault_dir_candidates(entries: &[(String, String, bool)], name: &str) -> (r: Vec<Candidate>)
    ensures
        candidates_view(r@) == vault_dir_spec(dirs_view(entries@), name@),
{
    let ghost ev = dirs_view(entries@);
    let prefix_s = to_lowercase(name);
    let prefix = chars_of(prefix_s.as_str());
    let ghost f = dir_kept(prefix@);
    let mut kept: Vec<usize> = Vec::new();
    let mut weights: Vec<usize> = Vec::new();
    let mut names: Vec<String> = Vec::new();
    let mut k: usize = 0;
    assert(ev.take(0) =~= Seq::<DirEntryView>::empty());
    while k < entries.len()
        invariant
            k <= entries@.len(),
            ev == dirs_view(entries@),
            prefix@ == lowercase(name@),
            f == dir_kept(prefix@),
            kept@.map_values(|j: usize| ev[j as int]) == ev.take(k as int).filter_map(f),
            forall|x: int| 0 <= x < kept@.len() ==> #[trigger] kept@[x] < k,
            weights@.len() == kept@.len(),
            names@.len() == kept@.len(),
            forall|x: int|
                0 <= x < kept@.len() ==> #[trigger] weights@[x] == 0 && names@[x]@ == lowercase(ev[kept@[x] as int].0),
        decreases entries@.len() - k,
    {
        let e = &entries[k];
        let lower = to_lowercase(e.0.as_str());
        let lc = chars_of(lower.as_str());
        let hidden = e.0.as_str().unicode_len() > 0 && e.0.as_str().get_char(0) == '.';
        let shown = !hidden && (prefix.len() == 0 || has_prefix(&lc, &prefix));
        let ghost before = kept@;
        proof {
            assert(ev[k as int] == (e.0@, e.1@, e.2));
            assert(ev.take(k + 1).drop_last() =~= ev.take(k as int));
            assert(ev.take(k + 1).last() == ev[k as int]);
            assert(shown == dir_shown(ev[k as int], prefix@));
        }
        if shown {
            let ghost wb = weights@;
            let ghost nb = names@;
            kept.push(k);
            weights.push(0);
            names.push(lower);
            assert forall|x: int|
                0 <= x < kept@.len() implies #[trigger] weights@[x] == 0 && names@[x]@ == lowercase(
                ev[kept@[x] as int].0,
            ) by {
                if x < before.len() {
                    assert(kept@[x] == before[x]);
                    assert(weights@[x] == wb[x]);
                    assert(names@[x] == nb[x]);
                }
            }
            assert(kept@.map_values(|j: usize| ev[j as int]) =~= before.map_values(|j: usize| ev[j as int]).push(
                ev[k as int],
            ));
        } else {
            assert(kept@.map_values(|j: usize| ev[j as int]) =~= before.map_values(|j: usize| ev[j as int]));
        }
        k = k + 1;
    }
    assert(ev.take(k as int) =~= ev);
    let ghost kv = kept@.map_values(|j: usize| ev[j as int]);
    let order = ranked_order(&weights, &names);
    assert(rank_keys(weights@, names@) =~= dir_keys(kv));
    let ghost ranked = sort_ranked(dir_keys(kv));
    proof {
        lemma_sort_ranked_len(dir_keys(kv));
    }
    let mut out: Vec<Candidate> = Vec::new();
    let mut m: usize = 0;
    while m < order.len() && m < MAX_RESULTS
        invariant
            m <= order@.len(),
            m <= MAX_RESULTS,
            ev == dirs_view(entries@),
            kv == kept@.map_values(|j: usize| ev[j as int]),
            forall|x: int| 0 <= x < kept@.len() ==> #[trigger] kept@[x] < entries@.len(),
            order@.len() == kept@.len(),
            forall|x: int| 0 <= x < order@.len() ==> #[trigger] order@[x] < kept@.len(),
            order@.map_values(|j: usize| dir_keys(kv)[j as int]) == ranked,
            ranked == sort_ranked(dir_keys(kv)),
            candidates_view(out@) == Seq::new(m as nat, |j: int| dir_candidate(kv[ranked[j].2])),
        decreases order@.len() - m,
    {
        let o = order[m];
        let e = &entries[kept[o]];
        let with_slash = cat(e.0.as_str(), "/");
        let label = if e.2 {
            cat(with_slash.as_str(), "  ★")
        } else {
            with_slash
        };
        let c = Candidate { label, detail: Some(to_owned(e.1.as_str())), is_action: false, data: to_owned(e.1.as_str()) };
        let ghost before = out@;
        out.push(c);
        proof {
            reveal_strlit("/");
            assert(ranked[m as int] == dir_keys(kv)[o as int]);
            assert(dir_keys(kv)[o as int].2 == o as int);
            assert(kv[o as int] == ev[kept@[o as int] as int]);
            assert(ev[kept@[o as int] as int] == (e.0@, e.1@, e.2));
            assert("/"@ =~= seq!['/']);
            if !e.2 {
                assert(label@ =~= e.0@ + seq!['/'] + Seq::<char>::empty());
            }
            assert(c@ == dir_candidate(kv[ranked[m as int].2]));
            assert(candidates_view(out@) =~= candidates_view(before).push(c@));
        }
        m = m + 1;
        assert(candidates_view(out@) =~= Seq::new(m as nat, |j: int| dir_candidate(kv[ranked[j].2])));
    }
    assert(candidates_view(out@) =~= vault_dir_spec(ev, name@));
    out
}

} // verus!
