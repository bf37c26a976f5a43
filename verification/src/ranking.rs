//! Ranking entries by weight and name: the stable order in which search
//! results and directory listings are shown.
use vstd::prelude::*;

verus! {

broadcast use vstd::string::group_string_axioms;

/// `a` comes before `b` in lexicographic order of code points (the order
/// of `str`).
pub open spec fn lex_less(a: Seq<char>, b: Seq<char>) -> bool
    decreases a.len(),
{
    if a.len() == 0 {
        b.len() > 0
    } else if b.len() == 0 {
        false
    } else if a[0] != b[0] {
        (a[0] as u32) < (b[0] as u32)
    } else {
        lex_less(a.drop_first(), b.drop_first())
    }
}

/// An entry to rank: its weight, its name and its index in the list.
pub type RankKey = (nat, Seq<char>, int);

/// Entry `a` ranks before entry `b`: a greater weight, or the same weight
/// and a name that sorts first.
pub open spec fn ranks_before(a: RankKey, b: RankKey) -> bool {
    a.0 > b.0 || (a.0 == b.0 && lex_less(a.1, b.1))
}

/// From `i` on, the first key that `x` ranks before, or `s.len()`.
pub open spec fn first_ranked_after(s: Seq<RankKey>, x: RankKey, i: int) -> int
    decreases s.len() - i,
{
    if i < 0 || i >= s.len() || ranks_before(x, s[i]) {
        i
    } else {
        first_ranked_after(s, x, i + 1)
    }
}

/// `x` inserted into `s` after every key it does not rank before.
pub open spec fn insert_ranked(s: Seq<RankKey>, x: RankKey) -> Seq<RankKey> {
    let p = first_ranked_after(s, x, 0);
    s.take(p).push(x) + s.skip(p)
}

/// The keys sorted by rank, keys of equal rank in list order (a stable
/// sort).
pub open spec fn sort_ranked(s: Seq<RankKey>) -> Seq<RankKey>
    decreases s.len(),
{
    if s.len() == 0 {
        s
    } else {
        insert_ranked(sort_ranked(s.drop_last()), s.last())
    }
}

/// Whether `a` sorts before `b`.
pub fn str_less(a: &str, b: &str) -> (r: bool)
    ensures
        r == lex_less(a@, b@),
{
    let n = a.unicode_len();
    let m = b.unicode_len();
    let mut i: usize = 0;
    assert(a@.skip(0) =~= a@);
    assert(b@.skip(0) =~= b@);
    while i < n && i < m && a.get_char(i) == b.get_char(i)
        invariant
            n == a@.len(),
            m == b@.len(),
            i <= n,
            i <= m,
            lex_less(a@.skip(i as int), b@.skip(i as int)) == lex_less(a@, b@),
        decreases n - i,
    {
        proof {
            assert(a@.skip(i as int).drop_first() =~= a@.skip(i + 1));
            assert(b@.skip(i as int).drop_first() =~= b@.skip(i + 1));
        }
        i = i + 1;
    }
    if i == n {
        i < m
    } else if i == m {
        false
    } else {
        (a.get_char(i) as u32) < (b.get_char(i) as u32)
    }
}

pub proof fn lemma_first_ranked_after(s: Seq<RankKey>, x: RankKey, i: int)
    requires
        0 <= i <= s.len(),
    ensures
        i <= first_ranked_after(s, x, i) <= s.len(),
    decreases s.len() - i,
{
    if i < s.len() && !ranks_before(x, s[i]) {
        lemma_first_ranked_after(s, x, i + 1);
    }
}

pub proof fn lemma_sort_ranked_len(s: Seq<RankKey>)
    ensures
        sort_ranked(s).len() == s.len(),
        forall|k: int| 0 <= k < sort_ranked(s).len() ==> s.contains(#[trigger] sort_ranked(s)[k]),
    decreases s.len(),
{
    if s.len() > 0 {
        let t = s.drop_last();
        lemma_sort_ranked_len(t);
        let st = sort_ranked(t);
        lemma_first_ranked_after(st, s.last(), 0);
        let p = first_ranked_after(st, s.last(), 0);
        let r = insert_ranked(st, s.last());
        assert forall|k: int| 0 <= k < r.len() implies s.contains(#[trigger] r[k]) by {
            if k < p {
                assert(r[k] == st[k]);
                assert(t.contains(st[k]));
                let j = choose|j: int| 0 <= j < t.len() && t[j] == st[k];
                assert(s[j] == t[j]);
            } else if k == p {
                assert(r[k] == s[s.len() - 1]);
            } else {
                assert(r[k] == st[k - 1]);
                assert(t.contains(st[k - 1]));
                let j = choose|j: int| 0 <= j < t.len() && t[j] == st[k - 1];
                assert(s[j] == t[j]);
            }
        }
    }
}

/// The keys of entries with weights `weights` and names `names`.
pub open spec fn rank_keys(weights: Seq<usize>, names: Seq<String>) -> Seq<RankKey> {
    Seq::new(weights.len(), |i: int| (weights[i] as nat, names[i]@, i))
}

/// The order in which to list entries of weights `weights` and names
/// `names`: their indices sorted by rank, stably.
pub fn ranked_order(weights: &Vec<usize>, names: &Vec<String>) -> (order: Vec<usize>)
    requires
        weights@.len() == names@.len(),
    ensures
        order@.len() == weights@.len(),
        forall|x: int| 0 <= x < order@.len() ==> #[trigger] order@[x] < weights@.len(),
        order@.map_values(|k: usize| rank_keys(weights@, names@)[k as int]) == sort_ranked(
            rank_keys(weights@, names@),
        ),
{
    let ghost keys = rank_keys(weights@, names@);
    let mut order: Vec<usize> = Vec::new();
    let mut i: usize = 0;
    assert(keys.take(0) =~= Seq::<RankKey>::empty());
    while i < weights.len()
        invariant
            i <= weights@.len(),
            weights@.len() == names@.len(),
            keys == rank_keys(weights@, names@),
            order@.map_values(|k: usize| keys[k as int]) == sort_ranked(keys.take(i as int)),
            forall|x: int| 0 <= x < order@.len() ==> #[trigger] order@[x] < i,
            order@.len() == i,
        decreases weights@.len() - i,
    {
        let ghost sorted = order@.map_values(|k: usize| keys[k as int]);
        let mut p: usize = 0;
        while p < order.len()
            invariant
                p <= order@.len(),
                i < weights@.len(),
                weights@.len() == names@.len(),
                keys == rank_keys(weights@, names@),
                sorted == order@.map_values(|k: usize| keys[k as int]),
                forall|y: int| 0 <= y < order@.len() ==> #[trigger] order@[y] < i,
                first_ranked_after(sorted, keys[i as int], p as int) == first_ranked_after(sorted, keys[i as int], 0),
            ensures
                p <= order@.len(),
                p == order@.len() || ranks_before(keys[i as int], sorted[p as int]),
            decreases order@.len() - p,
        {
            let o = order[p];
            let ahead = weights[i] > weights[o] || (weights[i] == weights[o] && str_less(
                names[i].as_str(),
                names[o].as_str(),
            ));
            proof {
                assert(sorted[p as int] == keys[o as int]);
                assert(keys[o as int] == (weights@[o as int] as nat, names@[o as int]@, o as int));
                assert(keys[i as int] == (weights@[i as int] as nat, names@[i as int]@, i as int));
            }
            if ahead {
                break;
            }
            p = p + 1;
        }
        proof {
            if p < order@.len() {
                assert(sorted[p as int] == keys[order@[p as int] as int]);
            }
            assert(keys.take(i + 1).drop_last() =~= keys.take(i as int));
            assert(keys.take(i + 1).last() == keys[i as int]);
        }
        let ghost before = order@;
        order.insert(p, i);
        proof {
            assert(order@ =~= before.take(p as int).push(i) + before.skip(p as int));
            assert(order@.map_values(|k: usize| keys[k as int]) =~= sorted.take(p as int).push(keys[i as int])
                + sorted.skip(p as int));
        }
        i = i + 1;
    }
    assert(keys.take(i as int) =~= keys);
    order
}

} // verus!
