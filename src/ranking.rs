//! Stable ranking of indexed scores.
use vstd::prelude::*;

verus! {

broadcast use vstd::seq_lib::group_to_multiset_ensures;

/// `a` ranks ahead of `b`: a higher score, or an equal score and an earlier
/// index.
pub open spec fn ranks_ahead(a: (i128, usize), b: (i128, usize)) -> bool {
    a.0 > b.0 || (a.0 == b.0 && a.1 < b.1)
}

/// No entry of `s` ranks ahead of an entry before it.
pub open spec fn is_ranked(s: Seq<(i128, usize)>) -> bool {
    forall|i: int, j: int| 0 <= i < j < s.len() ==> !ranks_ahead(#[trigger] s[j], #[trigger] s[i])
}

/// `s` with `x` inserted before the first entry that it ranks ahead of.
pub open spec fn insert_ranked(s: Seq<(i128, usize)>, x: (i128, usize)) -> Seq<(i128, usize)>
    decreases s.len(),
{
    if s.len() == 0 {
        seq![x]
    } else if ranks_ahead(x, s[0]) {
        seq![x] + s
    } else {
        seq![s[0]] + insert_ranked(s.drop_first(), x)
    }
}

/// The entries of `v` ranked: each inserted in turn into the ranking of
/// those before it.
pub open spec fn ranking(v: Seq<(i128, usize)>) -> Seq<(i128, usize)>
    decreases v.len(),
{
    if v.len() == 0 {
        Seq::empty()
    } else {
        insert_ranked(ranking(v.drop_last()), v.last())
    }
}

proof fn lemma_insert_ranked_at(s: Seq<(i128, usize)>, x: (i128, usize), p: int)
    requires
        0 <= p <= s.len(),
        forall|k: int| 0 <= k < p ==> !ranks_ahead(x, #[trigger] s[k]),
        p < s.len() ==> ranks_ahead(x, s[p]),
    ensures
        insert_ranked(s, x) == s.insert(p, x),
    decreases s.len(),
{
    if s.len() == 0 {
        assert(s.insert(p, x) =~= seq![x]);
    } else if p == 0 {
        assert(s.insert(0, x) =~= seq![x] + s);
    } else {
        assert(!ranks_ahead(x, s[0]));
        assert forall|k: int| 0 <= k < p - 1 implies !ranks_ahead(x, #[trigger] s.drop_first()[k]) by {
            assert(s.drop_first()[k] == s[k + 1]);
        }
        lemma_insert_ranked_at(s.drop_first(), x, p - 1);
        assert(s.insert(p, x) =~= seq![s[0]] + s.drop_first().insert(p - 1, x));
    }
}

/// A ranking holds the entries it ranks.
pub proof fn lemma_ranking_multiset(v: Seq<(i128, usize)>)
    ensures
        ranking(v).to_multiset() == v.to_multiset(),
    decreases v.len(),
{
    if v.len() > 0 {
        lemma_ranking_multiset(v.drop_last());
        lemma_insert_ranked_multiset(ranking(v.drop_last()), v.last());
        assert(v.drop_last().push(v.last()) =~= v);
    }
}

proof fn lemma_insert_ranked_multiset(s: Seq<(i128, usize)>, x: (i128, usize))
    ensures
        insert_ranked(s, x).to_multiset() == s.to_multiset().insert(x),
    decreases s.len(),
{
    if s.len() == 0 {
        assert(insert_ranked(s, x) =~= s.insert(0, x));
    } else if ranks_ahead(x, s[0]) {
        assert(insert_ranked(s, x) =~= s.insert(0, x));
    } else {
        lemma_insert_ranked_multiset(s.drop_first(), x);
        let t = insert_ranked(s.drop_first(), x);
        assert(insert_ranked(s, x) =~= t.insert(0, s[0]));
        assert(s =~= s.drop_first().insert(0, s[0]));
        vstd::seq_lib::to_multiset_insert(t, 0, s[0]);
        vstd::seq_lib::to_multiset_insert(s.drop_first(), 0, s[0]);
        vstd::seq_lib::to_multiset_insert(s, 0, x);
    }
}

/// The entries of `v`, highest score first; equal scores keep the order of
/// their indices.
pub fn rank_descending(v: &Vec<(i128, usize)>) -> (r: Vec<(i128, usize)>)
    ensures
        r@ == ranking(v@),
        r@.to_multiset() == v@.to_multiset(),
        is_ranked(r@),
        forall|k: int| 0 <= k < r@.len() ==> v@.contains(#[trigger] r@[k]),
{
    let mut out: Vec<(i128, usize)> = Vec::new();
    let mut i: usize = 0;
    while i < v.len()
        invariant
            i <= v.len(),
            out@.to_multiset() == v@.take(i as int).to_multiset(),
            out@ == ranking(v@.take(i as int)),
            is_ranked(out@),
        decreases v.len() - i,
    {
        let x = v[i];
        let mut p: usize = 0;
        while p < out.len() && !(x.0 > out[p].0 || (x.0 == out[p].0 && x.1 < out[p].1))
            invariant
                p <= out.len(),
                forall|k: int| 0 <= k < p ==> !ranks_ahead(x, #[trigger] out@[k]),
            decreases out.len() - p,
        {
            p = p + 1;
        }
        let ghost before = out@;
        proof {
            if p < before.len() {
                assert(ranks_ahead(x, before[p as int]));
            }
            lemma_insert_ranked_at(before, x, p as int);
            assert(v@.take(i + 1).drop_last() =~= v@.take(i as int));
        }
        out.insert(p, x);
        proof {
            assert(v@.take(i + 1) =~= v@.take(i as int).push(x));
            assert forall|a: int, b: int| 0 <= a < b < out@.len() implies !ranks_ahead(
                #[trigger] out@[b],
                #[trigger] out@[a],
            ) by {
                if b < p {
                    assert(out@[a] == before[a] && out@[b] == before[b]);
                } else if b == p {
                    assert(out@[a] == before[a]);
                } else if a == p {
                    assert(out@[b] == before[b - 1]);
                    if p < before.len() {
                        assert(ranks_ahead(x, before[p as int]));
                        if b - 1 > p {
                            assert(!ranks_ahead(before[b - 1], before[p as int]));
                        }
                    }
                } else if a < p {
                    assert(out@[a] == before[a] && out@[b] == before[b - 1]);
                } else {
                    assert(out@[a] == before[a - 1] && out@[b] == before[b - 1]);
                }
            }
        }
        i = i + 1;
    }
    assert(v@.take(i as int) =~= v@);
    proof {
        assert forall|k: int| 0 <= k < out@.len() implies v@.contains(#[trigger] out@[k]) by {
            vstd::seq_lib::to_multiset_contains(out@, out@[k]);
            vstd::seq_lib::to_multiset_contains(v@, out@[k]);
        }
    }
    out
}

} // verus!
