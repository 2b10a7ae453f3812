//! Fuzzy scoring and ranking: candidates are scored against a live query
//! string; non-matching candidates are dropped and the rest are ordered
//! by descending score, ties keeping their original order.

use vstd::prelude::*;

verus! {

/// The score that the fuzzy matcher gives `query` against `target`, or
/// `None` where the query does not match. The value is whatever
/// `sublime_fuzzy::best_match` computes: a pure function of the two
/// strings, named here and not restated.
pub uninterp spec fn fuzzy_score(query: Seq<char>, target: Seq<char>) -> Option<int>;

/// Relies on `sublime_fuzzy::best_match` and `sublime_fuzzy::Match::score`:
/// together they compute a score from the query and target strings alone,
/// and return no score where the query does not match the target.
#[verifier::external_body]
fn best_match_score(query: &str, target: &str) -> (r: Option<isize>)
    ensures
        match r {
            Some(s) => fuzzy_score(query@, target@) == Some(s as int),
            None => fuzzy_score(query@, target@) is None,
        },
{
    match sublime_fuzzy::best_match(query, target) {
        Some(m) => Some(m.score()),
        None => None,
    }
}

/// Must the candidate with index `a` be listed before the one with index
/// `b`? Yes when its score is higher, or equal with `a` the earlier
/// candidate: ties keep the original order.
pub open spec fn rank_before(query: Seq<char>, targets: Seq<String>, a: int, b: int) -> bool {
    let sa = fuzzy_score(query, targets[a]@);
    let sb = fuzzy_score(query, targets[b]@);
    &&& sa is Some
    &&& sb is Some
    &&& (sa->0 > sb->0 || (sa->0 == sb->0 && a < b))
}

/// Rank `targets` against `query`: the result lists indices into
/// `targets`. An empty query keeps every candidate in the original
/// order; otherwise exactly the matching candidates are listed, by
/// descending score, ties in original order.
pub fn fuzzy_rank(query: &str, targets: &Vec<String>) -> (order: Vec<usize>)
    ensures
        query@.len() == 0 ==> order@ == Seq::new(targets@.len(), |k: int| k as usize),
        query@.len() > 0 ==> {
            &&& forall|k: int|
                0 <= k < order@.len() ==> (#[trigger] order@[k]) < targets@.len() && fuzzy_score(
                    query@,
                    targets@[order@[k] as int]@,
                ) is Some
            &&& forall|u: int|
                0 <= u < targets@.len() && (#[trigger] fuzzy_score(query@, targets@[u]@)) is Some
                    ==> exists|k: int| 0 <= k < order@.len() && order@[k] as int == u
            &&& forall|k1: int, k2: int|
                0 <= k1 < k2 < order@.len() ==> rank_before(
                    query@,
                    targets@,
                    order@[k1] as int,
                    order@[k2] as int,
                )
        },
{
    let n = targets.len();
    if query.unicode_len() == 0 {
        let mut order: Vec<usize> = Vec::new();
        let mut t: usize = 0;
        proof {
            assert(order@ =~= Seq::new(0, |k: int| k as usize));
        }
        while t < n
            invariant
                t <= n,
                n == targets@.len(),
                order@ == Seq::new(t as nat, |k: int| k as usize),
            decreases n - t,
        {
            order.push(t);
            proof {
                assert(order@ =~= Seq::new(t as nat + 1, |k: int| k as usize));
            }
            t += 1;
        }
        return order;
    }

    let mut pairs: Vec<(usize, isize)> = Vec::new();
    let mut t: usize = 0;
    while t < n
        invariant
            t <= n,
            n == targets@.len(),
            query@.len() > 0,
            forall|k: int|
                0 <= k < pairs@.len() ==> (#[trigger] pairs@[k]).0 < t && fuzzy_score(
                    query@,
                    targets@[pairs@[k].0 as int]@,
                ) == Some(pairs@[k].1 as int),
            forall|k1: int, k2: int|
                0 <= k1 < k2 < pairs@.len() ==> (#[trigger] pairs@[k1]).1 > (#[trigger] pairs@[k2]).1
                    || (pairs@[k1].1 == pairs@[k2].1 && pairs@[k1].0 < pairs@[k2].0),
            forall|u: int|
                0 <= u < t && (#[trigger] fuzzy_score(query@, targets@[u]@)) is Some ==> exists|k: int|
                    0 <= k < pairs@.len() && (#[trigger] pairs@[k]).0 as int == u,
        decreases n - t,
    {
        let ghost pre = pairs@;
        let sc_opt = best_match_score(query, targets[t].as_str());
        match sc_opt {
            Some(sc) => {
                let mut p: usize = 0;
                while p < pairs.len() && pairs[p].1 >= sc
                    invariant
                        p <= pairs@.len(),
                        pairs@ == pre,
                        forall|k: int| 0 <= k < p ==> (#[trigger] pairs@[k]).1 >= sc,
                    decreases pairs@.len() - p,
                {
                    p += 1;
                }
                pairs.insert(p, (t, sc));
                proof {
                    pre.insert_ensures(p as int, (t, sc));
                    assert forall|u: int|
                        0 <= u < t + 1 && (#[trigger] fuzzy_score(query@, targets@[u]@)) is Some
                            implies exists|k: int|
                            0 <= k < pairs@.len() && (#[trigger] pairs@[k]).0 as int == u by {
                        if u < t {
                            let k = choose|k: int|
                                0 <= k < pre.len() && (#[trigger] pre[k]).0 as int == u;
                            if k < p {
                                assert(pairs@[k].0 as int == u);
                            } else {
                                assert(pairs@[k + 1].0 as int == u);
                            }
                        } else {
                            assert(pairs@[p as int].0 as int == u);
                        }
                    }
                }
            },
            None => {
                proof {
                    assert forall|u: int|
                        0 <= u < t + 1 && (#[trigger] fuzzy_score(query@, targets@[u]@)) is Some
                            implies exists|k: int|
                            0 <= k < pairs@.len() && (#[trigger] pairs@[k]).0 as int == u by {
                        assert(u != t);
                    }
                }
            },
        }
        t += 1;
    }

    let mut order: Vec<usize> = Vec::new();
    let mut k: usize = 0;
    while k < pairs.len()
        invariant
            k <= pairs@.len(),
            order@.len() == k,
            forall|j: int| 0 <= j < k ==> (#[trigger] order@[j]) == pairs@[j].0,
        decreases pairs@.len() - k,
    {
        let idx = pairs[k].0;
        order.push(idx);
        k += 1;
    }
    proof {
        assert forall|u: int|
            0 <= u < targets@.len() && (#[trigger] fuzzy_score(query@, targets@[u]@)) is Some
                implies exists|j: int| 0 <= j < order@.len() && order@[j] as int == u by {
            let j = choose|j: int| 0 <= j < pairs@.len() && (#[trigger] pairs@[j]).0 as int == u;
            assert(order@[j] as int == u);
        }
    }
    order
}

/// The items of `items` picked out by `order`, in that order.
pub fn select_indices(items: &Vec<String>, order: &Vec<usize>) -> (res: Vec<String>)
    requires
        forall|k: int| 0 <= k < order@.len() ==> (#[trigger] order@[k]) < items@.len(),
    ensures
        res@.len() == order@.len(),
        forall|k: int| 0 <= k < order@.len() ==> (#[trigger] res@[k])@ == items@[order@[k] as int]@,
{
    let mut res: Vec<String> = Vec::new();
    let mut k: usize = 0;
    while k < order.len()
        invariant
            k <= order@.len(),
            res@.len() == k,
            forall|j: int| 0 <= j < order@.len() ==> (#[trigger] order@[j]) < items@.len(),
            forall|j: int| 0 <= j < k ==> (#[trigger] res@[j])@ == items@[order@[j] as int]@,
        decreases order@.len() - k,
    {
        let s = items[order[k]].clone();
        res.push(s);
        k += 1;
    }
    res
}

} // verus!
