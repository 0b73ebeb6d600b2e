//! The laws of the dominance order and of the two front builders,
//! stated over the same spec functions the builders' contracts use.

use vstd::prelude::*;
use vstd::set_lib::{lemma_int_range, lemma_len_subset, set_int_range};
use crate::dominance::{lemma_dominates_irreflexive, lemma_dominates_transitive, spec_dominates};
use crate::front::{
    batch_front, dominated_within, incremental_front, incremental_step, keeps_maximal, survives,
};

verus! {

/// A membership characterisation of `Seq::filter`: a value sits in the
/// filtered sequence exactly when it sits in the original and the
/// predicate accepts it.
proof fn lemma_filter_membership<A>(s: Seq<A>, pred: spec_fn(A) -> bool, x: A)
    ensures
        s.filter(pred).contains(x) <==> (s.contains(x) && pred(x)),
{
    if s.filter(pred).contains(x) {
        s.lemma_filter_contains_rev(pred, x);
        let i = choose|i: int| 0 <= i < s.filter(pred).len() && s.filter(pred)[i] == x;
        s.lemma_filter_pred(pred, i);
    }
    if s.contains(x) && pred(x) {
        let i = choose|i: int| 0 <= i < s.len() && s[i] == x;
        s.lemma_filter_contains(pred, i);
    }
}

/// A filter whose predicate accepts every element returns the sequence
/// unchanged.
proof fn lemma_filter_all_kept<A>(s: Seq<A>, pred: spec_fn(A) -> bool)
    requires
        forall|i: int| 0 <= i < s.len() ==> pred(#[trigger] s[i]),
    ensures
        s.filter(pred) == s,
    decreases s.len(),
{
    reveal(Seq::filter);
    if s.len() != 0 {
        assert forall|i: int| 0 <= i < s.drop_last().len() implies pred(
            #[trigger] s.drop_last()[i],
        ) by {
            assert(s.drop_last()[i] == s[i]);
        }
        lemma_filter_all_kept(s.drop_last(), pred);
        assert(pred(s.last()));
        assert(s.filter(pred) =~= s);
    }
}

/// The indices of the points of `ps` that dominate `p`.
spec fn dominator_set(ps: Seq<Seq<i64>>, p: Seq<i64>) -> Set<int> {
    Set::new(|i: int| 0 <= i < ps.len() && spec_dominates(ps[i], p))
}

/// The dominator index set is finite, being a subset of the index range.
proof fn lemma_dominator_set_finite(ps: Seq<Seq<i64>>, p: Seq<i64>)
    ensures
        dominator_set(ps, p).finite(),
{
    lemma_int_range(0, ps.len() as int);
    assert(dominator_set(ps, p).subset_of(set_int_range(0, ps.len() as int)));
    lemma_len_subset(dominator_set(ps, p), set_int_range(0, ps.len() as int));
}

/// A point dominated within a set is dominated by some point of the set
/// that is itself undominated there: chains of dominators end at a
/// maximal point, because each step strictly shrinks the dominator set.
proof fn lemma_dominated_by_maximal(ps: Seq<Seq<i64>>, p: Seq<i64>)
    requires
        dominated_within(p, ps),
    ensures
        exists|m: Seq<i64>|
            #[trigger] ps.contains(m) && !dominated_within(m, ps) && spec_dominates(m, p),
    decreases dominator_set(ps, p).len(),
{
    lemma_dominator_set_finite(ps, p);
    let i0 = choose|i: int| 0 <= i < ps.len() && spec_dominates(ps[i], p);
    let q = ps[i0];
    assert(ps.contains(q));
    if !dominated_within(q, ps) {
        assert(ps.contains(q) && !dominated_within(q, ps) && spec_dominates(q, p));
    } else {
        lemma_dominator_set_finite(ps, q);
        assert forall|j: int| dominator_set(ps, q).contains(j) implies dominator_set(
            ps,
            p,
        ).remove(i0).contains(j) by {
            lemma_dominates_transitive(ps[j], q, p);
            if j == i0 {
                lemma_dominates_irreflexive(q);
            }
        }
        assert(dominator_set(ps, p).contains(i0));
        lemma_len_subset(dominator_set(ps, q), dominator_set(ps, p).remove(i0));
        lemma_dominated_by_maximal(ps, q);
        let m = choose|m: Seq<i64>|
            #[trigger] ps.contains(m) && !dominated_within(m, ps) && spec_dominates(m, q);
        lemma_dominates_transitive(m, q, p);
        assert(ps.contains(m) && !dominated_within(m, ps) && spec_dominates(m, p));
    }
}

/// The standing properties of the incremental builder's result: every
/// member comes from the input; no member dominates another; every
/// input point is either present in the front or dominated by a member
/// (an exact duplicate counts as present); and no input point dominates
/// any member.
pub proof fn lemma_incremental_front_properties(ps: Seq<Seq<i64>>)
    ensures
        forall|x: Seq<i64>| #[trigger] incremental_front(ps).contains(x) ==> ps.contains(x),
        forall|x: Seq<i64>, y: Seq<i64>|
            #![trigger incremental_front(ps).contains(x), incremental_front(ps).contains(y)]
            incremental_front(ps).contains(x) && incremental_front(ps).contains(y)
                ==> !spec_dominates(x, y),
        forall|q: Seq<i64>| #[trigger]
            ps.contains(q) ==> exists|m: Seq<i64>|
                #[trigger] incremental_front(ps).contains(m) && (m == q || spec_dominates(m, q)),
        forall|x: Seq<i64>| #[trigger]
            incremental_front(ps).contains(x) ==> !dominated_within(x, ps),
    decreases ps.len(),
{
    if ps.len() == 0 {
    } else {
        let prev = ps.drop_last();
        let p = ps.last();
        lemma_incremental_front_properties(prev);
        let f = incremental_front(prev);
        let f2 = incremental_front(ps);
        assert(f2 == incremental_step(f, p));
        assert(ps.contains(p)) by {
            assert(ps[ps.len() - 1] == p);
        }
        assert forall|q: Seq<i64>| prev.contains(q) implies ps.contains(q) by {
            let i = choose|i: int| 0 <= i < prev.len() && prev[i] == q;
            assert(ps[i] == q);
        }
        if dominated_within(p, f) {
            let t0 = choose|t: int| 0 <= t < f.len() && spec_dominates(f[t], p);
            let m0 = f[t0];
            assert(f.contains(m0));
            assert forall|k: int| 0 <= k < f.len() implies survives(p)(#[trigger] f[k]) by {
                let x = f[k];
                assert(f.contains(x));
                if spec_dominates(p, x) {
                    lemma_dominates_transitive(m0, p, x);
                    assert(false);
                }
                if x == p {
                    assert(spec_dominates(m0, x));
                    assert(false);
                }
            }
            lemma_filter_all_kept(f, survives(p));
            assert(f2 == f);
            assert forall|x: Seq<i64>| #[trigger] f2.contains(x) implies ps.contains(x) by {
                assert(f.contains(x));
            }
            assert forall|q: Seq<i64>| #[trigger] ps.contains(q) implies exists|m: Seq<i64>|
                #[trigger] f2.contains(m) && (m == q || spec_dominates(m, q)) by {
                let i = choose|i: int| 0 <= i < ps.len() && ps[i] == q;
                if i < ps.len() - 1 {
                    assert(prev.contains(q)) by {
                        assert(prev[i] == q);
                    }
                    let m = choose|m: Seq<i64>|
                        #[trigger] f.contains(m) && (m == q || spec_dominates(m, q));
                    assert(f2.contains(m) && (m == q || spec_dominates(m, q)));
                } else {
                    assert(q == p);
                    assert(f2.contains(m0) && spec_dominates(m0, q));
                }
            }
            assert forall|x: Seq<i64>| #[trigger] f2.contains(x) implies !dominated_within(
                x,
                ps,
            ) by {
                assert(f.contains(x));
                if dominated_within(x, ps) {
                    let t = choose|t: int| 0 <= t < ps.len() && spec_dominates(ps[t], x);
                    if t < ps.len() - 1 {
                        assert(spec_dominates(prev[t], x));
                        assert(dominated_within(x, prev));
                    } else {
                        lemma_dominates_transitive(m0, p, x);
                    }
                    assert(false);
                }
            }
        } else {
            let kept = f.filter(survives(p));
            assert(f2 == kept.push(p));
            assert(f2.contains(p)) by {
                assert(f2[f2.len() - 1] == p);
            }
            assert forall|x: Seq<i64>| #[trigger] f2.contains(x) implies (kept.contains(x) || x
                == p) by {
                let i = choose|i: int| 0 <= i < f2.len() && f2[i] == x;
                if i < f2.len() - 1 {
                    assert(kept[i] == x);
                }
            }
            assert forall|x: Seq<i64>| kept.contains(x) implies #[trigger] f2.contains(x) by {
                let i = choose|i: int| 0 <= i < kept.len() && kept[i] == x;
                assert(f2[i] == x);
            }
            assert forall|x: Seq<i64>| #[trigger] f2.contains(x) implies ps.contains(x) by {
                if x == p {
                } else {
                    lemma_filter_membership(f, survives(p), x);
                    assert(f.contains(x));
                }
            }
            assert forall|x: Seq<i64>, y: Seq<i64>|
                #![trigger f2.contains(x), f2.contains(y)]
                f2.contains(x) && f2.contains(y) implies !spec_dominates(x, y) by {
                if x == p && y == p {
                    lemma_dominates_irreflexive(p);
                } else if x == p {
                    lemma_filter_membership(f, survives(p), y);
                } else if y == p {
                    lemma_filter_membership(f, survives(p), x);
                    if spec_dominates(x, p) {
                        let i = choose|i: int| 0 <= i < f.len() && f[i] == x;
                        assert(spec_dominates(f[i], p));
                        assert(false);
                    }
                } else {
                    lemma_filter_membership(f, survives(p), x);
                    lemma_filter_membership(f, survives(p), y);
                    assert(f.contains(x) && f.contains(y));
                }
            }
            assert forall|q: Seq<i64>| #[trigger] ps.contains(q) implies exists|m: Seq<i64>|
                #[trigger] f2.contains(m) && (m == q || spec_dominates(m, q)) by {
                let i = choose|i: int| 0 <= i < ps.len() && ps[i] == q;
                if i == ps.len() - 1 {
                    assert(f2.contains(p) && p == q);
                } else {
                    assert(prev.contains(q)) by {
                        assert(prev[i] == q);
                    }
                    let m = choose|m: Seq<i64>|
                        #[trigger] f.contains(m) && (m == q || spec_dominates(m, q));
                    lemma_filter_membership(f, survives(p), m);
                    if kept.contains(m) {
                        assert(f2.contains(m) && (m == q || spec_dominates(m, q)));
                    } else if m == p {
                        assert(f2.contains(p) && (p == q || spec_dominates(p, q)));
                    } else {
                        assert(spec_dominates(p, m));
                        if m == q {
                            assert(f2.contains(p) && spec_dominates(p, q));
                        } else {
                            lemma_dominates_transitive(p, m, q);
                            assert(f2.contains(p) && spec_dominates(p, q));
                        }
                    }
                }
            }
            assert forall|x: Seq<i64>| #[trigger] f2.contains(x) implies !dominated_within(
                x,
                ps,
            ) by {
                if dominated_within(x, ps) {
                    let t = choose|t: int| 0 <= t < ps.len() && spec_dominates(ps[t], x);
                    if x == p {
                        if t == ps.len() - 1 {
                            lemma_dominates_irreflexive(p);
                        } else {
                            let q = prev[t];
                            assert(prev.contains(q));
                            let m = choose|m: Seq<i64>|
                                #[trigger] f.contains(m) && (m == q || spec_dominates(m, q));
                            if m != q {
                                lemma_dominates_transitive(m, q, p);
                            }
                            let km = choose|k: int| 0 <= k < f.len() && f[k] == m;
                            assert(spec_dominates(f[km], p));
                            assert(dominated_within(p, f));
                        }
                    } else {
                        lemma_filter_membership(f, survives(p), x);
                        assert(f.contains(x));
                        if t == ps.len() - 1 {
                            assert(spec_dominates(p, x));
                        } else {
                            assert(spec_dominates(prev[t], x));
                            assert(dominated_within(x, prev));
                        }
                    }
                    assert(false);
                }
            }
        }
    }
}

/// No point of the batch front dominates another point of it.
pub proof fn lemma_batch_front_internal(ps: Seq<Seq<i64>>)
    ensures
        forall|i: int, j: int|
            0 <= i < batch_front(ps).len() && 0 <= j < batch_front(ps).len()
                ==> !spec_dominates(#[trigger] batch_front(ps)[i], #[trigger] batch_front(ps)[j]),
{
    let bf = batch_front(ps);
    assert forall|i: int, j: int| 0 <= i < bf.len() && 0 <= j < bf.len() implies !spec_dominates(
        #[trigger] bf[i],
        #[trigger] bf[j],
    ) by {
        ps.lemma_filter_pred(keeps_maximal(ps), j);
        assert(bf.contains(bf[i]));
        ps.lemma_filter_contains_rev(keeps_maximal(ps), bf[i]);
        if spec_dominates(bf[i], bf[j]) {
            let k = choose|k: int| 0 <= k < ps.len() && ps[k] == bf[i];
            assert(spec_dominates(ps[k], bf[j]));
            assert(false);
        }
    }
}

/// No point of the incremental front dominates another point of it.
pub proof fn lemma_incremental_front_internal(ps: Seq<Seq<i64>>)
    ensures
        forall|i: int, j: int|
            0 <= i < incremental_front(ps).len() && 0 <= j < incremental_front(ps).len()
                ==> !spec_dominates(
                #[trigger] incremental_front(ps)[i],
                #[trigger] incremental_front(ps)[j],
            ),
{
    lemma_incremental_front_properties(ps);
    let fi = incremental_front(ps);
    assert forall|i: int, j: int| 0 <= i < fi.len() && 0 <= j < fi.len() implies !spec_dominates(
        #[trigger] fi[i],
        #[trigger] fi[j],
    ) by {
        assert(fi.contains(fi[i]));
        assert(fi.contains(fi[j]));
    }
}

/// Every input point left out of the batch front is dominated by a
/// point that the batch front keeps.
pub proof fn lemma_batch_front_complete(ps: Seq<Seq<i64>>)
    ensures
        forall|i: int|
            0 <= i < ps.len() && !batch_front(ps).contains(#[trigger] ps[i])
                ==> exists|m: Seq<i64>|
                #[trigger] batch_front(ps).contains(m) && spec_dominates(m, ps[i]),
{
    let bf = batch_front(ps);
    assert forall|i: int|
        0 <= i < ps.len() && !bf.contains(#[trigger] ps[i]) implies exists|m: Seq<i64>|
        #[trigger] bf.contains(m) && spec_dominates(m, ps[i]) by {
        if !dominated_within(ps[i], ps) {
            ps.lemma_filter_contains(keeps_maximal(ps), i);
            assert(false);
        } else {
            lemma_dominated_by_maximal(ps, ps[i]);
            let m = choose|m: Seq<i64>|
                #[trigger] ps.contains(m) && !dominated_within(m, ps) && spec_dominates(m, ps[i]);
            let k = choose|k: int| 0 <= k < ps.len() && ps[k] == m;
            ps.lemma_filter_contains(keeps_maximal(ps), k);
            assert(bf.contains(m) && spec_dominates(m, ps[i]));
        }
    }
}

/// Every input point is either present in the incremental front (an
/// exact duplicate counts as present) or dominated by a member of it.
pub proof fn lemma_incremental_front_complete(ps: Seq<Seq<i64>>, i: int)
    requires
        0 <= i < ps.len(),
    ensures
        exists|m: Seq<i64>|
            #[trigger] incremental_front(ps).contains(m) && (m == ps[i] || spec_dominates(
                m,
                ps[i],
            )),
{
    lemma_incremental_front_properties(ps);
    assert(ps.contains(ps[i]));
}

/// On a set with no internal domination the batch builder returns its
/// input unchanged, duplicates included.
pub proof fn lemma_batch_front_of_optimal(ps: Seq<Seq<i64>>)
    requires
        forall|i: int| 0 <= i < ps.len() ==> !dominated_within(#[trigger] ps[i], ps),
    ensures
        batch_front(ps) == ps,
{
    assert forall|i: int| 0 <= i < ps.len() implies keeps_maximal(ps)(#[trigger] ps[i]) by {}
    lemma_filter_all_kept(ps, keeps_maximal(ps));
}

/// On a set with no internal domination and no exact duplicates the
/// incremental builder also returns its input unchanged.  An exact
/// duplicate would instead collapse onto its later copy.
pub proof fn lemma_incremental_front_of_optimal(ps: Seq<Seq<i64>>)
    requires
        forall|i: int| 0 <= i < ps.len() ==> !dominated_within(#[trigger] ps[i], ps),
        forall|i: int, j: int| 0 <= i < j < ps.len() ==> (#[trigger] ps[i]) != (#[trigger] ps[j]),
    ensures
        incremental_front(ps) == ps,
    decreases ps.len(),
{
    if ps.len() == 0 {
        assert(incremental_front(ps) =~= ps);
    } else {
        let prev = ps.drop_last();
        let p = ps.last();
        assert forall|i: int| 0 <= i < prev.len() implies !dominated_within(
            #[trigger] prev[i],
            prev,
        ) by {
            assert(prev[i] == ps[i]);
            if dominated_within(prev[i], prev) {
                let t = choose|t: int| 0 <= t < prev.len() && spec_dominates(prev[t], prev[i]);
                assert(spec_dominates(ps[t], ps[i]));
                assert(dominated_within(ps[i], ps));
                assert(false);
            }
        }
        assert forall|i: int, j: int|
            0 <= i < j < prev.len() implies (#[trigger] prev[i]) != (#[trigger] prev[j]) by {
            assert(prev[i] == ps[i]);
            assert(prev[j] == ps[j]);
        }
        lemma_incremental_front_of_optimal(prev);
        if dominated_within(p, prev) {
            let t = choose|t: int| 0 <= t < prev.len() && spec_dominates(prev[t], p);
            assert(spec_dominates(ps[t], ps[ps.len() - 1]));
            assert(dominated_within(ps[ps.len() - 1], ps));
            assert(false);
        }
        assert forall|k: int| 0 <= k < prev.len() implies survives(p)(#[trigger] prev[k]) by {
            if spec_dominates(p, prev[k]) {
                assert(spec_dominates(ps[ps.len() - 1], ps[k]));
                assert(dominated_within(ps[k], ps));
                assert(false);
            }
            assert(ps[k] != ps[ps.len() - 1]);
        }
        lemma_filter_all_kept(prev, survives(p));
        assert(incremental_front(ps) =~= ps);
    }
}

/// An empty input yields an empty front from either builder.
pub proof fn lemma_empty_front()
    ensures
        batch_front(Seq::<Seq<i64>>::empty()) == Seq::<Seq<i64>>::empty(),
        incremental_front(Seq::<Seq<i64>>::empty()) == Seq::<Seq<i64>>::empty(),
{
    reveal(Seq::filter);
}

/// The two builders agree on front membership: a point value sits in
/// the incremental front exactly when it sits in the batch front.  The
/// two may still differ on duplicate copies and on order.
pub proof fn lemma_strategies_agree(ps: Seq<Seq<i64>>)
    ensures
        forall|x: Seq<i64>|
            #![trigger incremental_front(ps).contains(x)]
            #![trigger batch_front(ps).contains(x)]
            incremental_front(ps).contains(x) <==> batch_front(ps).contains(x),
{
    lemma_incremental_front_properties(ps);
    let fi = incremental_front(ps);
    let bf = batch_front(ps);
    assert forall|x: Seq<i64>|
        #![trigger fi.contains(x)]
        #![trigger bf.contains(x)]
        fi.contains(x) <==> bf.contains(x) by {
        if fi.contains(x) {
            let k = choose|k: int| 0 <= k < ps.len() && ps[k] == x;
            ps.lemma_filter_contains(keeps_maximal(ps), k);
        }
        if bf.contains(x) {
            ps.lemma_filter_contains_rev(keeps_maximal(ps), x);
            let ib = choose|ib: int| 0 <= ib < bf.len() && bf[ib] == x;
            ps.lemma_filter_pred(keeps_maximal(ps), ib);
            let m = choose|m: Seq<i64>|
                #[trigger] fi.contains(m) && (m == x || spec_dominates(m, x));
            if m != x {
                let km = choose|km: int| 0 <= km < ps.len() && ps[km] == m;
                assert(spec_dominates(ps[km], x));
                assert(false);
            }
        }
    }
}

} // verus!
