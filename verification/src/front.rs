//! The two Pareto-front builders: a batch filter over the whole point
//! set, and an incremental single pass that maintains a working front.

use vstd::prelude::*;
use crate::dominance::{
    spec_dominates, is_dominated, domination_order, DominationOrder, lemma_dominates_asymmetric,
    lemma_dominates_irreflexive,
};

verus! {

/// The views of a sequence of points, one coordinate sequence per point.
pub open spec fn point_views(ps: Seq<Vec<i64>>) -> Seq<Seq<i64>> {
    Seq::new(ps.len(), |i: int| ps[i]@)
}

/// All points in the set have the same number of coordinates.
pub open spec fn uniform_dims(ps: Seq<Seq<i64>>) -> bool {
    forall|i: int, j: int|
        0 <= i < ps.len() && 0 <= j < ps.len() ==> (#[trigger] ps[i].len()) == (#[trigger] ps[j].len())
}

/// Some point of `ps` dominates `p`.
pub open spec fn dominated_within(p: Seq<i64>, ps: Seq<Seq<i64>>) -> bool {
    exists|i: int| 0 <= i < ps.len() && spec_dominates(ps[i], p)
}

/// The retain predicate of the batch builder: a point is kept exactly
/// when no point of the whole set dominates it.
pub open spec fn keeps_maximal(ps: Seq<Seq<i64>>) -> spec_fn(Seq<i64>) -> bool {
    |p: Seq<i64>| !dominated_within(p, ps)
}

/// What the batch builder returns: the input sequence filtered down to
/// the points that no point of the set dominates, in input order.
pub open spec fn batch_front(ps: Seq<Seq<i64>>) -> Seq<Seq<i64>> {
    ps.filter(keeps_maximal(ps))
}

/// The retain predicate the incremental builder applies to the working
/// front when point `p` arrives: a member survives unless `p` dominates
/// it or is its exact duplicate.
pub open spec fn survives(p: Seq<i64>) -> spec_fn(Seq<i64>) -> bool {
    |m: Seq<i64>| !spec_dominates(p, m) && m != p
}

/// One step of the incremental builder: the working front keeps its
/// surviving members, and the incoming point is appended unless some
/// member dominates it.
pub open spec fn incremental_step(front: Seq<Seq<i64>>, p: Seq<i64>) -> Seq<Seq<i64>> {
    let kept = front.filter(survives(p));
    if dominated_within(p, front) {
        kept
    } else {
        kept.push(p)
    }
}

/// What the incremental builder returns: the working front left after
/// feeding it every point of `ps` in order.
pub open spec fn incremental_front(ps: Seq<Seq<i64>>) -> Seq<Seq<i64>>
    decreases ps.len(),
{
    if ps.len() == 0 {
        Seq::empty()
    } else {
        incremental_step(incremental_front(ps.drop_last()), ps.last())
    }
}

/// Filtering a sequence extended by one element keeps the filtered
/// prefix and appends the new element exactly when the predicate
/// accepts it.
pub(crate) proof fn lemma_filter_push<A>(s: Seq<A>, x: A, pred: spec_fn(A) -> bool)
    ensures
        s.push(x).filter(pred) == if pred(x) {
            s.filter(pred).push(x)
        } else {
            s.filter(pred)
        },
{
    reveal(Seq::filter);
    assert(s.push(x).drop_last() =~= s);
    assert(s.push(x).last() == x);
}

/// A fresh copy of one point.
fn clone_point(p: &Vec<i64>) -> (r: Vec<i64>)
    ensures
        r@ == p@,
{
    let mut out: Vec<i64> = Vec::new();
    let n: usize = p.len();
    for i in 0..n
        invariant
            n == p@.len(),
            out@.len() == i,
            forall|j: int| 0 <= j < i ==> out@[j] == p@[j],
    {
        out.push(p[i]);
    }
    proof {
        assert(out@ =~= p@);
    }
    out
}

/// Coordinate-wise equality of two points.
fn points_equal(a: &Vec<i64>, b: &Vec<i64>) -> (r: bool)
    ensures
        r == (a@ == b@),
{
    if a.len() != b.len() {
        return false;
    }
    let n: usize = a.len();
    for i in 0..n
        invariant
            n == a@.len(),
            a@.len() == b@.len(),
            forall|j: int| 0 <= j < i ==> a@[j] == b@[j],
    {
        if a[i] != b[i] {
            return false;
        }
    }
    proof {
        assert(a@ =~= b@);
    }
    true
}

/// Scans the whole set and reports whether no point of it dominates
/// `p`.  A point never dominates itself, so the scan may meet `p`'s own
/// entry without effect.
pub fn none_dominates(p: &Vec<i64>, points: &Vec<Vec<i64>>) -> (r: bool)
    requires
        forall|i: int| 0 <= i < points@.len() ==> (#[trigger] points@[i]@.len()) == p@.len(),
    ensures
        r == !dominated_within(p@, point_views(points@)),
{
    let n: usize = points.len();
    for i in 0..n
        invariant
            n == points@.len(),
            forall|k: int| 0 <= k < points@.len() ==> (#[trigger] points@[k]@.len()) == p@.len(),
            !dominated_within(p@, point_views(points@).take(i as int)),
    {
        if is_dominated(p, &points[i]) {
            proof {
                assert(spec_dominates(point_views(points@)[i as int], p@));
            }
            return false;
        }
        proof {
            assert(point_views(points@).take(i + 1) =~= point_views(points@).take(i as int).push(
                point_views(points@)[i as int],
            ));
        }
    }
    proof {
        assert(point_views(points@).take(n as int) =~= point_views(points@));
    }
    true
}

/// The batch builder: keeps exactly the points of the set that no point
/// of the set dominates, in input order.  Every surviving copy of a
/// duplicated point is kept, since a point never dominates its twin.
pub fn pareto_front(points: &Vec<Vec<i64>>) -> (r: Vec<Vec<i64>>)
    requires
        uniform_dims(point_views(points@)),
    ensures
        point_views(r@) == batch_front(point_views(points@)),
{
    let ghost all = point_views(points@);
    let mut front: Vec<Vec<i64>> = Vec::new();
    let n: usize = points.len();
    for i in 0..n
        invariant
            n == points@.len(),
            all == point_views(points@),
            uniform_dims(all),
            point_views(front@) == all.take(i as int).filter(keeps_maximal(all)),
    {
        let ghost front_before = point_views(front@);
        proof {
            assert forall|k: int| 0 <= k < points@.len() implies (#[trigger] points@[k]@.len())
                == points@[i as int]@.len() by {
                assert(all[k].len() == all[i as int].len());
            }
        }
        if none_dominates(&points[i], points) {
            front.push(clone_point(&points[i]));
            proof {
                assert(point_views(front@) =~= front_before.push(all[i as int]));
            }
        }
        proof {
            lemma_filter_push(all.take(i as int), all[i as int], keeps_maximal(all));
            assert(all.take(i + 1) =~= all.take(i as int).push(all[i as int]));
        }
    }
    proof {
        assert(all.take(n as int) =~= all);
    }
    front
}

/// The incremental builder: processes the points in order, keeping a
/// working front.  An incoming point evicts the members it dominates
/// and the member it exactly duplicates, and is itself discarded when a
/// member dominates it, so exact duplicates collapse to a single
/// surviving copy while merely incomparable members stay untouched.
pub fn pareto_front_incremental(points: &Vec<Vec<i64>>) -> (r: Vec<Vec<i64>>)
    requires
        uniform_dims(point_views(points@)),
    ensures
        point_views(r@) == incremental_front(point_views(points@)),
{
    let ghost all = point_views(points@);
    let mut front: Vec<Vec<i64>> = Vec::new();
    let n: usize = points.len();
    for i in 0..n
        invariant
            n == points@.len(),
            all == point_views(points@),
            uniform_dims(all),
            point_views(front@) == incremental_front(all.take(i as int)),
            n > 0 ==> forall|k: int|
                0 <= k < front@.len() ==> (#[trigger] front@[k]@.len()) == all[0].len(),
    {
        let p = &points[i];
        let ghost front_old = point_views(front@);
        let mut kept: Vec<Vec<i64>> = Vec::new();
        let mut dominated: bool = false;
        let m_count: usize = front.len();
        proof {
            assert(all[i as int].len() == all[0].len());
            assert(p@.len() == all[i as int].len());
        }
        for j in 0..m_count
            invariant
                m_count == front@.len(),
                front_old == point_views(front@),
                forall|k: int| 0 <= k < front@.len() ==> (#[trigger] front@[k]@.len()) == p@.len(),
                point_views(kept@) == front_old.take(j as int).filter(survives(p@)),
                dominated == dominated_within(p@, front_old.take(j as int)),
                forall|k: int| 0 <= k < kept@.len() ==> (#[trigger] kept@[k]@.len()) == p@.len(),
        {
            let m = &front[j];
            let ghost kept_before = point_views(kept@);
            match domination_order(m, p) {
                DominationOrder::Less => {
                    proof {
                        lemma_dominates_asymmetric(m@, p@);
                        if m@ == p@ {
                            lemma_dominates_irreflexive(p@);
                        }
                        assert(spec_dominates(front_old[j as int], p@));
                    }
                    dominated = true;
                    kept.push(clone_point(m));
                    proof {
                        assert(point_views(kept@) =~= kept_before.push(m@));
                    }
                },
                DominationOrder::Greater => {},
                DominationOrder::Equal => {
                    if !points_equal(m, p) {
                        kept.push(clone_point(m));
                        proof {
                            assert(point_views(kept@) =~= kept_before.push(m@));
                        }
                    }
                },
            }
            proof {
                lemma_filter_push(front_old.take(j as int), front_old[j as int], survives(p@));
                assert(front_old.take(j + 1) =~= front_old.take(j as int).push(
                    front_old[j as int],
                ));
                let prefix = front_old.take(j as int);
                let next = front_old.take(j + 1);
                if spec_dominates(front_old[j as int], p@) {
                    assert(spec_dominates(next[j as int], p@));
                    assert(dominated_within(p@, next));
                } else {
                    if dominated_within(p@, next) {
                        let t = choose|t: int|
                            0 <= t < next.len() && spec_dominates(next[t], p@);
                        assert(spec_dominates(prefix[t], p@));
                    }
                    if dominated_within(p@, prefix) {
                        let t = choose|t: int|
                            0 <= t < prefix.len() && spec_dominates(prefix[t], p@);
                        assert(spec_dominates(next[t], p@));
                    }
                    assert(dominated_within(p@, next) == dominated_within(p@, prefix));
                }
            }
        }
        proof {
            assert(front_old.take(m_count as int) =~= front_old);
        }
        front = kept;
        if !dominated {
            let ghost kept_views = point_views(front@);
            front.push(clone_point(p));
            proof {
                assert(point_views(front@) =~= kept_views.push(p@));
            }
        }
        proof {
            assert(all.take(i + 1).drop_last() =~= all.take(i as int));
            assert(all.take(i + 1).last() == all[i as int]);
            assert(point_views(front@) =~= incremental_front(all.take(i + 1)));
        }
    }
    proof {
        assert(all.take(n as int) =~= all);
    }
    front
}

/// The one failure the entry point reports: two points of the input
/// disagree on their coordinate count.  `index` is the first offending
/// position, `expected` the coordinate count of the first point, and
/// `found` the count met at `index`.
#[derive(Clone, Copy, Debug, PartialEq, Eq, Structural)]
pub enum ParetoError {
    LengthMismatch { index: usize, expected: usize, found: usize },
}

/// The external entry point: checks that all points share one
/// coordinate count, then runs the incremental builder.  A mismatch is
/// reported as an error naming the first offending point; no partial
/// front is produced.
pub fn pareto_sort_rs(points: &Vec<Vec<i64>>) -> (r: Result<Vec<Vec<i64>>, ParetoError>)
    ensures
        uniform_dims(point_views(points@)) ==> (r matches Ok(front) && point_views(front@)
            == incremental_front(point_views(points@))),
        !uniform_dims(point_views(points@)) ==> (r matches Err(e)
            && e matches ParetoError::LengthMismatch { index, expected, found }
            && 0 < index < points@.len() && expected == points@[0]@.len() && found == points@[
            index as int]@.len() && found != expected && forall|j: int|
            0 <= j < index ==> (#[trigger] points@[j]@.len()) == points@[0]@.len()),
{
    let ghost all = point_views(points@);
    if points.len() == 0 {
        let empty_front: Vec<Vec<i64>> = Vec::new();
        proof {
            assert(point_views(empty_front@) =~= Seq::<Seq<i64>>::empty());
            assert(all =~= Seq::<Seq<i64>>::empty());
        }
        return Ok(empty_front);
    }
    let expected: usize = points[0].len();
    let n: usize = points.len();
    for i in 1..n
        invariant
            n == points@.len(),
            n > 0,
            all == point_views(points@),
            expected == points@[0]@.len(),
            forall|j: int| 0 <= j < i ==> (#[trigger] points@[j]@.len()) == points@[0]@.len(),
    {
        let found: usize = points[i].len();
        if found != expected {
            proof {
                assert(all[0].len() != all[i as int].len());
                assert(!uniform_dims(all));
            }
            return Err(ParetoError::LengthMismatch { index: i, expected, found });
        }
    }
    proof {
        assert forall|a: int, b: int|
            0 <= a < all.len() && 0 <= b < all.len() implies (#[trigger] all[a].len())
            == (#[trigger] all[b].len()) by {
            assert(points@[a]@.len() == points@[0]@.len());
            assert(points@[b]@.len() == points@[0]@.len());
        }
    }
    Ok(pareto_front_incremental(points))
}

} // verus!
