//! The dominance relation between two points, and the three-way
//! domination order built from it.

use vstd::prelude::*;

verus! {

/// `a` dominates `b` when the two points have the same number of
/// coordinates, `a` is at least as large on every coordinate, and
/// strictly larger on at least one.
pub open spec fn spec_dominates(a: Seq<i64>, b: Seq<i64>) -> bool {
    &&& a.len() == b.len()
    &&& forall|i: int| 0 <= i < a.len() ==> a[i] >= b[i]
    &&& exists|i: int| 0 <= i < a.len() && a[i] > b[i]
}

/// Reports whether `a` is dominated by `b`: whether `b` is at least as
/// large on every coordinate and strictly larger on at least one.
pub fn is_dominated(a: &Vec<i64>, b: &Vec<i64>) -> (r: bool)
    requires
        a@.len() == b@.len(),
    ensures
        r == spec_dominates(b@, a@),
{
    let mut all_le: bool = true;
    let mut any_lt: bool = false;
    let n: usize = a.len();
    for i in 0..n
        invariant
            n == a@.len(),
            a@.len() == b@.len(),
            all_le <==> (forall|j: int| 0 <= j < i ==> b@[j] >= a@[j]),
            any_lt <==> (exists|j: int| 0 <= j < i && b@[j] > a@[j]),
    {
        if a[i] > b[i] {
            all_le = false;
        }
        if a[i] < b[i] {
            any_lt = true;
        }
    }
    all_le && any_lt
}

/// The three possible outcomes of comparing two points under the
/// domination order.
#[derive(Clone, Copy, Debug, PartialEq, Eq, Structural)]
pub enum DominationOrder {
    Less,
    Equal,
    Greater,
}

/// Classifies two points under the domination order: `Greater` when `a`
/// is dominated by `b`, `Less` when `b` is dominated by `a`, and
/// `Equal` when neither dominates the other — which covers both
/// coordinate-wise identical points and genuinely incomparable ones.
pub fn domination_order(a: &Vec<i64>, b: &Vec<i64>) -> (r: DominationOrder)
    requires
        a@.len() == b@.len(),
    ensures
        (r == DominationOrder::Greater) <==> spec_dominates(b@, a@),
        (r == DominationOrder::Less) <==> spec_dominates(a@, b@),
        (r == DominationOrder::Equal) <==> (!spec_dominates(a@, b@) && !spec_dominates(b@, a@)),
{
    if is_dominated(a, b) {
        proof {
            lemma_dominates_asymmetric(b@, a@);
        }
        DominationOrder::Greater
    } else if is_dominated(b, a) {
        DominationOrder::Less
    } else {
        DominationOrder::Equal
    }
}

/// No point dominates itself: the strict-improvement coordinate that
/// domination asks for cannot exist between a point and itself.
pub proof fn lemma_dominates_irreflexive(p: Seq<i64>)
    ensures
        !spec_dominates(p, p),
{
}

/// Domination is asymmetric: when `a` dominates `b`, `b` does not
/// dominate `a`.
pub proof fn lemma_dominates_asymmetric(a: Seq<i64>, b: Seq<i64>)
    requires
        spec_dominates(a, b),
    ensures
        !spec_dominates(b, a),
{
    if spec_dominates(b, a) {
        let i = choose|i: int| 0 <= i < a.len() && a[i] > b[i];
        assert(b[i] >= a[i]);
        assert(false);
    }
}

/// Domination is transitive: when `a` dominates `b` and `b` dominates
/// `c`, `a` also dominates `c`.
pub proof fn lemma_dominates_transitive(a: Seq<i64>, b: Seq<i64>, c: Seq<i64>)
    requires
        spec_dominates(a, b),
        spec_dominates(b, c),
    ensures
        spec_dominates(a, c),
{
    assert forall|j: int| 0 <= j < a.len() implies a[j] >= c[j] by {
        assert(a[j] >= b[j]);
        assert(b[j] >= c[j]);
    }
    let i = choose|i: int| 0 <= i < a.len() && a[i] > b[i];
    assert(b[i] >= c[i]);
    assert(a[i] > c[i]);
}

} // verus!
