//! The batch builder fanned out over rayon's worker threads.  The
//! per-point test is the verified `none_dominates` scan; only the
//! fan-out and gather are taken on trust.

use vstd::prelude::*;
use rayon::iter::{IntoParallelRefIterator, ParallelIterator};
use crate::front::{batch_front, none_dominates, point_views, uniform_dims};

verus! {

/// Relies on rayon's `par_iter`, `ParallelIterator::filter`,
/// `ParallelIterator::cloned` and `collect` into `Vec`: the filter
/// keeps exactly the elements its predicate accepts, and collecting
/// into a vector concatenates the per-split results in input order.
/// The predicate handed over is the verified `none_dominates` scan.
#[verifier::external_body]
fn par_filter_maximal(points: &Vec<Vec<i64>>) -> (r: Vec<Vec<i64>>)
    requires
        uniform_dims(point_views(points@)),
    ensures
        point_views(r@) == batch_front(point_views(points@)),
{
    points.par_iter().filter(|p| none_dominates(p, points)).cloned().collect()
}

/// The batch builder run in parallel: the same result as
/// `pareto_front`, computed by independent per-point scans on worker
/// threads — the comparisons share no mutable state, so the schedule
/// cannot change the outcome.
pub fn pareto_front_parallel(points: &Vec<Vec<i64>>) -> (r: Vec<Vec<i64>>)
    requires
        uniform_dims(point_views(points@)),
    ensures
        point_views(r@) == batch_front(point_views(points@)),
{
    par_filter_maximal(points)
}

} // verus!
