//! Pareto-front computation over points in a multi-objective space.
//!
//! A point is an ordered list of coordinates, all read as "higher is
//! better".  The crate provides the dominance predicate, a three-way
//! domination order, and two front builders that keep exactly the points
//! no other point dominates: a batch filter (also available in a
//! parallel form) and an incremental single pass that collapses exact
//! duplicates.

pub mod dominance;
pub mod front;
pub mod laws;
pub mod parallel;
