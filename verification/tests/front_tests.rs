use pareto::dominance::is_dominated;
use pareto::front::{pareto_front, pareto_front_incremental, pareto_sort_rs, ParetoError};
use pareto::parallel::pareto_front_parallel;

#[test]
fn mod_test_pareto_sort() {
    let points = vec![
        vec![1i64, 1, 3],
        vec![1i64, 1, 4],
        vec![1i64, 1, 5],
        vec![1i64, 1, 6],
        vec![1i64, 1, 7],
        vec![1i64, 1, 8],
        vec![1i64, 2, 8],
        vec![1i64, 2, 9],
        vec![1i64, 2, 10],
    ];
    let result = pareto_sort_rs(&points).unwrap();
    assert_eq!(result.len(), 1);

    assert_eq!(result[0], vec![1i64, 2, 10]);
}

#[test]
fn lib_test_pareto_sort() {
    let points = vec![
        vec![1i64, 2, 3],
        vec![1i64, 2, 4],
        vec![1i64, 2, 5],
        vec![1i64, 2, 6],
        vec![1i64, 2, 7],
        vec![1i64, 2, 8],
        vec![1i64, 2, 9],
        vec![1i64, 2, 10],
        vec![1i64, 2, 11],
        vec![1i64, 2, 12],
        vec![1i64, 2, 13],
        vec![1i64, 2, 14],
        vec![1i64, 2, 15],
        vec![1i64, 2, 16],
        vec![1i64, 2, 17],
        vec![1i64, 2, 18],
        vec![1i64, 2, 19],
        vec![1i64, 2, 20],
        vec![1i64, 2, 21],
        vec![1i64, 2, 22],
        vec![1i64, 2, 23],
        vec![1i64, 2, 24],
        vec![1i64, 2, 25],
        vec![1i64, 2, 26],
        vec![1i64, 2, 27],
        vec![1i64, 2, 28],
        vec![1i64, 2, 29],
    ];
    let result = pareto_sort_rs(&points).unwrap();
    assert_eq!(result.len(), 1);

    assert_eq!(result[0], vec![1i64, 2, 29]);
}

#[test]
fn test_empty_input_empty_output() {
    let points: Vec<Vec<i64>> = Vec::new();
    assert_eq!(pareto_front(&points), Vec::<Vec<i64>>::new());
    assert_eq!(pareto_front_incremental(&points), Vec::<Vec<i64>>::new());
    assert_eq!(pareto_front_parallel(&points), Vec::<Vec<i64>>::new());
    assert_eq!(pareto_sort_rs(&points), Ok(Vec::new()));
}

#[test]
fn test_already_optimal_set_unchanged() {
    // Pairwise incomparable points: each beats the others somewhere.
    let points = vec![vec![1i64, 3, 2], vec![1i64, 2, 3], vec![3i64, 1, 2]];
    assert_eq!(pareto_front(&points), points);
    assert_eq!(pareto_front_incremental(&points), points);
    assert_eq!(pareto_front_parallel(&points), points);
}

#[test]
fn test_duplicate_points_divergence() {
    // The two strategies differ on exact duplicates by design: the
    // incremental pass collapses them, the batch filter keeps every
    // copy, since a point never dominates its twin.
    let points = vec![vec![2i64, 2], vec![2i64, 2]];
    let incremental = pareto_front_incremental(&points);
    assert_eq!(incremental, vec![vec![2i64, 2]]);
    let batch = pareto_front(&points);
    assert_eq!(batch, vec![vec![2i64, 2], vec![2i64, 2]]);
    let parallel = pareto_front_parallel(&points);
    assert_eq!(parallel, batch);
}

#[test]
fn test_front_members_pairwise_incomparable() {
    let points = vec![
        vec![5i64, 0, 0],
        vec![0i64, 5, 0],
        vec![0i64, 0, 5],
        vec![4i64, 0, 0],
        vec![0i64, 4, 4],
        vec![5i64, 0, 0],
    ];
    for front in [
        pareto_front(&points),
        pareto_front_incremental(&points),
        pareto_front_parallel(&points),
    ] {
        for p in front.iter() {
            for q in front.iter() {
                assert!(!is_dominated(p, q), "{:?} dominates {:?}", q, p);
            }
        }
    }
}

#[test]
fn test_excluded_points_dominated_by_front() {
    let points = vec![
        vec![1i64, 1],
        vec![2i64, 2],
        vec![3i64, 1],
        vec![1i64, 3],
        vec![2i64, 0],
    ];
    let front = pareto_front(&points);
    assert_eq!(front, vec![vec![2i64, 2], vec![3i64, 1], vec![1i64, 3]]);
    for p in points.iter() {
        if !front.contains(p) {
            assert!(
                front.iter().any(|m| is_dominated(p, m)),
                "{:?} has no dominator in the front",
                p
            );
        }
    }
    assert_eq!(pareto_front_incremental(&points), front);
    assert_eq!(pareto_front_parallel(&points), front);
}

#[test]
fn test_length_mismatch_reported() {
    let points = vec![vec![1i64, 2], vec![4i64, 5], vec![1i64, 2, 3]];
    let result = pareto_sort_rs(&points);
    assert_eq!(
        result,
        Err(ParetoError::LengthMismatch { index: 2, expected: 2, found: 3 })
    );
}

#[test]
fn test_parallel_matches_batch() {
    let points = vec![
        vec![0i64, 9, 1],
        vec![1i64, 9, 1],
        vec![9i64, 0, 0],
        vec![1i64, 9, 0],
        vec![8i64, 0, 0],
    ];
    let batch = pareto_front(&points);
    assert_eq!(batch, vec![vec![1i64, 9, 1], vec![9i64, 0, 0]]);
    assert_eq!(pareto_front_parallel(&points), batch);
}

#[test]
fn test_later_point_evicts_earlier() {
    let points = vec![vec![1i64, 1], vec![5i64, 5], vec![1i64, 2], vec![6i64, 5]];
    let front = pareto_front_incremental(&points);
    assert_eq!(front, vec![vec![6i64, 5]]);
}
