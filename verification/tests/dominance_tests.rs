use pareto::dominance::{domination_order, is_dominated, DominationOrder};

#[test]
fn test_is_dominated_eq_false() {
    let a = vec![1i64, 2, 3];
    let b = vec![1i64, 2, 4];
    let result = is_dominated(&a, &b);
    assert_eq!(result, true);
}

#[test]
fn test_is_dominated_eq_true() {
    let a = vec![1i64, 2, 4];
    let b = vec![1i64, 2, 3];
    let result = is_dominated(&a, &b);
    assert_eq!(result, false);
}

#[test]
fn test_domination_order_eq_less() {
    let a = vec![1i64, 2, 3];
    let b = vec![1i64, 2, 4];
    let result = domination_order(&a, &b);
    assert_eq!(result, DominationOrder::Greater);
}

#[test]
fn test_domination_order_eq_greater() {
    let a = vec![1i64, 2, 4];
    let b = vec![1i64, 2, 3];
    let result = domination_order(&a, &b);
    assert_eq!(result, DominationOrder::Less);
}

#[test]
fn test_domination_order_eq_equal_because_actually_equal() {
    let a = vec![1i64, 2, 3];
    let b = vec![1i64, 2, 3];
    let result = domination_order(&a, &b);
    assert_eq!(result, DominationOrder::Equal);
}

#[test]
fn test_domination_order_eq_equal_because_no_pareto_optimal_front() {
    let a = vec![1i64, 3, 2];
    let b = vec![1i64, 2, 3];
    let result = domination_order(&a, &b);
    assert_eq!(result, DominationOrder::Equal);
}

#[test]
fn test_no_point_dominates_itself() {
    for p in [vec![0i64], vec![1i64, 2, 3], vec![-5i64, -5, 7, 9]] {
        assert_eq!(is_dominated(&p, &p), false);
    }
}

#[test]
fn test_domination_is_asymmetric() {
    let a = vec![4i64, 4, 3];
    let b = vec![4i64, 4, 4];
    assert!(is_dominated(&a, &b));
    assert!(!is_dominated(&b, &a));
}
