use syslab::warmup::{add_n, add_n_inplace, dedup};

#[test]
fn test_add_n() {
    assert_eq!(add_n(vec![1], 2), vec![3]);
}

#[test]
fn test_add_n_inplace() {
    let mut v = vec![1];
    add_n_inplace(&mut v, 2);
    assert_eq!(v, vec![3]);
}

#[test]
fn test_dedup() {
    let mut v = vec![3, 1, 0, 1, 4, 4];
    dedup(&mut v);
    assert_eq!(v, vec![3, 1, 0, 4]);
}

#[test]
fn add_n_of_nothing_is_nothing() {
    assert_eq!(add_n(vec![], 7), Vec::<i32>::new());
}

#[test]
fn add_n_reaches_both_ends_of_the_range() {
    assert_eq!(add_n(vec![i32::MAX - 1, i32::MIN], 1), vec![i32::MAX, i32::MIN + 1]);
    assert_eq!(add_n(vec![-5, 0, 5], -5), vec![-10, -5, 0]);
}

#[test]
fn add_n_inplace_changes_every_element() {
    let mut v = vec![10, -10, 0];
    add_n_inplace(&mut v, -3);
    assert_eq!(v, vec![7, -13, -3]);
}

#[test]
fn dedup_keeps_the_first_of_equal_elements() {
    let mut v = vec![5, 5, 5];
    dedup(&mut v);
    assert_eq!(v, vec![5]);
    let mut w = vec![1, 2, 1, 3, 2, 4];
    dedup(&mut w);
    assert_eq!(w, vec![1, 2, 3, 4]);
}

#[test]
fn dedup_leaves_distinct_elements_alone() {
    let mut v = vec![4, 3, 2, 1];
    dedup(&mut v);
    assert_eq!(v, vec![4, 3, 2, 1]);
    let mut e: Vec<i32> = vec![];
    dedup(&mut e);
    assert!(e.is_empty());
}
