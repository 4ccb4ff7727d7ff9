use mines::boundary::{boundary_changes, keep_absent, vec_contains};

#[test]
fn contains() {
    assert!(vec_contains(&vec![3, 4, 5], 4));
    assert!(!vec_contains(&vec![3, 4, 5], 6));
    assert!(!vec_contains(&vec![], 6));
}

#[test]
fn keep_absent_keeps_order() {
    assert_eq!(keep_absent(&vec![5, 1, 4, 1, 9], &vec![4, 9]), vec![5, 1, 1]);
}

#[test]
fn frozen_and_released() {
    let (freeze, release) = boundary_changes(&vec![1, 2, 3], &vec![3, 4, 4, 5]);
    assert_eq!(freeze, vec![4, 4, 5]);
    assert_eq!(release, vec![1, 2]);
}

#[test]
fn nothing_changes_when_hits_are_held() {
    let (freeze, release) = boundary_changes(&vec![7, 8], &vec![8, 7]);
    assert!(freeze.is_empty());
    assert!(release.is_empty());
}
