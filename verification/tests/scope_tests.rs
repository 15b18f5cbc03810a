use choreo::scope::fix_scope;

#[test]
fn fix_scope_without_removed_entries_is_identity() {
    let removed: Vec<usize> = vec![];
    assert_eq!(fix_scope(0, &removed), 0);
    assert_eq!(fix_scope(7, &removed), 7);
}

#[test]
fn fix_scope_subtracts_removed_entries_below() {
    let removed = vec![1, 3, 4];
    assert_eq!(fix_scope(0, &removed), 0);
    assert_eq!(fix_scope(1, &removed), 1);
    assert_eq!(fix_scope(2, &removed), 1);
    assert_eq!(fix_scope(3, &removed), 2);
    assert_eq!(fix_scope(5, &removed), 2);
    assert_eq!(fix_scope(6, &removed), 3);
}

#[test]
fn fix_scope_is_monotonic_over_increasing_removals() {
    let removed = vec![0, 2, 5, 6, 9];
    let mut prev = 0;
    for i in 0..12 {
        let f = fix_scope(i, &removed);
        assert!(f <= i);
        assert!(f >= prev);
        prev = f;
    }
}

#[test]
fn fix_scope_counts_true_waypoints_before_index() {
    // path: waypoint, guess, guess, waypoint, guess, waypoint
    let removed = vec![1, 2, 4];
    assert_eq!(fix_scope(0, &removed), 0);
    assert_eq!(fix_scope(3, &removed), 1);
    assert_eq!(fix_scope(5, &removed), 2);
    // a guess entry maps to the waypoint that follows it
    assert_eq!(fix_scope(4, &removed), 2);
}
