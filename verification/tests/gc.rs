use komika::gc::{budget_spent, missing_series_ids, missing_work_ids, orphan_rate_sane, sweep_allowed, COVER_SWEEP_MIN_WORKS};

#[test]
fn orphan_rate_breaker_thresholds() {
    assert!(orphan_rate_sane(0, 0));
    assert!(orphan_rate_sane(155, 2_000));
    assert!(orphan_rate_sane(500, 2_000));
    assert!(!orphan_rate_sane(501, 2_000));
    assert!(!orphan_rate_sane(2_000, 2_000));
}

#[test]
fn sweep_guards() {
    assert!(!sweep_allowed(9_999, COVER_SWEEP_MIN_WORKS));
    assert!(sweep_allowed(10_000, COVER_SWEEP_MIN_WORKS));
    assert!(!budget_spent(999));
    assert!(budget_spent(1_000));
    assert!(orphan_rate_sane(usize::MAX / 4, usize::MAX));
}

#[test]
fn orphans_are_the_ids_without_an_owner() {
    let live: std::collections::HashSet<i64> = [2, 4].into_iter().collect();
    assert_eq!(missing_series_ids(&[1, 2, 3, 4], &live), vec![1, 3]);
    assert!(missing_series_ids(&[], &live).is_empty());
    let ids = vec!["w_a".to_string(), "w_b".to_string(), "w_c".to_string()];
    let live = vec!["w_b".to_string()];
    assert_eq!(missing_work_ids(&ids, &live), vec!["w_a".to_string(), "w_c".to_string()]);
}
