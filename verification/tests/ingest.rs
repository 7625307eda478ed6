use komika::ingest::{
    add_listing_warning, after_listing, dispatch_fresh, empty_tally, job_end, listings,
    next_empty_streak, page_retry_backoff, should_fetch_next, should_flush, FetchType, JobEnd,
    ListingResult, Progress,
};

#[test]
fn progress_records_decisions() {
    let mut p = Progress::default();
    for d in ["new", "auto_merge", "review", "existing", "new", "review_consolidated"] {
        p.record_decision(d);
    }
    p.record_failure();
    assert_eq!(p.succeeded, 6);
    assert_eq!(p.new_works, 2);
    assert_eq!(p.auto_merged, 1);
    assert_eq!(p.queued_for_review, 2);
    assert_eq!(p.already_existing, 1);
    assert_eq!(p.failed, 1);
    assert_eq!(
        p.new_works + p.auto_merged + p.queued_for_review + p.already_existing,
        p.succeeded
    );
}

#[test]
fn every_listing_is_walked_not_just_popular() {
    let labels: Vec<&str> = listings().iter().map(|(_, l)| *l).collect();
    assert_eq!(labels, vec!["popular", "latest"]);
    assert!(
        listings().iter().any(|(t, _)| matches!(t, FetchType::Latest)),
        "LATEST reaches catalogues POPULAR cannot"
    );
}

#[test]
fn uuid_consolidation_counts_as_an_auto_merge_and_unknown_decisions_count_only_as_success() {
    let mut p = Progress::default();
    p.record_decision("mangadex_id");
    p.record_decision("weird");
    assert_eq!(p.auto_merged, 1);
    assert_eq!(p.succeeded, 2);
    assert_eq!(p.new_works + p.queued_for_review + p.already_existing, 0);
}

#[test]
fn listings_share_one_dispatch_set() {
    let mut seen = std::collections::HashSet::new();
    assert_eq!(dispatch_fresh(&mut seen, &[1, 2, 2, 3]), vec![1, 2, 3]);
    assert_eq!(dispatch_fresh(&mut seen, &[3, 4, 1]), vec![4]);
    assert_eq!(seen.len(), 4);
}

#[test]
fn page_walk_rules() {
    assert_eq!(next_empty_streak(0, 0), 1);
    assert_eq!(next_empty_streak(2, 5), 0);
    assert!(should_fetch_next(true, 1, 0));
    assert!(should_fetch_next(true, 999, 2));
    assert!(!should_fetch_next(true, 1000, 0));
    assert!(!should_fetch_next(true, 5, 3));
    assert!(!should_fetch_next(false, 1, 0));
    assert!(should_flush(5));
    assert!(!should_flush(6));
    assert_eq!(page_retry_backoff(1), Some(2_000));
    assert_eq!(page_retry_backoff(2), Some(4_000));
    assert_eq!(page_retry_backoff(3), None);
}

#[test]
fn a_job_completes_when_any_listing_walked() {
    let t = empty_tally();
    let (t, end) = after_listing(t, "popular", ListingResult::Failed("boom".into()));
    assert!(end.is_none());
    let (t, end) = after_listing(t, "latest", ListingResult::Done);
    assert!(end.is_none());
    assert_eq!(job_end(t), JobEnd::Completed(Some("popular listing failed: boom".to_string())));
    let t = empty_tally();
    let (t, _) = after_listing(t, "popular", ListingResult::Failed("a".into()));
    let (t, _) = after_listing(t, "latest", ListingResult::Failed("b".into()));
    assert_eq!(t.warning.as_deref(), Some("popular listing failed: a; latest listing failed: b"));
    assert_eq!(job_end(t), JobEnd::Failed(Some("b".to_string())));
    let (_, end) = after_listing(empty_tally(), "popular", ListingResult::Cancelled);
    assert_eq!(end, Some(JobEnd::Cancelled));
    assert_eq!(add_listing_warning(None, "x", "y"), "x listing failed: y");
}
