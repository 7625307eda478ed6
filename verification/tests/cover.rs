use komika::cover::{
    after_cover_encoding, check_cover_source, cover_edges, classify_cover_error, classify_cover_message,
    cover_path, is_transient_cover_error, pending_mangadex_cover, pending_suwayomi_cover,
    settle_attempt, uncached_ids, warm_cursor_next, warm_should_wrap, work_cover_url,
    CoverAttempt, IssueAction, LadderNext, WARM_CURSOR_START,
};

fn err(msg: &'static str) -> anyhow::Error {
    anyhow::Error::msg(msg)
}

#[test]
fn classify_cover_error_maps_reasons() {
    assert_eq!(classify_cover_error(&err("cover source too large (max 24 MB)")), "too_large");
    assert_eq!(classify_cover_error(&err("image too large or unsupported")), "unsupported");
    assert_eq!(classify_cover_error(&err("empty cover source")), "empty");
    assert_eq!(classify_cover_error(&err("libwebp exploded")), "encode");
}

#[test]
fn cover_path_is_versioned() {
    assert_eq!(cover_path("w_abc", 99), "/covers/w_abc.webp?v=99");
}

#[test]
fn work_cover_url_prefers_cached_then_own_lazy_route() {
    assert_eq!(
        work_cover_url("w_1", Some(7), Some("md-uuid"), Some("f.jpg")),
        "/covers/w_1.webp?v=7"
    );
    assert_eq!(
        work_cover_url("w_1", None, Some("md-uuid"), Some("f.jpg")),
        "/covers/w_1.webp"
    );
    assert_eq!(work_cover_url("w_1", None, None, None), "");
    assert_eq!(work_cover_url("w_1", None, Some("md-uuid"), None), "");
}

#[test]
fn deterministic_cover_errors_stay_non_transient() {
    for msg in [
        "cover source too large (max 24 MB)",
        "image too large or unsupported",
        "empty cover source",
        "libwebp exploded",
    ] {
        assert!(!is_transient_cover_error(&err(msg)), "{msg} must remain recordable");
    }
    assert!(is_transient_cover_error(&err("truncated JPEG (no EOI marker)")));
}

#[test]
fn cover_reasons_are_case_insensitive_and_ordered() {
    assert_eq!(classify_cover_message("Source Too Large"), "too_large");
    assert_eq!(classify_cover_message("TRUNCATED download"), "truncated");
    assert_eq!(classify_cover_message("corrupt header"), "unsupported");
    assert_eq!(classify_cover_message("image has a zero dimension"), "unsupported");
    // "too large" alone is not "source too large".
    assert_eq!(classify_cover_message("too large"), "encode");
}

#[test]
fn negative_versions_and_empty_anchors() {
    assert_eq!(cover_path("w", -3), "/covers/w.webp?v=-3");
    assert_eq!(work_cover_url("w", None, Some(""), Some("f.jpg")), "");
    assert_eq!(work_cover_url("w", None, Some("m"), Some("")), "");
}

#[test]
fn crawl_jobs_need_a_nonempty_anchor() {
    let p = pending_mangadex_cover("w".into(), Some("m".into()), Some("f.jpg".into())).unwrap();
    assert_eq!((p.work_id.as_str(), p.mangadex_id.as_str(), p.file_name.as_str()), ("w", "m", "f.jpg"));
    assert!(pending_mangadex_cover("w".into(), Some("".into()), Some("f.jpg".into())).is_none());
    assert!(pending_mangadex_cover("w".into(), None, Some("f.jpg".into())).is_none());
    assert_eq!(
        pending_suwayomi_cover("w".into(), Some("http://t".into())),
        Some(("w".to_string(), "http://t".to_string()))
    );
    assert_eq!(pending_suwayomi_cover("w".into(), Some("".into())), None);
}

#[test]
fn attempts_settle_the_issue_row() {
    assert_eq!(settle_attempt(CoverAttempt::Stored), (true, IssueAction::Clear));
    assert_eq!(settle_attempt(CoverAttempt::FetchFailed), (false, IssueAction::Leave));
    assert_eq!(settle_attempt(CoverAttempt::ProcessPanicked), (false, IssueAction::Leave));
    assert_eq!(
        settle_attempt(CoverAttempt::StoreFailed("disk".into())),
        (false, IssueAction::Record("store", "disk".to_string()))
    );
    assert_eq!(
        settle_attempt(CoverAttempt::ProcessFailed("truncated JPEG".into())),
        (false, IssueAction::Leave)
    );
    assert_eq!(
        settle_attempt(CoverAttempt::ProcessFailed("empty cover source".into())),
        (false, IssueAction::Record("empty", "empty cover source".to_string()))
    );
}

#[test]
fn warmer_window_and_cursor() {
    let cached: std::collections::HashSet<i64> = [9, 7].into_iter().collect();
    assert_eq!(uncached_ids(&[10, 9, 8, 7, 6, 5], &cached, 3), vec![10, 8, 6]);
    assert_eq!(uncached_ids(&[10, 9], &cached, 0), Vec::<i64>::new());
    assert_eq!(uncached_ids(&[10, 9], &cached, -1), Vec::<i64>::new());
    assert_eq!(warm_cursor_next(&[10, 8, 6], 3), 6);
    assert_eq!(warm_cursor_next(&[10, 8], 3), WARM_CURSOR_START);
    assert_eq!(warm_cursor_next(&[], 3), WARM_CURSOR_START);
    assert!(warm_should_wrap(true, 42));
    assert!(!warm_should_wrap(true, WARM_CURSOR_START));
    assert!(!warm_should_wrap(false, 42));
}

#[test]
fn cover_ladder_walks_quality_then_edge() {
    assert_eq!(after_cover_encoding(0, 0, 1000), LadderNext::Accept);
    assert_eq!(after_cover_encoding(0, 0, 200_000), LadderNext::Try(0, 1));
    assert_eq!(after_cover_encoding(0, 4, 200_000), LadderNext::Try(1, 0));
    assert_eq!(after_cover_encoding(2, 4, 200_000), LadderNext::Fallback);
    assert_eq!(after_cover_encoding(2, 4, 153_600), LadderNext::Accept);
    assert_eq!(check_cover_source(0), Some("empty cover source"));
    assert_eq!(check_cover_source(25_165_825), Some("cover source too large (max 24 MB)"));
    assert_eq!(check_cover_source(25_165_824), None);
}

#[test]
fn cover_edges_are_largest_first() {
    assert_eq!(cover_edges(), vec![512, 448, 384]);
}
