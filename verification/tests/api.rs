use komika::api::{
    chapter_query_params, chunk_overflows, cover_query_params, declared_too_large,
    manga_query_params, on_attempt, retry_after_secs, Attempt, RetryAction, RetryState,
};
use komika::mangadex::SyncWindow;

fn p(v: &[(&str, &str)]) -> Vec<(String, String)> {
    v.iter().map(|(a, b)| (a.to_string(), b.to_string())).collect()
}

#[test]
fn retry_after_parses_and_clamps() {
    assert_eq!(retry_after_secs(Some("5")), Some(5));
    assert_eq!(retry_after_secs(Some("100000")), Some(60));
    assert_eq!(retry_after_secs(Some("Wed, 21 Oct 2015 07:28:00 GMT")), None);
    assert_eq!(retry_after_secs(None), None);
    assert_eq!(retry_after_secs(Some(" 7 ")), Some(7));
}

#[test]
fn list_queries() {
    assert_eq!(
        manga_query_params(SyncWindow::Updated, Some("2020-01-01T00:00:00"), 200),
        p(&[
            ("limit", "100"),
            ("offset", "200"),
            ("includes[]", "cover_art"),
            ("includes[]", "author"),
            ("includes[]", "artist"),
            ("order[updatedAt]", "asc"),
            ("contentRating[]", "safe"),
            ("contentRating[]", "suggestive"),
            ("contentRating[]", "erotica"),
            ("contentRating[]", "pornographic"),
            ("updatedAtSince", "2020-01-01T00:00:00"),
        ])
    );
    assert_eq!(
        chapter_query_params(SyncWindow::Created, None, 0),
        p(&[
            ("limit", "100"),
            ("offset", "0"),
            ("order[createdAt]", "asc"),
            ("includes[]", "manga"),
            ("translatedLanguage[]", "en"),
        ])
    );
    assert_eq!(
        cover_query_params("m", 500),
        p(&[("manga[]", "m"), ("limit", "100"), ("order[volume]", "asc")])
    );
    assert_eq!(cover_query_params("m", -4)[1].1, "1");
}

#[test]
fn requests_retry_within_their_budgets() {
    let st = RetryState { attempt: 0, transport_attempt: 0 };
    assert_eq!(on_attempt(st, Attempt::Status { code: 200, retry_after_secs: None }).1, RetryAction::Succeed);
    assert_eq!(on_attempt(st, Attempt::Status { code: 404, retry_after_secs: None }).1, RetryAction::FailStatus);
    assert_eq!(on_attempt(st, Attempt::Status { code: 429, retry_after_secs: Some(5) }).1, RetryAction::Wait(5_000));
    assert_eq!(on_attempt(st, Attempt::Status { code: 400, retry_after_secs: None }).1, RetryAction::Wait(500));
    let late = RetryState { attempt: 4, transport_attempt: 0 };
    assert_eq!(on_attempt(late, Attempt::Status { code: 503, retry_after_secs: None }).1, RetryAction::FailStatus);
    let (st2, a) = on_attempt(st, Attempt::TransportError { transient: true });
    assert_eq!(a, RetryAction::Wait(500));
    assert_eq!(st2.transport_attempt, 1);
    let tired = RetryState { attempt: 0, transport_attempt: 2 };
    assert_eq!(on_attempt(tired, Attempt::TransportError { transient: true }).1, RetryAction::FailTransport);
    assert_eq!(on_attempt(st, Attempt::TransportError { transient: false }).1, RetryAction::FailTransport);
}

#[test]
fn bodies_are_capped() {
    assert!(declared_too_large(Some(11), 10));
    assert!(!declared_too_large(Some(10), 10));
    assert!(!declared_too_large(None, 10));
    assert!(chunk_overflows(8, 3, 10));
    assert!(!chunk_overflows(7, 3, 10));
    assert!(chunk_overflows(0, usize::MAX, 10));
}
