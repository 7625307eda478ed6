use komika::db::{is_locked_error, is_locked_message};
use komika::notify::is_like_milestone;

#[test]
fn like_milestones() {
    for n in [1, 5, 10, 25, 50, 100, 250, 500, 1000, 2500, 5000, 10000] {
        assert!(is_like_milestone(n));
    }
    for n in [0, 2, 11, 9999, 10001, -1] {
        assert!(!is_like_milestone(n));
    }
}

#[test]
fn lock_contention_is_recognised() {
    assert!(is_locked_error(&anyhow::Error::msg("error returned from database: database is locked")));
    assert!(is_locked_message("database table is locked: work"));
    assert!(!is_locked_message("no such table: work"));
}
