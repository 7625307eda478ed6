use komika::discovery::{
    moved_up_or_entered, poll_step, snapshot_window, subscribed_english_sources, PollStep, SourceEntry,
    SNAPSHOT_WINDOW,
};

#[test]
fn a_new_chapter_moves_a_series_to_the_top_and_flags_only_it() {
    let prev = vec![10, 20, 30, 40];
    let curr = vec![30, 10, 20, 40];
    assert_eq!(moved_up_or_entered(&prev, &curr), vec![30]);
}

#[test]
fn an_entrant_is_flagged() {
    let prev = vec![10, 20, 30, 40];
    let curr = vec![99, 10, 20, 30];
    assert_eq!(moved_up_or_entered(&prev, &curr), vec![99]);
}

#[test]
fn a_pure_downward_shift_flags_nothing() {
    let prev = vec![10, 20, 30];
    let curr = vec![10, 20, 30];
    assert!(moved_up_or_entered(&prev, &curr).is_empty());
}

#[test]
fn simultaneous_updates_flag_all_movers() {
    let prev = vec![10, 20, 30];
    let curr = vec![50, 40, 10, 20];
    assert_eq!(moved_up_or_entered(&prev, &curr), vec![50, 40]);
}

#[test]
fn a_page_that_grows_does_not_flag_the_newly_visible_tail() {
    let prev = vec![10, 20, 30];
    let curr = vec![10, 20, 30, 40, 50, 60];
    assert!(moved_up_or_entered(&prev, &curr).is_empty());
}

#[test]
fn a_page_that_shrinks_then_grows_does_not_flag_the_returning_tail() {
    let full = vec![10, 20, 30, 40, 50, 60];
    let short = vec![10, 20, 30];
    assert!(moved_up_or_entered(&full, &short).is_empty());
    assert!(moved_up_or_entered(&short, &full).is_empty());
}

#[test]
fn a_genuine_entrant_is_still_flagged_after_the_page_shrank() {
    let short = vec![10, 20, 30];
    let curr = vec![99, 10, 20, 30, 40, 50];
    assert_eq!(moved_up_or_entered(&short, &curr), vec![99]);
}

#[test]
fn rank_one_repeat_is_the_known_false_negative() {
    let prev = vec![10, 20, 30];
    let curr = vec![10, 20, 30];
    assert!(moved_up_or_entered(&prev, &curr).is_empty());
}

#[test]
fn a_repeated_id_keeps_its_last_rank() {
    // The previous snapshot's rank of an id is its LAST position there.
    assert_eq!(moved_up_or_entered(&[5, 5], &[5, 5]), vec![5]);
    assert!(moved_up_or_entered(&[], &[1, 2]).is_empty());
}

#[test]
fn poll_skips_empty_baselines_first_and_diffs_after() {
    assert_eq!(poll_step(&[], Some(&[1, 2])), PollStep::Skip);
    assert_eq!(poll_step(&[], None), PollStep::Skip);
    assert_eq!(poll_step(&[3, 1, 2], None), PollStep::Baseline(vec![3, 1, 2]));
    assert_eq!(
        poll_step(&[3, 1, 2], Some(&[1, 2, 3])),
        PollStep::Diff { flagged: vec![3], snapshot: vec![3, 1, 2] }
    );
    let long: Vec<i64> = (0..100).collect();
    assert_eq!(snapshot_window(&long).len(), SNAPSHOT_WINDOW);
    assert_eq!(snapshot_window(&long)[39], 39);
}

#[test]
fn only_english_sources_of_subscribed_extensions_are_polled() {
    let src = |id: &str, lang: &str, pkg: Option<&str>| SourceEntry {
        id: id.to_string(),
        lang: lang.to_string(),
        pkg_name: pkg.map(|p| p.to_string()),
    };
    let sources = vec![
        src("1", "en", Some("eu.kanade.tachiyomi.extension.en.a")),
        src("2", "fr", Some("eu.kanade.tachiyomi.extension.en.a")),
        src("3", "en", Some("eu.kanade.tachiyomi.extension.en.b")),
        src("4", "en", None),
        src("5", "en", Some("eu.kanade.tachiyomi.extension.en.a")),
    ];
    let subs = vec!["eu.kanade.tachiyomi.extension.en.a".to_string()];
    let (ids, matches) = subscribed_english_sources(&sources, &subs);
    assert_eq!(ids, vec!["1".to_string(), "5".to_string()]);
    assert_eq!(matches, 3);
    assert_eq!(subscribed_english_sources(&sources, &[]), (vec![], 0));
}
