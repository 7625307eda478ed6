use komika::phase_f::{
    census, delete_go, delete_plan, gate, is_retired_pkg, is_uuid, manga_path, merge_plan, parse_cli_args, placeholders, row_uuid,
    settle_uuid_row, split_plan, stage_of, uuid_from_manga_url, verdict_of, Apply,
    ClassifiedRow, DeleteGo, Stage, UuidReport, Verdict, DELETE_CONFIRM_TOKEN,
};

fn row(id: &str, work: &str, uuid: Option<&str>, anchors: i64, matches: bool, owner: Option<&str>, chapters: i64) -> ClassifiedRow {
    ClassifiedRow {
        source_series_id: id.into(),
        work_id: work.into(),
        suwayomi_key: format!("k{id}"),
        mangadex_uuid: uuid.map(|s| s.to_string()),
        anchor_count: anchors,
        uuid_matches_anchor: matches,
        uuid_owner_work: owner.map(|s| s.to_string()),
        chapters,
        disposition: None,
    }
}

#[test]
fn a_manga_url_yields_its_uuid_and_anything_else_yields_nothing() {
    assert_eq!(
        uuid_from_manga_url("/manga/a77742b1-befd-49a4-bff5-1ad4e6b0ef7b").as_deref(),
        Some("a77742b1-befd-49a4-bff5-1ad4e6b0ef7b")
    );
    assert_eq!(
        uuid_from_manga_url("/manga/A77742B1-BEFD-49A4-BFF5-1AD4E6B0EF7B/title?x=1").as_deref(),
        Some("a77742b1-befd-49a4-bff5-1ad4e6b0ef7b")
    );
    assert_eq!(uuid_from_manga_url("/manga/"), None);
    assert_eq!(uuid_from_manga_url("/manga/not-a-uuid"), None);
    assert_eq!(uuid_from_manga_url("/series/a77742b1-befd-49a4-bff5-1ad4e6b0ef7b"), None);
    assert_eq!(uuid_from_manga_url("/manga/a77742b1-befd-49a4-bff5-1ad4e6b0ef7bZ"), None);
    assert_eq!(uuid_from_manga_url("/manga/g77742b1-befd-49a4-bff5-1ad4e6b0ef7b"), None);
}

#[test]
fn the_classification_rule_checks_the_uuid_before_it_checks_for_an_anchor() {
    assert_eq!(verdict_of(true, 1, false), Verdict::Mismatch);
    assert_eq!(verdict_of(true, 5, false), Verdict::Mismatch);
    assert_eq!(verdict_of(true, 1, true), Verdict::Redundant);
    assert_eq!(verdict_of(true, 0, false), Verdict::Anchorless);
    assert_eq!(verdict_of(false, 3, false), Verdict::Unresolved);
}

/// The miniature of production: one redundant, one mismatch, one anchorless and one
/// unresolved row.
fn rows() -> Vec<ClassifiedRow> {
    vec![
        row("ss_red", "w_base", Some("u-red"), 1, true, Some("w_base"), 10),
        row("ss_mis", "w_base", Some("u-mis"), 1, false, Some("w_colored"), 4),
        row("ss_anc", "w_dupe", Some("u-anc"), 0, false, Some("w_twin"), 7),
        row("ss_unr", "w_dupe", None, 0, false, None, 2),
    ]
}

#[test]
fn the_check_fails_every_unproven_row_and_counts_their_chapters() {
    let r = rows();
    let g = gate(&r);
    assert_eq!(g.passed, 1);
    assert_eq!(g.failures.len(), 3);
    assert_eq!(g.chapters_at_risk, 13);
    assert!(!g.is_clean());
    let c = census(&r);
    assert_eq!((c.total, c.redundant, c.mismatch, c.anchorless, c.unresolved), (4, 1, 1, 1, 1));
    assert_eq!(c.works, 2);
    assert!(gate(&r[..1]).is_clean());
}

#[test]
fn split_repoints_mismatches_and_merge_folds_anchorless_works() {
    let r = rows();
    let (report, moves) = split_plan(&r);
    assert_eq!((report.considered, report.acted), (1, 1));
    assert_eq!(moves[0].source_series_id, "ss_mis");
    assert_eq!(moves[0].to_work, "w_colored");
    let (report, merges) = merge_plan(&r);
    assert_eq!((report.considered, report.acted), (1, 1));
    assert_eq!(merges[0].from_work, "w_dupe");
    assert_eq!(merges[0].to_work, "w_twin");
    assert_eq!(merges[0].rows, vec!["ss_anc".to_string()]);
}

#[test]
fn merge_follows_the_row_with_most_chapters() {
    let r = vec![
        row("b", "w1", Some("u1"), 0, false, Some("w_x"), 3),
        row("a", "w1", Some("u2"), 0, false, Some("w_y"), 3),
        row("c", "w1", Some("u3"), 0, false, Some("w_z"), 1),
        row("d", "w0", Some("u4"), 0, false, None, 1),
        row("e", "w2", Some("u5"), 0, false, Some("w2"), 1),
    ];
    let (report, merges) = merge_plan(&r);
    assert_eq!(report.considered, 3);
    assert_eq!(merges.len(), 1);
    assert_eq!(merges[0].to_work, "w_y", "ties on chapters go to the smaller row id");
    assert_eq!(merges[0].rows, vec!["a".to_string(), "b".to_string(), "c".to_string()]);
    assert_eq!(report.blocked.len(), 2);
    assert_eq!(report.blocked[0].0, "w0");
    assert!(report.blocked[0].1.contains("not mirrored directly anywhere"));
    assert_eq!(report.blocked[1], ("w2".to_string(), "uuid already anchors this work".to_string()));
}

#[test]
fn the_delete_needs_both_opt_ins_and_a_clean_check() {
    let r = rows();
    let dirty = gate(&r);
    let clean = gate(&r[..1]);
    assert_eq!(delete_go(Apply::No, Some(DELETE_CONFIRM_TOKEN), &clean), DeleteGo::DryRun);
    assert_eq!(delete_go(Apply::Yes, None, &clean), DeleteGo::DryRun);
    assert_eq!(delete_go(Apply::Yes, Some("yes"), &clean), DeleteGo::DryRun);
    assert_eq!(delete_go(Apply::Yes, Some(DELETE_CONFIRM_TOKEN), &dirty), DeleteGo::Refuse);
    assert_eq!(delete_go(Apply::Yes, Some(DELETE_CONFIRM_TOKEN), &clean), DeleteGo::Proceed);
}

#[test]
fn uuid_rows_settle_without_guessing() {
    let mut rep = UuidReport::default();
    assert!(!settle_uuid_row(&mut rep, "ss1", None, None, Apply::Yes));
    let u = row_uuid(Some("/manga/a77742b1-befd-49a4-bff5-1ad4e6b0ef7b"));
    assert!(settle_uuid_row(&mut rep, "ss2", u.clone(), None, Apply::Yes));
    assert!(!settle_uuid_row(&mut rep, "ss3", u.clone(), Some("other".into()), Apply::Yes));
    assert!(!settle_uuid_row(&mut rep, "ss4", u.clone(), u.clone(), Apply::No));
    assert_eq!(rep.resolved, 2);
    assert_eq!(rep.unresolved, vec!["ss1".to_string()]);
    assert_eq!(rep.conflicts.len(), 1);
    assert_eq!(rep.conflicts[0].1, "other");
    assert_eq!(row_uuid(None), None);
}

#[test]
fn cli_arguments_and_sql_lists() {
    let args: Vec<String> = ["delete", "--apply", "--confirm", "tok", "--all"].iter().map(|s| s.to_string()).collect();
    let a = parse_cli_args(&args);
    assert_eq!(a.stage, "delete");
    assert_eq!(a.apply, Apply::Yes);
    assert_eq!(a.confirm.as_deref(), Some("tok"));
    assert!(a.list_all);
    assert!(!a.include_split);
    let a = parse_cli_args(&[]);
    assert_eq!(a.stage, "report");
    assert_eq!(a.apply, Apply::No);
    assert_eq!(stage_of("merge"), Some(Stage::Merge));
    assert_eq!(stage_of("bogus"), None);
    assert_eq!(placeholders(3), "?, ?, ?");
    assert_eq!(placeholders(0), "");
}

#[test]
fn the_delete_dry_run_counts_targets_withheld_rows_and_schedules() {
    let mut r = rows();
    let mut split = row("ss_spl", "w_other", Some("u-spl"), 1, true, Some("w_other"), 3);
    split.disposition = Some("split".into());
    r.push(split);
    let g = gate(&r);
    let scheduled: Vec<String> = vec!["kss_red".into(), "kss_mis".into(), "kss_spl".into()];
    let (report, targets) = delete_plan(&r, g.clone(), &scheduled, false);
    assert_eq!(targets, vec![0]);
    assert_eq!(report.deletable, 1);
    assert_eq!(report.deleted, 0);
    assert_eq!(report.withheld_split, 1);
    assert_eq!(report.cascading_chapters, 10);
    assert_eq!(report.scan_states, 1);
    let (report, targets) = delete_plan(&r, g, &scheduled, true);
    assert_eq!(targets, vec![0, 4]);
    assert_eq!((report.withheld_split, report.cascading_chapters, report.scan_states), (0, 13, 2));
}

#[test]
fn uuid_shape_retired_package_and_manga_path() {
    assert!(is_uuid("a77742b1-befd-49a4-bff5-1ad4e6b0ef7b"));
    assert!(!is_uuid("a77742b1befd49a4bff51ad4e6b0ef7b"));
    assert!(!is_uuid("a77742b1-befd-49a4-bff5-1ad4e6b0ef7"));
    assert!(is_retired_pkg("eu.kanade.tachiyomi.extension.all.mangadex"));
    assert!(!is_retired_pkg("eu.kanade.tachiyomi.extension.en.mangadex"));
    assert_eq!(manga_path("a77742b1-befd-49a4-bff5-1ad4e6b0ef7b"), "/manga/a77742b1-befd-49a4-bff5-1ad4e6b0ef7b");
}
