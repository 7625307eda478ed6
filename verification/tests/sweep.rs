use komika::mangadex::{BackfillOutcome, SweepOutcome, SyncWindow};
use komika::sweep::{
    after_page, checkpoint_after_slide, checkpoint_each_page, count_sweep_dropped, count_upsert,
    mark_complete, window_end, WindowEnd, count_dropped, count_record, count_truncated, cursor_write, cycle_plan,
    gate_result, on_page, pass_follow_up, schedule_step, slide_window, upsert_retry_delay,
    window_start, AfterPage, CursorWrite, PageFetch, PageMove, PassGate, PassResult,
    RecordFate, Schedule, ScheduleNext, Slide, SweepKind, SyncState, WindowCursor,
};

#[test]
fn empty_pages_are_refetched_then_end_the_window() {
    let mut c = window_start();
    for _ in 0..3 {
        let (n, m) = on_page(SweepKind::Catalogue, c, PageFetch::Fetched { raw_len: 0, total: 50 });
        assert_eq!(m, PageMove::Refetch);
        c = n;
    }
    let (_, m) = on_page(SweepKind::Catalogue, c, PageFetch::Fetched { raw_len: 0, total: 50 });
    assert_eq!(m, PageMove::EndDone);
    let (_, m) = on_page(SweepKind::Backfill, c, PageFetch::Fetched { raw_len: 0, total: 50 });
    assert_eq!(m, PageMove::EndTruncated);
    let (n, m) = on_page(SweepKind::Backfill, c, PageFetch::Fetched { raw_len: 5, total: 50 });
    assert_eq!(m, PageMove::Process);
    assert_eq!(n.empty_retries, 0);
}

#[test]
fn backfill_page_errors_cool_down_then_slide() {
    let c = window_start();
    let (c, m) = on_page(SweepKind::Backfill, c, PageFetch::Failed { tolerable: true });
    assert_eq!(m, PageMove::CoolDownRefetch);
    let (c, m) = on_page(SweepKind::Backfill, c, PageFetch::Failed { tolerable: true });
    assert_eq!(m, PageMove::CoolDownRefetch);
    let (_, m) = on_page(SweepKind::Backfill, c, PageFetch::Failed { tolerable: true });
    assert_eq!(m, PageMove::EndSlide);
    let (_, m) = on_page(SweepKind::Backfill, window_start(), PageFetch::Failed { tolerable: false });
    assert_eq!(m, PageMove::Abort);
    let (_, m) = on_page(SweepKind::Catalogue, window_start(), PageFetch::Failed { tolerable: true });
    assert_eq!(m, PageMove::Abort);
}

#[test]
fn windows_end_or_slide() {
    let c = WindowCursor { offset: 9_800, empty_retries: 0, page_errors: 0 };
    assert_eq!(after_page(SweepKind::Catalogue, c, 100, 50_000, false).1, AfterPage::Slide);
    assert_eq!(after_page(SweepKind::Catalogue, c, 100, 9_900, false).1, AfterPage::Done);
    let c = WindowCursor { offset: 0, empty_retries: 0, page_errors: 0 };
    assert_eq!(after_page(SweepKind::Chapters, c, 99, 50_000, false).1, AfterPage::Done);
    assert_eq!(after_page(SweepKind::Chapters, c, 100, 50, false).1, AfterPage::NextPage);
    assert_eq!(after_page(SweepKind::Backfill, c, 100, 50_000, true).1, AfterPage::Slide);
    assert_eq!(after_page(SweepKind::Catalogue, c, 100, 50_000, true).1, AfterPage::NextPage);
    assert_eq!(after_page(SweepKind::Catalogue, c, 100, 50_000, true).0.offset, 100);
}

#[test]
fn windows_slide_to_the_last_timestamp_or_step_a_second() {
    let last = Some("2018-01-18T00:00:00+00:00".to_string());
    assert_eq!(slide_window(&None, &last), Slide::To("2018-01-18T00:00:00".to_string()));
    let since = Some("2018-01-18T00:00:00".to_string());
    assert_eq!(slide_window(&since, &last), Slide::To("2018-01-18T00:00:01".to_string()));
    let since = Some("2018-01-18T00:00:01".to_string());
    let last = Some("2018-01-18T00:00:01+00:00".to_string());
    assert_eq!(slide_window(&since, &last), Slide::To("2018-01-18T00:00:02".to_string()));
    assert_eq!(slide_window(&since, &None), Slide::Stuck);
    assert_eq!(slide_window(&since, &Some("garbage".to_string())), Slide::Stuck);
}

#[test]
fn contended_upserts_back_off_linearly() {
    assert_eq!(upsert_retry_delay(0, true), Some(150));
    assert_eq!(upsert_retry_delay(3, true), Some(600));
    assert_eq!(upsert_retry_delay(4, true), None);
    assert_eq!(upsert_retry_delay(0, false), None);
}

#[test]
fn backfill_counts_and_passes() {
    let o = BackfillOutcome::default();
    let o = count_record(o, RecordFate::AlreadyPresent);
    let o = count_record(o, RecordFate::Ingested);
    let o = count_record(o, RecordFate::UpsertFailed);
    let o = count_record(o, RecordFate::PresenceCheckFailed);
    assert_eq!((o.scanned, o.ingested, o.failed), (4, 1, 2));
    let o = count_dropped(o, 3);
    let o = count_truncated(o);
    assert_eq!((o.dropped, o.truncated), (3, 1));

    let clean = BackfillOutcome { scanned: 10, complete: true, ..BackfillOutcome::default() };
    let f = pass_follow_up(Some(clean));
    assert!(f.mark_done && !f.rewind);
    assert_eq!(f.result, PassResult::Stop);
    let dirty = BackfillOutcome { failed: 1, ..clean };
    let f = pass_follow_up(Some(dirty));
    assert!(!f.mark_done && f.rewind);
    assert_eq!(f.result, PassResult::Retry { scanned: 10, last: Some(dirty) });
    let f = pass_follow_up(None);
    assert!(!f.mark_done && !f.rewind);
    assert_eq!(gate_result(PassGate::AlreadyDone), PassResult::Stop);
    assert_eq!(gate_result(PassGate::LockBusy), PassResult::Retry { scanned: 0, last: None });
}

#[test]
fn idle_passes_give_up_after_three() {
    let s = Schedule { idle_passes: 0, last: None };
    let idle = PassResult::Retry { scanned: 0, last: None };
    let (s, n) = schedule_step(s, idle);
    assert_eq!(n, ScheduleNext::Continue);
    let (s, n) = schedule_step(s, idle);
    assert_eq!(n, ScheduleNext::Continue);
    let (_, n) = schedule_step(s, idle);
    assert_eq!(n, ScheduleNext::Stop);
    let (s, _) = schedule_step(Schedule { idle_passes: 2, last: None }, PassResult::Retry { scanned: 5, last: None });
    assert_eq!(s.idle_passes, 0);
}

#[test]
fn cycles_plan_their_window_and_cursor() {
    assert_eq!(cycle_plan(&None), (SyncWindow::Created, None));
    let st = Some(SyncState { cursor: "c".into(), seed_done: false });
    assert_eq!(cycle_plan(&st), (SyncWindow::Created, Some("c".to_string())));
    let st = Some(SyncState { cursor: "c".into(), seed_done: true });
    assert_eq!(cycle_plan(&st), (SyncWindow::Updated, Some("c".to_string())));
    assert_eq!(cursor_write(true, 5), CursorWrite::Advance);
    assert_eq!(cursor_write(false, 5), CursorWrite::Withhold);
    assert_eq!(cursor_write(false, 0), CursorWrite::MarkSeedDone);
}

#[test]
fn seed_checkpoints_follow_the_sweep_and_window() {
    assert!(checkpoint_each_page(SweepKind::Backfill, SyncWindow::Created));
    assert!(checkpoint_each_page(SweepKind::Catalogue, SyncWindow::Created));
    assert!(!checkpoint_each_page(SweepKind::Catalogue, SyncWindow::Updated));
    assert!(!checkpoint_each_page(SweepKind::Chapters, SyncWindow::Created));
    assert!(checkpoint_after_slide(SweepKind::Chapters, SyncWindow::Created));
    assert!(!checkpoint_after_slide(SweepKind::Chapters, SyncWindow::Updated));
    assert!(checkpoint_after_slide(SweepKind::Backfill, SyncWindow::Updated));
}

#[test]
fn window_ends_complete_stop_or_continue() {
    assert_eq!(window_end(SweepKind::Backfill, true, false, true), WindowEnd::Complete);
    assert_eq!(window_end(SweepKind::Catalogue, false, false, false), WindowEnd::Stop);
    assert_eq!(window_end(SweepKind::Backfill, false, true, true), WindowEnd::Stop);
    assert_eq!(window_end(SweepKind::Catalogue, false, true, true), WindowEnd::Next);
    assert_eq!(window_end(SweepKind::Backfill, false, true, false), WindowEnd::Next);
    let o = mark_complete(BackfillOutcome { scanned: 4, ..Default::default() });
    assert!(o.complete);
    assert_eq!(o.scanned, 4);
}

#[test]
fn sweep_counters_count_stored_and_dropped_records() {
    let o = SweepOutcome::default();
    let o = count_sweep_dropped(o, 3);
    let o = count_upsert(o, true);
    let o = count_upsert(o, false);
    assert_eq!(o, SweepOutcome { upserted: 1, dropped: 3 });
}
