//! The decisions of the MangaDex window sweeps: what to do with each fetched page,
//! when a window ends and where the next one starts, when a contended write is
//! retried, what a backfill pass counts, when a pass may latch its one-shot
//! completion marker, and how the passes are scheduled.
//!
//! The catalogue sweep, the chapter firehose and the gap backfill all walk `/manga`
//! or `/chapter` in windows ordered by a timestamp: pages of up to 100 records,
//! advanced by the raw page length, until the window ends or its offset reaches the
//! 9,900 cap, when the window slides to the last record's timestamp.
use vstd::prelude::*;
use crate::mangadex::{
    clean_completion, dirty, next_offset, page_step, since_after_of, since_of, to_since, to_since_next_second,
    BackfillOutcome, PageStep, SweepOutcome, SyncWindow, classify_page,
};
use crate::text::{opt_string, str_eq};

verus! {

/// Empty pages before `total` re-fetched before a window is ended.
pub const EMPTY_PAGE_RETRIES: u32 = 3;
/// Extra re-fetches of a failing backfill page, after a cool-down, before the window is
/// cut short.
pub const PAGE_ERROR_RETRIES: u32 = 2;
/// The offset at which a window slides rather than pages on.
pub const WINDOW_OFFSET_CAP: i64 = 9900;
/// The page size of `/manga` and `/chapter` lists.
pub const PAGE_LIMIT: i64 = 100;
/// Re-tries of an upsert that lost to SQLite lock contention.
pub const UPSERT_LOCK_RETRIES: u32 = 4;
/// Consecutive passes without progress after which the backfill gives up for this process.
pub const BACKFILL_IDLE_PASSES: u32 = 3;
/// The most backfill passes one process runs.
pub const BACKFILL_MAX_PASSES: u32 = 24;

/// Which sweep walks the windows.
#[derive(Debug, Clone, Copy, PartialEq, Eq, Structural)]
pub enum SweepKind {
    /// The catalogue seed or refresh (`/manga`).
    Catalogue,
    /// The chapter firehose (`/chapter`).
    Chapters,
    /// The one-time gap backfill (`/manga`, ids not yet carried).
    Backfill,
}

/// Where a sweep stands inside one window.
#[derive(Debug, Clone, Copy, PartialEq, Eq, Structural)]
pub struct WindowCursor {
    /// The raw offset of the next page.
    pub offset: i64,
    /// Consecutive empty pages met before `total`.
    pub empty_retries: u32,
    /// Consecutive page fetches that failed past the retry layer (backfill only).
    pub page_errors: u32,
}

/// The cursor at the start of every window.
pub fn window_start() -> (c: WindowCursor)
    ensures
        c == (WindowCursor { offset: 0, empty_retries: 0, page_errors: 0 }),
{
    WindowCursor { offset: 0, empty_retries: 0, page_errors: 0 }
}

/// What fetching a page gave.
#[derive(Debug, Clone, Copy, PartialEq, Eq, Structural)]
pub enum PageFetch {
    /// A page of `raw_len` records (parsed or not) of a window of `total`.
    Fetched { raw_len: usize, total: i64 },
    /// The fetch failed past the retry layer; `tolerable` per `is_tolerable_page_error`.
    Failed { tolerable: bool },
}

/// What the sweep does with a fetch.
#[derive(Debug, Clone, Copy, PartialEq, Eq, Structural)]
pub enum PageMove {
    /// Process the page's records, then call `after_page`.
    Process,
    /// Fetch the same offset again at once (an empty page before `total`).
    Refetch,
    /// Wait out the cool-down, then fetch the same offset again.
    CoolDownRefetch,
    /// The window, and with it the sweep, is done.
    EndDone,
    /// The window ends short of `total` (the backfill counts it as truncated) and slides.
    EndTruncated,
    /// A page kept failing: the window ends here and slides.
    EndSlide,
    /// The error ends the sweep.
    Abort,
}

/// The next cursor and move after a fetch.
pub open spec fn page_decision(kind: SweepKind, cur: WindowCursor, fetch: PageFetch) -> (WindowCursor, PageMove) {
    match fetch {
        PageFetch::Failed { tolerable } => if kind == SweepKind::Backfill && tolerable {
            if cur.page_errors < PAGE_ERROR_RETRIES {
                (WindowCursor { page_errors: (cur.page_errors + 1) as u32, ..cur }, PageMove::CoolDownRefetch)
            } else {
                (cur, PageMove::EndSlide)
            }
        } else {
            (cur, PageMove::Abort)
        },
        PageFetch::Fetched { raw_len, total } => {
            let c = WindowCursor { page_errors: 0, ..cur };
            match page_step(raw_len as nat, cur.offset as int, total as int) {
                PageStep::EndWindow => (c, PageMove::EndDone),
                PageStep::RetryEmpty => if cur.empty_retries < EMPTY_PAGE_RETRIES {
                    (WindowCursor { empty_retries: (cur.empty_retries + 1) as u32, ..c }, PageMove::Refetch)
                } else if kind == SweepKind::Backfill {
                    (c, PageMove::EndTruncated)
                } else {
                    (c, PageMove::EndDone)
                },
                PageStep::Process => (WindowCursor { empty_retries: 0, ..c }, PageMove::Process),
            }
        },
    }
}

/// Decides what to do with a fetch: an empty page before `total` is re-fetched up to
/// `EMPTY_PAGE_RETRIES` times; a tolerable backfill failure is re-fetched after a
/// cool-down up to `PAGE_ERROR_RETRIES` times; every other failure aborts the sweep.
pub fn on_page(kind: SweepKind, cur: WindowCursor, fetch: PageFetch) -> (r: (WindowCursor, PageMove))
    ensures
        r == page_decision(kind, cur, fetch),
{
    match fetch {
        PageFetch::Failed { tolerable } => {
            if kind == SweepKind::Backfill && tolerable {
                if cur.page_errors < PAGE_ERROR_RETRIES {
                    (WindowCursor { page_errors: cur.page_errors + 1, ..cur }, PageMove::CoolDownRefetch)
                } else {
                    (cur, PageMove::EndSlide)
                }
            } else {
                (cur, PageMove::Abort)
            }
        },
        PageFetch::Fetched { raw_len, total } => {
            let c = WindowCursor { page_errors: 0, ..cur };
            match classify_page(raw_len, cur.offset, total) {
                PageStep::EndWindow => (c, PageMove::EndDone),
                PageStep::RetryEmpty => {
                    if cur.empty_retries < EMPTY_PAGE_RETRIES {
                        (WindowCursor { empty_retries: cur.empty_retries + 1, ..c }, PageMove::Refetch)
                    } else if kind == SweepKind::Backfill {
                        (c, PageMove::EndTruncated)
                    } else {
                        (c, PageMove::EndDone)
                    }
                },
                PageStep::Process => (WindowCursor { empty_retries: 0, ..c }, PageMove::Process),
            }
        },
    }
}

/// Where the sweep goes after processing a page.
#[derive(Debug, Clone, Copy, PartialEq, Eq, Structural)]
pub enum AfterPage {
    /// Fetch the next page of this window.
    NextPage,
    /// The window, and the sweep, is done.
    Done,
    /// Slide to a new window.
    Slide,
}

/// The window's fate after a processed page whose offset moved to `offset`: the
/// catalogue sweep and the backfill are done once `offset` reaches `total`; the chapter
/// firehose is done on a short page (fewer than `PAGE_LIMIT` raw records); a window
/// whose offset reached the cap slides; the backfill also slides once its pass budget
/// is spent.
pub open spec fn after_page_decision(kind: SweepKind, offset: int, raw_len: nat, total: int, budget_spent: bool) -> AfterPage {
    let done = if kind == SweepKind::Chapters {
        raw_len < PAGE_LIMIT
    } else {
        offset >= total
    };
    if done {
        AfterPage::Done
    } else if offset >= WINDOW_OFFSET_CAP {
        AfterPage::Slide
    } else if kind == SweepKind::Backfill && budget_spent {
        AfterPage::Slide
    } else {
        AfterPage::NextPage
    }
}

/// Advances the cursor past a processed page of `raw_len` raw records and decides where
/// the sweep goes.
pub fn after_page(kind: SweepKind, cur: WindowCursor, raw_len: usize, total: i64, budget_spent: bool) -> (r: (WindowCursor, AfterPage))
    ensures
        r.0 == (WindowCursor { offset: r.0.offset, ..cur }),
        r.0.offset as int == (if cur.offset + (raw_len as i64) > i64::MAX {
            i64::MAX as int
        } else if cur.offset + (raw_len as i64) < i64::MIN {
            i64::MIN as int
        } else {
            cur.offset + (raw_len as i64)
        }),
        r.1 == after_page_decision(kind, r.0.offset as int, raw_len as nat, total as int, budget_spent),
{
    let offset = next_offset(cur.offset, raw_len);
    let done = if kind == SweepKind::Chapters {
        raw_len < 100
    } else {
        offset >= total
    };
    let next = if done {
        AfterPage::Done
    } else if offset >= WINDOW_OFFSET_CAP {
        AfterPage::Slide
    } else if kind == SweepKind::Backfill && budget_spent {
        AfterPage::Slide
    } else {
        AfterPage::NextPage
    };
    (WindowCursor { offset, ..cur }, next)
}

/// Where the next window starts.
#[derive(Debug, Clone, PartialEq, Eq)]
pub enum Slide {
    /// Slide the `since` cursor to this value.
    To(String),
    /// The cursor cannot advance: stop the sweep here.
    Stuck,
}

/// The next window: `since` moves to the last record's timestamp as a cursor; when that
/// would not move it (more than the cap share one boundary second), to one second past
/// that timestamp; when neither moves it, the sweep is stuck.
pub open spec fn slide_decision(since: Option<Seq<char>>, last: Option<Seq<char>>) -> Option<Seq<char>> {
    let next = match last {
        Some(t) => since_of(t),
        None => None,
    };
    let stepped = match last {
        Some(t) => since_after_of(t),
        None => None,
    };
    if next is Some && next != since {
        next
    } else if stepped is Some && stepped != since {
        stepped
    } else {
        None
    }
}

fn same_cursor(a: &Option<String>, b: &Option<String>) -> (r: bool)
    ensures
        r == (opt_string(*a) == opt_string(*b)),
{
    match (a, b) {
        (Some(x), Some(y)) => str_eq(x.as_str(), y.as_str()),
        (None, None) => true,
        _ => false,
    }
}

/// Slides the window cursor `since` past the window whose last record carried the
/// timestamp `last_created`.
pub fn slide_window(since: &Option<String>, last_created: &Option<String>) -> (r: Slide)
    ensures
        match r {
            Slide::To(s) => slide_decision(opt_string(*since), opt_string(*last_created)) == Some(s@),
            Slide::Stuck => slide_decision(opt_string(*since), opt_string(*last_created)) is None,
        },
{
    let next = match last_created {
        Some(t) => to_since(t.as_str()),
        None => None,
    };
    if next.is_some() && !same_cursor(&next, since) {
        return match next {
            Some(n) => Slide::To(n),
            None => Slide::Stuck,
        };
    }
    let stepped = match last_created {
        Some(t) => to_since_next_second(t.as_str()),
        None => None,
    };
    if stepped.is_some() && !same_cursor(&stepped, since) {
        match stepped {
            Some(s) => Slide::To(s),
            None => Slide::Stuck,
        }
    } else {
        Slide::Stuck
    }
}

/// The delay in milliseconds before re-trying an upsert that failed for the
/// `lock_retry + 1`-th time: `150 * (lock_retry + 1)` while the failure is lock
/// contention and fewer than `UPSERT_LOCK_RETRIES` re-tries were made; `None` when the
/// failure stands.
pub fn upsert_retry_delay(lock_retry: u32, locked: bool) -> (r: Option<u64>)
    ensures
        r == (if lock_retry < UPSERT_LOCK_RETRIES && locked {
            Some((150 * (lock_retry + 1)) as u64)
        } else {
            None
        }),
{
    if lock_retry < UPSERT_LOCK_RETRIES && locked {
        Some(150 * (lock_retry as u64 + 1))
    } else {
        None
    }
}

// ---------------------------------------------------------------------------
// Checkpoints and window ends
// ---------------------------------------------------------------------------

/// Whether the window cursor is checkpointed after every processed page (from the last
/// record's timestamp): always for the backfill; for the catalogue sweep only while it
/// seeds on `createdAt`; never for the chapter firehose. Incremental cursors are written
/// once, at the end of the cycle.
pub open spec fn checkpoints_each_page(kind: SweepKind, window: SyncWindow) -> bool {
    kind == SweepKind::Backfill || (kind == SweepKind::Catalogue && window == SyncWindow::Created)
}

/// Whether the window cursor is checkpointed after every page.
pub fn checkpoint_each_page(kind: SweepKind, window: SyncWindow) -> (b: bool)
    ensures
        b == checkpoints_each_page(kind, window),
{
    match kind {
        SweepKind::Backfill => true,
        SweepKind::Catalogue => window == SyncWindow::Created,
        SweepKind::Chapters => false,
    }
}

/// Whether the slid window cursor is checkpointed: always for the backfill; for the
/// catalogue and chapter sweeps only while they seed on `createdAt`.
pub open spec fn checkpoints_slide(kind: SweepKind, window: SyncWindow) -> bool {
    kind == SweepKind::Backfill || window == SyncWindow::Created
}

/// Whether the slid window cursor is checkpointed.
pub fn checkpoint_after_slide(kind: SweepKind, window: SyncWindow) -> (b: bool)
    ensures
        b == checkpoints_slide(kind, window),
{
    kind == SweepKind::Backfill || window == SyncWindow::Created
}

/// How a sweep goes on after a window.
#[derive(Debug, Clone, Copy, PartialEq, Eq, Structural)]
pub enum WindowEnd {
    /// The walk reached the end: the sweep is over, and a backfill pass is complete.
    Complete,
    /// The sweep stops short: the cursor could not slide, or the backfill's budget is
    /// spent (its slid cursor checkpointed first).
    Stop,
    /// Walk the next window.
    Next,
}

/// After a window that is `done` (its walk reached the end), or else slid (`slid`) or
/// stuck: a done window completes the sweep; a stuck one stops it; after a slide the
/// backfill stops once its budget is spent; otherwise the next window follows.
pub open spec fn window_end_of(kind: SweepKind, done: bool, slid: bool, budget_spent: bool) -> WindowEnd {
    if done {
        WindowEnd::Complete
    } else if !slid {
        WindowEnd::Stop
    } else if kind == SweepKind::Backfill && budget_spent {
        WindowEnd::Stop
    } else {
        WindowEnd::Next
    }
}

/// Decides how a sweep goes on after a window (see `window_end_of`).
pub fn window_end(kind: SweepKind, done: bool, slid: bool, budget_spent: bool) -> (r: WindowEnd)
    ensures
        r == window_end_of(kind, done, slid, budget_spent),
{
    if done {
        WindowEnd::Complete
    } else if !slid {
        WindowEnd::Stop
    } else if kind == SweepKind::Backfill && budget_spent {
        WindowEnd::Stop
    } else {
        WindowEnd::Next
    }
}

/// A backfill pass whose walk reached the end is recorded as complete.
pub fn mark_complete(o: BackfillOutcome) -> (r: BackfillOutcome)
    ensures
        r == (BackfillOutcome { complete: true, ..o }),
{
    BackfillOutcome { complete: true, ..o }
}

// ---------------------------------------------------------------------------
// Counting a catalogue or chapter sweep
// ---------------------------------------------------------------------------

/// Counts a page's fetched-but-unparseable records into a sweep's outcome, before the
/// page is classified.
pub fn count_sweep_dropped(o: SweepOutcome, dropped: u64) -> (r: SweepOutcome)
    requires
        o.dropped + dropped <= u64::MAX,
    ensures
        r == (SweepOutcome { dropped: (o.dropped + dropped) as u64, ..o }),
{
    SweepOutcome { dropped: o.dropped + dropped, ..o }
}

/// Counts one upsert of a sweep: a stored record adds one; a failed upsert is only
/// logged.
pub fn count_upsert(o: SweepOutcome, stored: bool) -> (r: SweepOutcome)
    requires
        o.upserted < u64::MAX,
    ensures
        r == (if stored { SweepOutcome { upserted: (o.upserted + 1) as u64, ..o } } else { o }),
{
    if stored {
        SweepOutcome { upserted: o.upserted + 1, ..o }
    } else {
        o
    }
}

// ---------------------------------------------------------------------------
// Counting a backfill pass
// ---------------------------------------------------------------------------

/// What became of one parsed record in a backfill pass.
#[derive(Debug, Clone, Copy, PartialEq, Eq, Structural)]
pub enum RecordFate {
    /// The presence check failed: the record may be missing and is counted as lost.
    PresenceCheckFailed,
    /// The id is already carried: skipped.
    AlreadyPresent,
    /// The record was upserted.
    Ingested,
    /// The upsert failed for good.
    UpsertFailed,
}

/// The counters after one more record.
pub open spec fn counted(o: BackfillOutcome, f: RecordFate) -> BackfillOutcome {
    let s = BackfillOutcome { scanned: (o.scanned + 1) as u64, ..o };
    match f {
        RecordFate::PresenceCheckFailed | RecordFate::UpsertFailed => BackfillOutcome { failed: (o.failed + 1) as u64, ..s },
        RecordFate::AlreadyPresent => s,
        RecordFate::Ingested => BackfillOutcome { ingested: (o.ingested + 1) as u64, ..s },
    }
}

/// Counts one parsed record of a backfill pass.
pub fn count_record(o: BackfillOutcome, f: RecordFate) -> (r: BackfillOutcome)
    requires
        o.scanned < u64::MAX,
        o.failed < u64::MAX,
        o.ingested < u64::MAX,
    ensures
        r == counted(o, f),
{
    let s = BackfillOutcome { scanned: o.scanned + 1, ..o };
    match f {
        RecordFate::PresenceCheckFailed | RecordFate::UpsertFailed => BackfillOutcome { failed: o.failed + 1, ..s },
        RecordFate::AlreadyPresent => s,
        RecordFate::Ingested => BackfillOutcome { ingested: o.ingested + 1, ..s },
    }
}

/// Counts the records of a page that were fetched and failed to parse, before the page
/// is classified (a page of nothing but such records still advances and still blocks
/// completion).
pub fn count_dropped(o: BackfillOutcome, dropped: u64) -> (r: BackfillOutcome)
    requires
        o.dropped + dropped <= u64::MAX,
    ensures
        r == (BackfillOutcome { dropped: (o.dropped + dropped) as u64, ..o }),
{
    BackfillOutcome { dropped: o.dropped + dropped, ..o }
}

/// Counts a window cut short by a page that stayed empty before `total`.
pub fn count_truncated(o: BackfillOutcome) -> (r: BackfillOutcome)
    requires
        o.truncated < u64::MAX,
    ensures
        r == (BackfillOutcome { truncated: (o.truncated + 1) as u64, ..o }),
{
    BackfillOutcome { truncated: o.truncated + 1, ..o }
}

/// A record that could not be persisted, or a truncated window, or a dropped record,
/// leaves the pass dirty, so it can never latch completion.
pub proof fn lemma_losses_block_completion(o: BackfillOutcome, f: RecordFate, dropped: u64)
    requires
        o.scanned < u64::MAX,
        o.failed < u64::MAX,
        o.ingested < u64::MAX,
        o.truncated < u64::MAX,
        o.dropped + dropped <= u64::MAX,
        f == RecordFate::PresenceCheckFailed || f == RecordFate::UpsertFailed,
    ensures
        dirty(counted(o, f)) && !clean_completion(counted(o, f)),
        dirty(BackfillOutcome { truncated: (o.truncated + 1) as u64, ..o }),
        !clean_completion(BackfillOutcome { truncated: (o.truncated + 1) as u64, ..o }),
        dropped > 0 ==> dirty(BackfillOutcome { dropped: (o.dropped + dropped) as u64, ..o }),
        dropped > 0 ==> !clean_completion(BackfillOutcome { dropped: (o.dropped + dropped) as u64, ..o }),
{
}

// ---------------------------------------------------------------------------
// Backfill passes
// ---------------------------------------------------------------------------

/// What the scheduler does after a pass.
#[derive(Debug, Clone, Copy, PartialEq, Eq, Structural)]
pub enum PassResult {
    /// Finished, or must not run at all: schedule no more passes in this process.
    Stop,
    /// Run another pass after the gap; `scanned` drives the idle guard, `last` is the
    /// outcome when a pass actually ran.
    Retry { scanned: u64, last: Option<BackfillOutcome> },
}

/// What stands before a pass may run.
#[derive(Debug, Clone, Copy, PartialEq, Eq, Structural)]
pub enum PassGate {
    /// The completion marker could not be read (a transient lock, most likely).
    FlagUnreadable,
    /// The completion marker is set: the backfill is done.
    AlreadyDone,
    /// The catalogue seed has not completed yet.
    NotSeeded,
    /// Another catalogue sync holds the single-flight lock.
    LockBusy,
}

/// The result of a pass that did not run.
pub fn gate_result(g: PassGate) -> (r: PassResult)
    ensures
        r == (match g {
            PassGate::AlreadyDone | PassGate::NotSeeded => PassResult::Stop,
            PassGate::FlagUnreadable | PassGate::LockBusy => PassResult::Retry { scanned: 0, last: None },
        }),
{
    match g {
        PassGate::AlreadyDone | PassGate::NotSeeded => PassResult::Stop,
        PassGate::FlagUnreadable | PassGate::LockBusy => PassResult::Retry { scanned: 0, last: None },
    }
}

/// What follows a pass that ran.
#[derive(Debug, Clone, Copy, PartialEq, Eq, Structural)]
pub struct PassFollowUp {
    /// Latch the one-shot completion marker (and fold the newly ingested works).
    pub mark_done: bool,
    /// Rewind the window cursor so the next pass re-walks from the start.
    pub rewind: bool,
    pub result: PassResult,
}

/// What follows a pass that ran (`None` when it failed with an error): a clean
/// completion latches the marker and stops; a dirty pass rewinds the cursor; any other
/// pass, and a failed one, retries from where it stopped.
pub open spec fn follow_up_of(outcome: Option<BackfillOutcome>) -> PassFollowUp {
    match outcome {
        Some(o) => if clean_completion(o) {
            PassFollowUp { mark_done: true, rewind: false, result: PassResult::Stop }
        } else {
            PassFollowUp { mark_done: false, rewind: dirty(o), result: PassResult::Retry { scanned: o.scanned, last: Some(o) } }
        },
        None => PassFollowUp { mark_done: false, rewind: false, result: PassResult::Retry { scanned: 0, last: None } },
    }
}

/// After a pass that ran: the marker is latched exactly when the pass reached the end
/// with nothing failed, truncated or dropped; otherwise the cursor is rewound exactly
/// when something failed, was truncated or was dropped, so a clean pass cut short by its
/// budget keeps its cursor and resumes where it stopped; every pass that does not latch
/// is retried with its scanned count.
pub proof fn lemma_only_dirty_passes_rewind(o: BackfillOutcome)
    ensures
        follow_up_of(Some(o)).mark_done == (o.complete && o.failed == 0 && o.truncated == 0 && o.dropped == 0),
        !(o.complete && o.failed == 0 && o.truncated == 0 && o.dropped == 0) ==> (
            follow_up_of(Some(o)).rewind == (o.failed > 0 || o.truncated > 0 || o.dropped > 0)
            && follow_up_of(Some(o)).result == (PassResult::Retry { scanned: o.scanned, last: Some(o) })),
        (o.complete && o.failed == 0 && o.truncated == 0 && o.dropped == 0) ==> (
            !follow_up_of(Some(o)).rewind && follow_up_of(Some(o)).result == PassResult::Stop),
{
}

/// Decides what follows a pass (see `follow_up_of`).
pub fn pass_follow_up(outcome: Option<BackfillOutcome>) -> (r: PassFollowUp)
    ensures
        r == follow_up_of(outcome),
{
    match outcome {
        Some(o) => {
            if o.is_clean_completion() {
                PassFollowUp { mark_done: true, rewind: false, result: PassResult::Stop }
            } else {
                PassFollowUp { mark_done: false, rewind: o.is_dirty(), result: PassResult::Retry { scanned: o.scanned, last: Some(o) } }
            }
        },
        None => PassFollowUp { mark_done: false, rewind: false, result: PassResult::Retry { scanned: 0, last: None } },
    }
}

/// The marker is latched only by a pass that reached the end having lost and skipped
/// nothing; every pass that lost or skipped a record rewinds instead; a pass that
/// failed outright neither latches nor rewinds.
pub proof fn lemma_marker_only_after_clean_pass(o: BackfillOutcome)
    ensures
        follow_up_of(Some(o)).mark_done ==> o.complete && !dirty(o),
        dirty(o) ==> !follow_up_of(Some(o)).mark_done && follow_up_of(Some(o)).rewind,
        !follow_up_of(None).mark_done && !follow_up_of(None).rewind,
{
}

/// The scheduler's state between passes.
#[derive(Debug, Clone, Copy, PartialEq, Eq, Structural)]
pub struct Schedule {
    /// Consecutive passes that scanned nothing.
    pub idle_passes: u32,
    /// The outcome of the last pass that ran.
    pub last: Option<BackfillOutcome>,
}

/// What the scheduler does after a pass result.
#[derive(Debug, Clone, Copy, PartialEq, Eq, Structural)]
pub enum ScheduleNext {
    /// Stop scheduling in this process.
    Stop,
    /// Sleep the pass gap, then run the next pass.
    Continue,
}

/// Folds a pass result into the schedule: `Stop` ends it; a pass that scanned nothing
/// counts as idle, and `BACKFILL_IDLE_PASSES` idle passes in a row give up; a pass that
/// scanned something resets the idle count.
pub fn schedule_step(s: Schedule, r: PassResult) -> (out: (Schedule, ScheduleNext))
    requires
        s.idle_passes < BACKFILL_IDLE_PASSES,
    ensures
        match r {
            PassResult::Stop => out.1 == ScheduleNext::Stop,
            PassResult::Retry { scanned, last } => {
                &&& out.0.last == (if last is Some { last } else { s.last })
                &&& out.0.idle_passes == (if scanned == 0 { s.idle_passes + 1 } else { 0 })
                &&& out.1 == (if scanned == 0 && s.idle_passes + 1 >= BACKFILL_IDLE_PASSES {
                    ScheduleNext::Stop
                } else {
                    ScheduleNext::Continue
                })
            },
        },
{
    match r {
        PassResult::Stop => (s, ScheduleNext::Stop),
        PassResult::Retry { scanned, last } => {
            let last = if last.is_some() { last } else { s.last };
            if scanned == 0 {
                let idle = s.idle_passes + 1;
                let next = if idle >= BACKFILL_IDLE_PASSES { ScheduleNext::Stop } else { ScheduleNext::Continue };
                (Schedule { idle_passes: idle, last }, next)
            } else {
                (Schedule { idle_passes: 0, last }, ScheduleNext::Continue)
            }
        },
    }
}

// ---------------------------------------------------------------------------
// Sync cycles
// ---------------------------------------------------------------------------

/// A job's stored sync state: its cursor and whether its seed completed.
#[derive(Debug, Clone, PartialEq, Eq)]
pub struct SyncState {
    pub cursor: String,
    pub seed_done: bool,
}

/// The window and starting cursor of a cycle: a completed seed refreshes incrementally
/// by `updatedAt` from its cursor; an unfinished seed resumes by `createdAt` from its
/// cursor; a job with no state starts a fresh seed.
pub fn cycle_plan(state: &Option<SyncState>) -> (r: (crate::mangadex::SyncWindow, Option<String>))
    ensures
        match state {
            Some(s) => r.0 == (if s.seed_done { crate::mangadex::SyncWindow::Updated } else { crate::mangadex::SyncWindow::Created })
                && opt_string(r.1) == Some(s.cursor@),
            None => r.0 == crate::mangadex::SyncWindow::Created && r.1 is None,
        },
{
    match state {
        Some(s) => {
            let w = if s.seed_done { crate::mangadex::SyncWindow::Updated } else { crate::mangadex::SyncWindow::Created };
            (w, Some(crate::text::string_of(s.cursor.as_str())))
        },
        None => (crate::mangadex::SyncWindow::Created, None),
    }
}

/// What a successful cycle writes to its job's sync state.
#[derive(Debug, Clone, Copy, PartialEq, Eq, Structural)]
pub enum CursorWrite {
    /// An incremental job advances its cursor to the cycle's start.
    Advance,
    /// A seed that dropped records keeps resuming: `seed_done` is withheld.
    Withhold,
    /// A seed that dropped nothing is done; the cursor moves to the cycle's start.
    MarkSeedDone,
}

/// The cursor write after a successful sweep of a job that was already `seeded` or not,
/// which dropped `dropped` records.
pub open spec fn cursor_write_of(seeded: bool, dropped: u64) -> CursorWrite {
    if seeded {
        CursorWrite::Advance
    } else if dropped > 0 {
        CursorWrite::Withhold
    } else {
        CursorWrite::MarkSeedDone
    }
}

/// Decides the cursor write of a successful sweep (see `cursor_write_of`).
pub fn cursor_write(seeded: bool, dropped: u64) -> (r: CursorWrite)
    ensures
        r == cursor_write_of(seeded, dropped),
{
    if seeded {
        CursorWrite::Advance
    } else if dropped > 0 {
        CursorWrite::Withhold
    } else {
        CursorWrite::MarkSeedDone
    }
}

/// `seed_done` is latched only by a seed that dropped nothing: a seed that dropped a
/// record keeps resuming, and an already-seeded job only advances its cursor.
pub proof fn lemma_dropping_seed_never_latches(seeded: bool, dropped: u64)
    ensures
        cursor_write_of(seeded, dropped) == CursorWrite::MarkSeedDone <==> (!seeded && dropped == 0),
        !seeded && dropped > 0 ==> cursor_write_of(seeded, dropped) == CursorWrite::Withhold,
{
}

} // verus!
