//! "Add all from source" bulk-ingest jobs: the persisted job row, the progress
//! counters folded from every item's dedup decision, and the rules of the page walk
//! (which listings are walked, which ids are dispatched, when the walk goes on, how a
//! failed page is retried and how the job ends).
use vstd::prelude::*;
use crate::text::opt_string;
use std::collections::HashSet;
use crate::text::{push_str, str_eq};

verus! {

/// The only live job state.
pub const STATE_RUNNING: &'static str = "running";
/// A job that walked at least one listing.
pub const STATE_COMPLETED: &'static str = "completed";
/// A job an admin cancelled.
pub const STATE_CANCELLED: &'static str = "cancelled";
/// A job whose every listing failed, or that a restart interrupted.
pub const STATE_FAILED: &'static str = "failed";

/// Hard ceiling on pages walked per listing.
pub const MAX_PAGES: i64 = 1000;
/// Consecutive empty pages tolerated while the source still claims a next page.
pub const MAX_EMPTY_PAGES: i64 = 2;
/// Attempts per browse page before the listing is given up.
pub const PAGE_FETCH_ATTEMPTS: u32 = 3;
/// The first retry backoff, in milliseconds; it doubles per attempt.
pub const PAGE_RETRY_BASE_MS: u64 = 2000;
/// Progress is flushed to the job row every this many completed items.
pub const PROGRESS_FLUSH_EVERY: i64 = 5;

/// A listing of a source.
#[derive(Debug, Clone, Copy, PartialEq, Eq, Structural)]
pub enum FetchType {
    Popular,
    Latest,
}

/// The listings walked, in order, with their labels: a source's catalogue is not
/// reachable through the popular listing alone, so the latest listing is walked too.
pub open spec fn listing_plan() -> Seq<(FetchType, Seq<char>)> {
    seq![(FetchType::Popular, "popular"@), (FetchType::Latest, "latest"@)]
}

/// The listings walked, in order, with their labels.
pub fn listings() -> (r: Vec<(FetchType, &'static str)>)
    ensures
        r@.len() == listing_plan().len(),
        forall|i: int| 0 <= i < r@.len() ==> (#[trigger] r@[i]).0 == listing_plan()[i].0
            && r@[i].1@ == listing_plan()[i].1,
{
    let r: Vec<(FetchType, &'static str)> = vec![(FetchType::Popular, "popular"), (FetchType::Latest, "latest")];
    r
}

/// One persisted ingest job row.
#[derive(Debug, Clone)]
pub struct IngestJob {
    pub id: String,
    pub source_id: String,
    pub state: String,
    pub pages_done: i64,
    pub items_seen: i64,
    pub succeeded: i64,
    pub failed: i64,
    pub new_works: i64,
    pub auto_merged: i64,
    pub queued_for_review: i64,
    pub already_existing: i64,
    pub error: Option<String>,
    pub started_at: String,
    pub finished_at: Option<String>,
}

/// In-memory progress counters of a job.
#[derive(Debug, Default, Clone, Copy, PartialEq, Eq)]
pub struct Progress {
    pub pages_done: i64,
    pub items_seen: i64,
    pub succeeded: i64,
    pub failed: i64,
    pub new_works: i64,
    pub auto_merged: i64,
    pub queued_for_review: i64,
    pub already_existing: i64,
}

/// The counter bucket a dedup decision lands in.
#[derive(Debug, Clone, Copy, PartialEq, Eq, Structural)]
pub enum Bucket {
    NewWork,
    AutoMerged,
    Review,
    Existing,
    Uncategorised,
}

/// The bucket of a decision: `new`; `auto_merge` and `mangadex_id`; `review` and
/// `review_consolidated`; `existing`; anything else is counted as a success only.
pub open spec fn bucket_of(d: Seq<char>) -> Bucket {
    if d == "new"@ {
        Bucket::NewWork
    } else if d == "auto_merge"@ || d == "mangadex_id"@ {
        Bucket::AutoMerged
    } else if d == "review"@ || d == "review_consolidated"@ {
        Bucket::Review
    } else if d == "existing"@ {
        Bucket::Existing
    } else {
        Bucket::Uncategorised
    }
}

impl Progress {
    /// The category totals add up to the success total.
    pub open spec fn reconciles(self) -> bool {
        self.new_works + self.auto_merged + self.queued_for_review + self.already_existing
            == self.succeeded
    }

    /// No counter is at its limit, so one more item can be counted.
    pub open spec fn has_room(self) -> bool {
        &&& self.succeeded < i64::MAX
        &&& self.new_works < i64::MAX
        &&& self.auto_merged < i64::MAX
        &&& self.queued_for_review < i64::MAX
        &&& self.already_existing < i64::MAX
    }

    /// The counters after one item with decision `d` succeeded.
    pub open spec fn after_decision(self, d: Seq<char>) -> Progress {
        let s = Progress { succeeded: (self.succeeded + 1) as i64, ..self };
        match bucket_of(d) {
            Bucket::NewWork => Progress { new_works: (self.new_works + 1) as i64, ..s },
            Bucket::AutoMerged => Progress { auto_merged: (self.auto_merged + 1) as i64, ..s },
            Bucket::Review => Progress { queued_for_review: (self.queued_for_review + 1) as i64, ..s },
            Bucket::Existing => Progress { already_existing: (self.already_existing + 1) as i64, ..s },
            Bucket::Uncategorised => s,
        }
    }

    /// Folds one item's dedup decision into the counters.
    pub fn record_decision(&mut self, decision: &str)
        requires
            old(self).has_room(),
        ensures
            *final(self) == old(self).after_decision(decision@),
    {
        self.succeeded = self.succeeded + 1;
        if str_eq(decision, "new") {
            self.new_works = self.new_works + 1;
        } else if str_eq(decision, "auto_merge") || str_eq(decision, "mangadex_id") {
            self.auto_merged = self.auto_merged + 1;
        } else if str_eq(decision, "review") || str_eq(decision, "review_consolidated") {
            self.queued_for_review = self.queued_for_review + 1;
        } else if str_eq(decision, "existing") {
            self.already_existing = self.already_existing + 1;
        }
    }

    /// Counts one failed item.
    pub fn record_failure(&mut self)
        requires
            old(self).failed < i64::MAX,
        ensures
            *final(self) == (Progress { failed: (old(self).failed + 1) as i64, ..*old(self) }),
    {
        self.failed = self.failed + 1;
    }
}

/// Recording a decision of a known kind keeps the category totals reconciled with the
/// success total; a failure leaves them untouched.
pub proof fn lemma_decisions_reconcile(p: Progress, d: Seq<char>)
    requires
        p.reconciles(),
        p.has_room(),
        p.failed < i64::MAX,
        bucket_of(d) != Bucket::Uncategorised,
    ensures
        p.after_decision(d).reconciles(),
        (Progress { failed: (p.failed + 1) as i64, ..p }).reconciles(),
{
}

/// The ids of `ids` dispatched on a page, in order: each id not in `seen` and not
/// earlier on the page.
pub open spec fn fresh_ids(seen: Set<i64>, ids: Seq<i64>) -> Seq<i64>
    decreases ids.len(),
{
    if ids.len() == 0 {
        Seq::empty()
    } else {
        let head = fresh_ids(seen, ids.drop_last());
        let x = ids.last();
        if seen.contains(x) || ids.drop_last().contains(x) {
            head
        } else {
            head.push(x)
        }
    }
}

/// The ids of a page to dispatch, recording every id of the page in `seen`, which
/// the listings of one job share.
pub fn dispatch_fresh(seen: &mut HashSet<i64>, ids: &[i64]) -> (r: Vec<i64>)
    ensures
        r@ == fresh_ids(old(seen)@, ids@),
        final(seen)@ == old(seen)@ + ids@.to_set(),
{
    broadcast use vstd::std_specs::hash::group_hash_axioms;
    let ghost seen0 = seen@;
    let mut out: Vec<i64> = Vec::new();
    let mut i: usize = 0;
    while i < ids.len()
        invariant
            i <= ids.len(),
            out@ == fresh_ids(seen0, ids@.take(i as int)),
            seen@ == seen0 + ids@.take(i as int).to_set(),
        decreases ids.len() - i,
    {
        let x = ids[i];
        let ghost pre = ids@.take(i as int + 1);
        assert(pre.drop_last() == ids@.take(i as int));
        assert(pre.last() == x);
        proof {
            assert((seen0 + ids@.take(i as int).to_set()).contains(x) <==> (seen0.contains(x)
                || ids@.take(i as int).contains(x)));
            assert(seen0 + pre.to_set() =~= (seen0 + ids@.take(i as int).to_set()).insert(x)) by {
                assert forall|y: i64| pre.to_set().contains(y) <==> (ids@.take(i as int).to_set().contains(y) || y == x) by {
                    if pre.contains(y) && y != x {
                        let k = choose|k: int| 0 <= k < pre.len() && pre[k] == y;
                        assert(ids@.take(i as int)[k] == y);
                    }
                    if ids@.take(i as int).contains(y) {
                        let k = choose|k: int| 0 <= k < i && ids@.take(i as int)[k] == y;
                        assert(pre[k] == y);
                    }
                    if y == x {
                        assert(pre[i as int] == y);
                    }
                }
            }
        }
        let fresh = seen.insert(x);
        if fresh {
            out.push(x);
        }
        i = i + 1;
    }
    assert(ids@.take(ids.len() as int) == ids@);
    out
}

/// The run of consecutive empty pages after a page of `page_len` items.
pub fn next_empty_streak(streak: i64, page_len: usize) -> (r: i64)
    requires
        streak < i64::MAX,
    ensures
        r == (if page_len == 0 { streak + 1 } else { 0 }),
{
    if page_len == 0 {
        streak + 1
    } else {
        0
    }
}

/// Whether the walk fetches the page after `page`: the source claims a next page, the
/// page ceiling is not reached, and the source has not kept answering blank.
pub fn should_fetch_next(has_next: bool, page: i64, empty_streak: i64) -> (b: bool)
    ensures
        b == (has_next && page < MAX_PAGES && empty_streak <= MAX_EMPTY_PAGES),
{
    has_next && page < MAX_PAGES && empty_streak <= MAX_EMPTY_PAGES
}

/// Whether progress is flushed after the item that brought `items_seen` to its value.
pub fn should_flush(items_seen: i64) -> (b: bool)
    ensures
        b == (items_seen % PROGRESS_FLUSH_EVERY == 0),
{
    items_seen % PROGRESS_FLUSH_EVERY == 0
}

/// After failed attempt `attempt` (counted from 1) of a browse page: the backoff in
/// milliseconds before the next attempt (2 s, then 4 s), or `None` once the attempts are
/// spent and the failure is reported.
pub fn page_retry_backoff(attempt: u32) -> (r: Option<u64>)
    requires
        attempt >= 1,
    ensures
        match r {
            Some(ms) => attempt < PAGE_FETCH_ATTEMPTS && ms == PAGE_RETRY_BASE_MS * (if attempt == 1 { 1int } else { 2int }),
            None => attempt >= PAGE_FETCH_ATTEMPTS,
        },
{
    if attempt < PAGE_FETCH_ATTEMPTS {
        if attempt == 1 {
            Some(PAGE_RETRY_BASE_MS)
        } else {
            Some(PAGE_RETRY_BASE_MS * 2)
        }
    } else {
        None
    }
}

/// How one listing's walk ended.
#[derive(Debug, Clone, PartialEq, Eq)]
pub enum ListingResult {
    /// The walk finished.
    Done,
    /// The job was cancelled during the walk.
    Cancelled,
    /// The walk failed after its retries, with this error text.
    Failed(String),
}

/// What the job has gathered over the listings walked so far.
#[derive(Debug, Clone, PartialEq, Eq)]
pub struct JobTally {
    /// Listings walked to their end.
    pub walked: u64,
    /// The failed listings, as `"{label} listing failed: {error}"` joined by `"; "`.
    pub warning: Option<String>,
    /// The error text of the last failed listing.
    pub last_error: Option<String>,
}

/// How a job ends.
#[derive(Debug, Clone, PartialEq, Eq)]
pub enum JobEnd {
    /// The job was cancelled; its row already says so.
    Cancelled,
    /// At least one listing was walked; the warning names the listings that failed.
    Completed(Option<String>),
    /// No listing was walked; the error of the last failed one, if any.
    Failed(Option<String>),
}

/// `"{label} listing failed: {error}"`, appended to an earlier warning with `"; "`.
pub open spec fn warning_text(prev: Option<Seq<char>>, label: Seq<char>, err: Seq<char>) -> Seq<char> {
    let note = label + " listing failed: "@ + err;
    match prev {
        Some(p) => p + "; "@ + note,
        None => note,
    }
}

/// The warning after one more listing failed.
pub fn add_listing_warning(prev: Option<String>, label: &str, err: &str) -> (r: String)
    ensures
        r@ == warning_text(opt_string(prev), label@, err@),
{
    let mut r = match prev {
        Some(p) => {
            let mut p = p;
            push_str(&mut p, "; ");
            p
        },
        None => String::new(),
    };
    push_str(&mut r, label);
    push_str(&mut r, " listing failed: ");
    push_str(&mut r, err);
    r
}

/// The tally before any listing is walked.
pub fn empty_tally() -> (t: JobTally)
    ensures
        t.walked == 0,
        t.warning is None,
        t.last_error is None,
{
    JobTally { walked: 0, warning: None, last_error: None }
}

/// Folds the result of the listing labelled `label` into the tally. `Some(end)` when
/// the job stops here (a cancellation), `None` when the next listing is walked.
pub fn after_listing(t: JobTally, label: &str, r: ListingResult) -> (out: (JobTally, Option<JobEnd>))
    requires
        t.walked < u64::MAX,
    ensures
        match r {
            ListingResult::Cancelled => out.1 == Some(JobEnd::Cancelled),
            ListingResult::Done => out.1 is None && out.0.walked == t.walked + 1
                && opt_string(out.0.warning) == opt_string(t.warning)
                && opt_string(out.0.last_error) == opt_string(t.last_error),
            ListingResult::Failed(e) => out.1 is None && out.0.walked == t.walked
                && opt_string(out.0.warning) == Some(warning_text(opt_string(t.warning), label@, e@))
                && opt_string(out.0.last_error) == Some(e@),
        },
{
    match r {
        ListingResult::Cancelled => (t, Some(JobEnd::Cancelled)),
        ListingResult::Done => (JobTally { walked: t.walked + 1, ..t }, None),
        ListingResult::Failed(e) => {
            let w = add_listing_warning(t.warning, label, e.as_str());
            (JobTally { walked: t.walked, warning: Some(w), last_error: Some(e) }, None)
        },
    }
}

/// How a job ends once every listing was walked without a cancellation: completed,
/// with the warning, when at least one listing was walked; else failed with the last
/// listing error.
pub fn job_end(t: JobTally) -> (e: JobEnd)
    ensures
        t.walked > 0 ==> (e matches JobEnd::Completed(w) && opt_string(w) == opt_string(t.warning)),
        t.walked == 0 ==> (e matches JobEnd::Failed(m) && opt_string(m) == opt_string(t.last_error)),
{
    if t.walked > 0 {
        JobEnd::Completed(t.warning)
    } else {
        JobEnd::Failed(t.last_error)
    }
}

} // verus!
