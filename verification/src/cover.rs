//! Cover URLs and the classification of cover-processing failures.
use vstd::prelude::*;
use crate::text::opt_str;
use crate::errors::{error_display, error_text};
use crate::text::{ascii_lower, chars_of, contains_chars, has_substring, int_decimal, lower_ascii, push_i64, push_str};

verus! {

/// `/covers/{work_id}.webp?v={version}`.
pub open spec fn cover_path_text(work_id: Seq<char>, version: int) -> Seq<char> {
    "/covers/"@ + work_id + ".webp?v="@ + int_decimal(version)
}

/// The public, cache-busted path of a cached work cover.
pub fn cover_path(work_id: &str, version: i64) -> (r: String)
    ensures
        r@ == cover_path_text(work_id@, version as int),
{
    let mut r = String::new();
    push_str(&mut r, "/covers/");
    push_str(&mut r, work_id);
    push_str(&mut r, ".webp?v=");
    push_i64(&mut r, version);
    r
}

/// The cover URL of a work: the versioned cached path when it is cached; the lazy
/// `/covers/{work_id}.webp` route when it has a non-empty MangaDex id and cover file
/// name; else the empty string.
pub open spec fn work_cover_text(
    work_id: Seq<char>,
    cached_version: Option<i64>,
    mangadex_id: Option<Seq<char>>,
    cover_file_name: Option<Seq<char>>,
) -> Seq<char> {
    match cached_version {
        Some(v) => cover_path_text(work_id, v as int),
        None => match (mangadex_id, cover_file_name) {
            (Some(mid), Some(fname)) => if mid.len() > 0 && fname.len() > 0 {
                "/covers/"@ + work_id + ".webp"@
            } else {
                Seq::empty()
            },
            _ => Seq::empty(),
        },
    }
}

/// Resolves the cover URL for a work.
pub fn work_cover_url(
    work_id: &str,
    cached_version: Option<i64>,
    mangadex_id: Option<&str>,
    cover_file_name: Option<&str>,
) -> (r: String)
    ensures
        r@ == work_cover_text(work_id@, cached_version, opt_str(mangadex_id), opt_str(cover_file_name)),
{
    if let Some(v) = cached_version {
        return cover_path(work_id, v);
    }
    match (mangadex_id, cover_file_name) {
        (Some(mid), Some(fname)) => {
            if mid.unicode_len() > 0 && fname.unicode_len() > 0 {
                let mut r = String::new();
                push_str(&mut r, "/covers/");
                push_str(&mut r, work_id);
                push_str(&mut r, ".webp");
                r
            } else {
                String::new()
            }
        },
        _ => String::new(),
    }
}

/// The stable reason code for a cover failure message, matched case-insensitively
/// (ASCII): `too_large`, `truncated`, `unsupported`, `empty`, else `encode`.
pub open spec fn cover_reason(msg: Seq<char>) -> Seq<char> {
    let s = ascii_lower(msg);
    if has_substring(s, "source too large"@) {
        "too_large"@
    } else if has_substring(s, "truncated"@) {
        "truncated"@
    } else if has_substring(s, "unsupported"@) || has_substring(s, "corrupt"@) || has_substring(
        s,
        "zero dimension"@,
    ) {
        "unsupported"@
    } else if has_substring(s, "empty"@) {
        "empty"@
    } else {
        "encode"@
    }
}

fn mentions(hay: &[char], pat: &str) -> (b: bool)
    ensures
        b == has_substring(hay@, pat@),
{
    let p = chars_of(pat);
    contains_chars(hay, p.as_slice())
}

/// The reason code for a cover failure with this message.
pub fn classify_cover_message(msg: &str) -> (r: &'static str)
    ensures
        r@ == cover_reason(msg@),
{
    let cs = chars_of(msg);
    let low = lower_ascii(cs.as_slice());
    let s = low.as_slice();
    if mentions(s, "source too large") {
        "too_large"
    } else if mentions(s, "truncated") {
        "truncated"
    } else if mentions(s, "unsupported") || mentions(s, "corrupt") || mentions(s, "zero dimension") {
        "unsupported"
    } else if mentions(s, "empty") {
        "empty"
    } else {
        "encode"
    }
}

/// Whether a failure with this message is transient (a truncated download), so that
/// re-fetching later could succeed.
pub fn is_transient_cover_message(msg: &str) -> (b: bool)
    ensures
        b == (cover_reason(msg@) == "truncated"@),
{
    let r = classify_cover_message(msg);
    let rc = chars_of(r);
    let t = chars_of("truncated");
    crate::text::chars_eq(rc.as_slice(), t.as_slice())
}

/// The reason code for a cover failure: `classify_cover_message` of the error's
/// displayed text.
pub fn classify_cover_error(err: &anyhow::Error) -> (r: &'static str)
    ensures
        r@ == cover_reason(error_display(*err)),
{
    let msg = error_text(err);
    classify_cover_message(msg.as_str())
}

/// Whether a cover failure is transient: `is_transient_cover_message` of the error's
/// displayed text.
pub fn is_transient_cover_error(err: &anyhow::Error) -> (b: bool)
    ensures
        b == (cover_reason(error_display(*err)) == "truncated"@),
{
    let msg = error_text(err);
    is_transient_cover_message(msg.as_str())
}

// ---------------------------------------------------------------------------
// The cover crawl
// ---------------------------------------------------------------------------

/// A work whose MangaDex cover the crawl fetches.
#[derive(Debug, Clone, PartialEq, Eq)]
pub struct PendingCover {
    pub work_id: String,
    pub mangadex_id: String,
    pub file_name: String,
}

/// A work row of the crawl's query becomes a job when it has a non-empty MangaDex
/// anchor and a cover file name.
pub fn pending_mangadex_cover(
    work_id: String,
    mangadex_id: Option<String>,
    file_name: Option<String>,
) -> (r: Option<PendingCover>)
    ensures
        match (mangadex_id, file_name) {
            (Some(m), Some(f)) => if m@.len() > 0 {
                r matches Some(p) && p.work_id@ == work_id@ && p.mangadex_id@ == m@ && p.file_name@ == f@
            } else {
                r is None
            },
            _ => r is None,
        },
{
    match (mangadex_id, file_name) {
        (Some(m), Some(f)) => {
            if m.unicode_len() > 0 {
                Some(PendingCover { work_id, mangadex_id: m, file_name: f })
            } else {
                None
            }
        },
        _ => None,
    }
}

/// A work row of the Suwayomi pass becomes a job when its thumbnail URL is non-empty.
pub fn pending_suwayomi_cover(work_id: String, thumbnail_url: Option<String>) -> (r: Option<(String, String)>)
    ensures
        match thumbnail_url {
            Some(t) => if t@.len() > 0 {
                r matches Some(p) && p.0@ == work_id@ && p.1@ == t@
            } else {
                r is None
            },
            None => r is None,
        },
{
    match thumbnail_url {
        Some(t) => {
            if t.unicode_len() > 0 {
                Some((work_id, t))
            } else {
                None
            }
        },
        None => None,
    }
}

/// How one cover attempt went.
#[derive(Debug, Clone, PartialEq, Eq)]
pub enum CoverAttempt {
    /// The upstream fetch failed (rate limit, network): transient.
    FetchFailed,
    /// Processing failed with this message.
    ProcessFailed(String),
    /// The processing task panicked: not necessarily deterministic.
    ProcessPanicked,
    /// The processed cover could not be stored, with this message.
    StoreFailed(String),
    /// The cover was stored.
    Stored,
}

/// What an attempt does to the work's recorded cover issue.
#[derive(Debug, Clone, PartialEq, Eq)]
pub enum IssueAction {
    /// Clear it: the work has its cover.
    Clear,
    /// Record (or refresh) it with this reason and detail, so the crawl stops retrying.
    Record(&'static str, String),
    /// Leave it as it is: a later tick may succeed.
    Leave,
}

/// The issue action of an attempt: a stored cover clears the issue; a store failure is
/// recorded as `store`; a processing failure is recorded under its reason unless it is
/// transient (a truncated download); an upstream fetch failure and a panic are left for
/// a later tick.
pub fn settle_attempt(a: CoverAttempt) -> (r: (bool, IssueAction))
    ensures
        r.0 == (a == CoverAttempt::Stored),
        match a {
            CoverAttempt::Stored => r.1 == IssueAction::Clear,
            CoverAttempt::StoreFailed(m) => r.1 matches IssueAction::Record(reason, detail) && reason@ == "store"@
                && detail@ == m@,
            CoverAttempt::ProcessFailed(m) => if cover_reason(m@) == "truncated"@ {
                r.1 == IssueAction::Leave
            } else {
                r.1 matches IssueAction::Record(reason, detail) && reason@ == cover_reason(m@) && detail@ == m@
            },
            CoverAttempt::FetchFailed | CoverAttempt::ProcessPanicked => r.1 == IssueAction::Leave,
        },
{
    match a {
        CoverAttempt::Stored => (true, IssueAction::Clear),
        CoverAttempt::StoreFailed(m) => (false, IssueAction::Record("store", m)),
        CoverAttempt::ProcessFailed(m) => {
            if is_transient_cover_message(m.as_str()) {
                (false, IssueAction::Leave)
            } else {
                let reason = classify_cover_message(m.as_str());
                (false, IssueAction::Record(reason, m))
            }
        },
        CoverAttempt::FetchFailed | CoverAttempt::ProcessPanicked => (false, IssueAction::Leave),
    }
}

// ---------------------------------------------------------------------------
// The Suwayomi cover warmer
// ---------------------------------------------------------------------------

/// The warmer's cursor value meaning "start from the newest id".
pub const WARM_CURSOR_START: i64 = 0x7fff_ffff_ffff_ffff;

/// The ids of `candidates` without a cached blob, in order, at most `limit` of them
/// (none for a negative `limit`).
pub open spec fn uncached_prefix(candidates: Seq<i64>, cached: Set<i64>, limit: int) -> Seq<i64>
    decreases candidates.len(),
{
    if candidates.len() == 0 || limit <= 0 {
        Seq::empty()
    } else if cached.contains(candidates[0]) {
        uncached_prefix(candidates.drop_first(), cached, limit)
    } else {
        seq![candidates[0]] + uncached_prefix(candidates.drop_first(), cached, limit - 1)
    }
}

/// The candidates (thumbnailed series ids, newest first) that still lack a cached
/// cover, at most `limit`.
pub fn uncached_ids(candidates: &[i64], cached: &std::collections::HashSet<i64>, limit: i64) -> (r: Vec<i64>)
    ensures
        r@ == uncached_prefix(candidates@, cached@, limit as int),
{
    broadcast use vstd::std_specs::hash::group_hash_axioms;
    let mut out: Vec<i64> = Vec::new();
    let mut i: usize = 0;
    assert(candidates@.skip(0) == candidates@);
    assert(out@ + uncached_prefix(candidates@, cached@, limit as int) =~= uncached_prefix(candidates@, cached@, limit as int));
    while i < candidates.len() && (out.len() as i128) < (limit as i128)
        invariant
            i <= candidates.len(),
            out@ + uncached_prefix(candidates@.skip(i as int), cached@, limit - out@.len())
                == uncached_prefix(candidates@, cached@, limit as int),
            out@.len() <= (if limit > 0 { limit as int } else { 0 }),
        decreases candidates.len() - i,
    {
        let x = candidates[i];
        let ghost rest = candidates@.skip(i as int);
        assert(rest[0] == x);
        assert(rest.drop_first() == candidates@.skip(i as int + 1));
        if !cached.contains(&x) {
            out.push(x);
            assert(out@ + uncached_prefix(candidates@.skip(i as int + 1), cached@, limit - out@.len())
                =~= out@.drop_last() + (seq![x] + uncached_prefix(rest.drop_first(), cached@, limit - out@.drop_last().len() - 1)));
        }
        i = i + 1;
    }
    proof {
        let rest = candidates@.skip(i as int);
        if i == candidates.len() {
            assert(rest.len() == 0);
        }
        assert(uncached_prefix(rest, cached@, limit - out@.len()) == Seq::<i64>::empty());
        assert(out@ + Seq::<i64>::empty() == out@);
    }
    out
}

/// Where the next warmer tick starts: strictly below this batch's lowest id when the
/// batch was full, else from the newest id again.
pub fn warm_cursor_next(ids: &[i64], limit: i64) -> (r: i64)
    ensures
        r == (if ids@.len() > 0 && ids@.len() >= limit {
            ids@.last()
        } else {
            WARM_CURSOR_START
        }),
{
    if ids.len() > 0 && (ids.len() as i128) >= (limit as i128) {
        ids[ids.len() - 1]
    } else {
        WARM_CURSOR_START
    }
}

/// Whether a tick that found nothing below `start` wraps around and takes the newest
/// window instead.
pub fn warm_should_wrap(found_none: bool, start: i64) -> (b: bool)
    ensures
        b == (found_none && start != WARM_CURSOR_START),
{
    found_none && start != WARM_CURSOR_START
}

// ---------------------------------------------------------------------------
// The cover size ladder
// ---------------------------------------------------------------------------

/// The candidate longest edges of a stored cover, in pixels, largest first.
pub open spec fn cover_edge_list() -> Seq<u32> {
    seq![512u32, 448, 384]
}

/// The number of rungs of the lossy-quality ladder tried at each edge.
pub const COVER_QUALITY_RUNGS: usize = 5;

/// The size budget of a stored cover (150 KB).
pub const MAX_COVER_BYTES: usize = 153600;

/// Raw source images larger than this are refused before decoding (24 MB).
pub const MAX_SOURCE_BYTES: usize = 25165824;

/// The candidate longest edges of a stored cover, largest first.
pub fn cover_edges() -> (r: Vec<u32>)
    ensures
        r@ == cover_edge_list(),
{
    let r: Vec<u32> = vec![512, 448, 384];
    assert(r@ == cover_edge_list());
    r
}

/// What to do after encoding at edge `edge` and quality rung `rung`.
#[derive(Debug, Clone, Copy, PartialEq, Eq, Structural)]
pub enum LadderNext {
    /// It fits the budget: use it.
    Accept,
    /// Too large: try this edge and rung next.
    Try(usize, usize),
    /// Too large, and every pair was tried: use this last, smallest encoding.
    Fallback,
}

/// The first (edge, quality) pair, edges largest first and qualities highest first,
/// whose encoding fits `MAX_COVER_BYTES` wins; if none does, the last encoding is used.
pub fn after_cover_encoding(edge: usize, rung: usize, encoded_len: usize) -> (r: LadderNext)
    requires
        edge < cover_edge_list().len(),
        rung < COVER_QUALITY_RUNGS,
    ensures
        r == (if encoded_len <= MAX_COVER_BYTES {
            LadderNext::Accept
        } else if rung + 1 < COVER_QUALITY_RUNGS {
            LadderNext::Try(edge, (rung + 1) as usize)
        } else if edge + 1 < cover_edge_list().len() {
            LadderNext::Try((edge + 1) as usize, 0)
        } else {
            LadderNext::Fallback
        }),
{
    if encoded_len <= MAX_COVER_BYTES {
        LadderNext::Accept
    } else if rung + 1 < COVER_QUALITY_RUNGS {
        LadderNext::Try(edge, rung + 1)
    } else if edge + 1 < 3 {
        LadderNext::Try(edge + 1, 0)
    } else {
        LadderNext::Fallback
    }
}

/// Why a cover source is refused before it is decoded.
pub fn check_cover_source(len: usize) -> (r: Option<&'static str>)
    ensures
        match r {
            Some(m) => (len == 0 && m@ == "empty cover source"@) || (len > MAX_SOURCE_BYTES && m@ == "cover source too large (max 24 MB)"@),
            None => 0 < len <= MAX_SOURCE_BYTES,
        },
{
    if len == 0 {
        Some("empty cover source")
    } else if len > MAX_SOURCE_BYTES {
        Some("cover source too large (max 24 MB)")
    } else {
        None
    }
}

} // verus!
