//! The MangaDex HTTP API as the client uses it: the query of each list call, the
//! `Retry-After` header, the retry rule for failed requests, and the body-size cap.
use vstd::prelude::*;
use crate::mangadex::{backoff, backoff_ms, SyncWindow};
use crate::text::{int_decimal, parse_unsigned, parse_unsigned_chars, pair_views, push_i64, string_of};
use crate::unicode::{trim_str, trimmed};

verus! {

/// The page size of `/manga` and `/chapter` lists.
pub const PAGE_LIMIT: i64 = 100;

fn param(k: &str, v: &str) -> (r: (String, String))
    ensures
        r.0@ == k@,
        r.1@ == v@,
{
    (string_of(k), string_of(v))
}

fn int_text(i: i64) -> (r: String)
    ensures
        r@ == int_decimal(i as int),
{
    let mut s = String::new();
    push_i64(&mut s, i);
    s
}

pub open spec fn window_order_key(w: SyncWindow) -> Seq<char> {
    if w == SyncWindow::Created { "order[createdAt]"@ } else { "order[updatedAt]"@ }
}

pub open spec fn window_since_param(w: SyncWindow) -> Seq<char> {
    if w == SyncWindow::Created { "createdAtSince"@ } else { "updatedAtSince"@ }
}

/// The query of a `/manga` page: 100 records from `offset`, with covers, authors and
/// artists expanded, ascending by the window's timestamp, every content rating, and
/// the window's `...Since` cursor when there is one.
pub open spec fn manga_query(w: SyncWindow, since: Option<Seq<char>>, offset: int) -> Seq<(Seq<char>, Seq<char>)> {
    let base = seq![
        ("limit"@, "100"@),
        ("offset"@, int_decimal(offset)),
        ("includes[]"@, "cover_art"@),
        ("includes[]"@, "author"@),
        ("includes[]"@, "artist"@),
        (window_order_key(w), "asc"@),
        ("contentRating[]"@, "safe"@),
        ("contentRating[]"@, "suggestive"@),
        ("contentRating[]"@, "erotica"@),
        ("contentRating[]"@, "pornographic"@),
    ];
    match since {
        Some(s) => base.push((window_since_param(w), s)),
        None => base,
    }
}

/// The query parameters of a `/manga` page.
pub fn manga_query_params(window: SyncWindow, since: Option<&str>, offset: i64) -> (r: Vec<(String, String)>)
    ensures
        pair_views(r@) == manga_query(window, crate::text::opt_str(since), offset as int),
{
    let mut params: Vec<(String, String)> = Vec::new();
    params.push(param("limit", "100"));
    params.push((string_of("offset"), int_text(offset)));
    params.push(param("includes[]", "cover_art"));
    params.push(param("includes[]", "author"));
    params.push(param("includes[]", "artist"));
    params.push(param(window.order_key(), "asc"));
    params.push(param("contentRating[]", "safe"));
    params.push(param("contentRating[]", "suggestive"));
    params.push(param("contentRating[]", "erotica"));
    params.push(param("contentRating[]", "pornographic"));
    if let Some(s) = since {
        params.push(param(window.since_param(), s));
    }
    assert(pair_views(params@) =~= manga_query(window, crate::text::opt_str(since), offset as int));
    params
}

/// The query of a `/chapter` page: 100 English chapters from `offset`, ascending by
/// the window's timestamp, with the manga relationship expanded, and the window's
/// `...Since` cursor when there is one.
pub open spec fn chapter_query(w: SyncWindow, since: Option<Seq<char>>, offset: int) -> Seq<(Seq<char>, Seq<char>)> {
    let base = seq![
        ("limit"@, "100"@),
        ("offset"@, int_decimal(offset)),
        (window_order_key(w), "asc"@),
        ("includes[]"@, "manga"@),
        ("translatedLanguage[]"@, "en"@),
    ];
    match since {
        Some(s) => base.push((window_since_param(w), s)),
        None => base,
    }
}

/// The query parameters of a `/chapter` page.
pub fn chapter_query_params(window: SyncWindow, since: Option<&str>, offset: i64) -> (r: Vec<(String, String)>)
    ensures
        pair_views(r@) == chapter_query(window, crate::text::opt_str(since), offset as int),
{
    let mut params: Vec<(String, String)> = Vec::new();
    params.push(param("limit", "100"));
    params.push((string_of("offset"), int_text(offset)));
    params.push(param(window.order_key(), "asc"));
    params.push(param("includes[]", "manga"));
    params.push(param("translatedLanguage[]", "en"));
    if let Some(s) = since {
        params.push(param(window.since_param(), s));
    }
    assert(pair_views(params@) =~= chapter_query(window, crate::text::opt_str(since), offset as int));
    params
}

/// The query of a `/cover` gallery call: the manga, at most `limit` covers clamped to
/// `1..=100`, ascending by volume.
pub fn cover_query_params(manga_id: &str, limit: i64) -> (r: Vec<(String, String)>)
    ensures
        pair_views(r@) == seq![
            ("manga[]"@, manga_id@),
            ("limit"@, int_decimal(if limit < 1 { 1 } else if limit > 100 { 100 } else { limit as int })),
            ("order[volume]"@, "asc"@),
        ],
{
    let n: i64 = if limit < 1 { 1 } else if limit > 100 { 100 } else { limit };
    let mut params: Vec<(String, String)> = Vec::new();
    params.push(param("manga[]", manga_id));
    params.push((string_of("limit"), int_text(n)));
    params.push(param("order[volume]", "asc"));
    let ghost want = seq![
        ("manga[]"@, manga_id@),
        ("limit"@, int_decimal(n as int)),
        ("order[volume]"@, "asc"@),
    ];
    assert(pair_views(params@) =~= want);
    params
}

/// `Retry-After` in whole seconds (the form MangaDex sends), trimmed and read as a
/// `u64`, clamped to 60 seconds; `None` when absent or not a number.
pub open spec fn retry_after_of(header: Option<Seq<char>>) -> Option<nat> {
    match header {
        Some(h) => match parse_unsigned(trimmed(h), 0xffff_ffff_ffff_ffff) {
            Some(n) => Some(if n > 60 { 60 } else { n }),
            None => None,
        },
        None => None,
    }
}

/// The wait, in seconds, that a `Retry-After` header asks for.
pub fn retry_after_secs(header: Option<&str>) -> (r: Option<u64>)
    ensures
        match (r, retry_after_of(crate::text::opt_str(header))) {
            (Some(a), Some(b)) => a == b,
            (None, None) => true,
            _ => false,
        },
{
    match header {
        Some(h) => {
            let t = trim_str(h);
            match parse_unsigned_chars(t.as_slice(), 0xffff_ffff_ffff_ffff) {
                Some(n) => Some(if n > 60 { 60 } else { n }),
                None => None,
            }
        },
        None => None,
    }
}

/// Retries of a request answered with a retryable status.
pub const MAX_RETRIES: u32 = 4;
/// Retries of a request that failed at the transport level.
pub const MAX_TRANSPORT_RETRIES: u32 = 2;

/// The retry counters of one request.
#[derive(Debug, Clone, Copy, PartialEq, Eq, Structural)]
pub struct RetryState {
    pub attempt: u32,
    pub transport_attempt: u32,
}

/// What a request attempt ended with.
#[derive(Debug, Clone, Copy, PartialEq, Eq, Structural)]
pub enum Attempt {
    /// No response; `transient` for a connect failure or a timeout.
    TransportError { transient: bool },
    /// A response with this status and, when the header parsed, its `Retry-After`
    /// wait in seconds.
    Status { code: u16, retry_after_secs: Option<u64> },
}

/// What the client does next.
#[derive(Debug, Clone, Copy, PartialEq, Eq, Structural)]
pub enum RetryAction {
    /// The response succeeded: hand it back.
    Succeed,
    /// Give up with the transport error (`"MangaDex {label} request failed: {e}"`).
    FailTransport,
    /// Give up with the status (`"MangaDex {label} error {status}"`).
    FailStatus,
    /// Wait this many milliseconds, then send the request again.
    Wait(u64),
}

/// A status worth retrying: 429, the sporadic 400s MangaDex answers under load, and
/// every 5xx.
pub open spec fn retryable(code: u16) -> bool {
    code == 429 || code == 400 || (500 <= code && code <= 599)
}

/// The client's move after an attempt: a 2xx succeeds; a transient transport failure
/// is retried after the backoff up to `MAX_TRANSPORT_RETRIES` times; a retryable status
/// up to `MAX_RETRIES` times, after `Retry-After` when given, else the backoff; anything
/// else fails.
pub open spec fn retry_decision(st: RetryState, a: Attempt) -> (RetryState, RetryAction) {
    match a {
        Attempt::TransportError { transient } => if !transient || st.transport_attempt >= MAX_TRANSPORT_RETRIES {
            (st, RetryAction::FailTransport)
        } else {
            (
                RetryState { transport_attempt: (st.transport_attempt + 1) as u32, ..st },
                RetryAction::Wait(backoff_ms(st.transport_attempt as nat) as u64),
            )
        },
        Attempt::Status { code, retry_after_secs } => if 200 <= code && code <= 299 {
            (st, RetryAction::Succeed)
        } else if !retryable(code) || st.attempt >= MAX_RETRIES {
            (st, RetryAction::FailStatus)
        } else {
            (
                RetryState { attempt: (st.attempt + 1) as u32, ..st },
                RetryAction::Wait(match retry_after_secs {
                    Some(s) => (s * 1000) as u64,
                    None => backoff_ms(st.attempt as nat) as u64,
                }),
            )
        },
    }
}

/// A 429, a 400 and every 5xx answer is retried while status retries remain: the
/// client waits, the status counter rises by one and the transport counter is kept;
/// with no retries left, or for any other non-2xx status, the request fails and the
/// counters stay; a 2xx succeeds.
pub proof fn lemma_status_retries(st: RetryState, code: u16, retry_after_secs: Option<u64>)
    ensures
        ({
            let (n, act) = retry_decision(st, Attempt::Status { code, retry_after_secs });
            &&& (200 <= code <= 299) ==> act == RetryAction::Succeed && n == st
            &&& ((code == 429 || code == 400 || 500 <= code <= 599) && st.attempt < MAX_RETRIES) ==> (
                act is Wait && n.attempt == st.attempt + 1 && n.transport_attempt == st.transport_attempt)
            &&& (!(200 <= code <= 299) && !(code == 429 || code == 400 || 500 <= code <= 599)) ==> (
                act == RetryAction::FailStatus && n == st)
            &&& (!(200 <= code <= 299) && st.attempt >= MAX_RETRIES) ==> (act == RetryAction::FailStatus && n == st)
        }),
{
}

/// Decides the client's move after an attempt.
pub fn on_attempt(st: RetryState, a: Attempt) -> (r: (RetryState, RetryAction))
    requires
        match a {
            Attempt::Status { retry_after_secs: Some(s), .. } => s <= 60,
            _ => true,
        },
    ensures
        r == retry_decision(st, a),
{
    match a {
        Attempt::TransportError { transient } => {
            if !transient || st.transport_attempt >= MAX_TRANSPORT_RETRIES {
                (st, RetryAction::FailTransport)
            } else {
                let wait = backoff(st.transport_attempt);
                (RetryState { transport_attempt: st.transport_attempt + 1, ..st }, RetryAction::Wait(wait))
            }
        },
        Attempt::Status { code, retry_after_secs } => {
            if 200 <= code && code <= 299 {
                (st, RetryAction::Succeed)
            } else if !(code == 429 || code == 400 || (500 <= code && code <= 599)) || st.attempt >= MAX_RETRIES {
                (st, RetryAction::FailStatus)
            } else {
                let wait = match retry_after_secs {
                    Some(s) => s * 1000,
                    None => backoff(st.attempt),
                };
                (RetryState { attempt: st.attempt + 1, ..st }, RetryAction::Wait(wait))
            }
        },
    }
}

/// A request is attempted at most `MAX_RETRIES + MAX_TRANSPORT_RETRIES + 1` times:
/// every wait raises one of the two counters, and each counter stops the retrying at
/// its bound.
pub proof fn lemma_retries_are_bounded(st: RetryState, a: Attempt)
    requires
        st.attempt <= MAX_RETRIES,
        st.transport_attempt <= MAX_TRANSPORT_RETRIES,
    ensures
        ({
            let (n, act) = retry_decision(st, a);
            &&& n.attempt <= MAX_RETRIES
            &&& n.transport_attempt <= MAX_TRANSPORT_RETRIES
            &&& (act is Wait ==> n.attempt + n.transport_attempt == st.attempt + st.transport_attempt + 1)
        }),
{
}

/// Whether a body that declares `declared` bytes is refused before it is read.
pub fn declared_too_large(declared: Option<u64>, cap: usize) -> (b: bool)
    ensures
        b == (match declared {
            Some(n) => n > cap,
            None => false,
        }),
{
    match declared {
        Some(n) => n > cap as u64,
        None => false,
    }
}

/// Whether appending a chunk of `chunk` bytes to `read` bytes crosses the cap.
pub fn chunk_overflows(read: usize, chunk: usize, cap: usize) -> (b: bool)
    ensures
        b == (read + chunk > cap),
{
    chunk > cap || read > cap - chunk
}

} // verus!
