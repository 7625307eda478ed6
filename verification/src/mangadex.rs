//! The MangaDex catalogue mirror: the records it reads, the mapping of a manga onto the
//! canonical work input, and the page/window/retry rules of its sweeps.
//!
//! JSON objects that MangaDex sends as maps (`title`, `description`, `links`, each
//! `altTitles` entry) are held as `(key, value)` lists in the order they were read.
use vstd::prelude::*;
use crate::text::opt_string;
use crate::errors::{error_display, error_text};
use crate::text::{
    after_last, after_last_chars, chars_of, contains_chars, copy_opt_string, has_substring,
    pair_views, pairs_sorted, parse_unsigned, parse_unsigned_chars, push_str, sort_pairs, str_eq,
    string_of,
};
use crate::unicode::{first_word, first_word_chars};

verus! {

/// Which timestamp a sweep windows on: the full seed walks by `createdAt`, the
/// recurring refresh by `updatedAt`.
#[derive(Debug, Clone, Copy, PartialEq, Eq, Structural)]
pub enum SyncWindow {
    Created,
    Updated,
}

impl SyncWindow {
    /// The `...Since` query parameter name.
    pub fn since_param(self) -> (r: &'static str)
        ensures
            r@ == (if self == SyncWindow::Created { "createdAtSince"@ } else { "updatedAtSince"@ }),
    {
        match self {
            SyncWindow::Created => "createdAtSince",
            SyncWindow::Updated => "updatedAtSince",
        }
    }

    /// The `order[...]` query parameter key (always ascending).
    pub fn order_key(self) -> (r: &'static str)
        ensures
            r@ == (if self == SyncWindow::Created {
                "order[createdAt]"@
            } else {
                "order[updatedAt]"@
            }),
    {
        match self {
            SyncWindow::Created => "order[createdAt]",
            SyncWindow::Updated => "order[updatedAt]",
        }
    }
}

/// The backoff before retry `attempt` (0-based), in milliseconds: 500, 1000, 2000, ...,
/// doubling up to the seventh attempt and flat after it.
pub open spec fn backoff_ms(attempt: nat) -> nat
    decreases attempt,
{
    if attempt == 0 {
        500
    } else if attempt > 6 {
        backoff_ms(6)
    } else {
        2 * backoff_ms((attempt - 1) as nat)
    }
}

/// Exponential backoff for retry `attempt` (0-based), in milliseconds.
pub fn backoff(attempt: u32) -> (ms: u64)
    ensures
        ms == backoff_ms(attempt as nat),
{
    let n: u32 = if attempt < 6 { attempt } else { 6 };
    let mut ms: u64 = 500;
    let mut i: u32 = 0;
    while i < n
        invariant
            i <= n <= 6,
            ms == backoff_ms(i as nat),
            ms <= 500 * 64,
        decreases n - i,
    {
        assert(backoff_ms((i + 1) as nat) == 2 * backoff_ms(i as nat));
        ms = ms * 2;
        i = i + 1;
        assert(ms <= 500 * 64) by {
            lemma_backoff_bound(i as nat);
        }
    }
    if attempt > 6 {
        assert(backoff_ms(attempt as nat) == backoff_ms(6));
    }
    ms
}

proof fn lemma_backoff_values()
    ensures
        backoff_ms(0) == 500,
        backoff_ms(1) == 1000,
        backoff_ms(2) == 2000,
        backoff_ms(3) == 4000,
        backoff_ms(4) == 8000,
        backoff_ms(5) == 16000,
        backoff_ms(6) == 32000,
{
    assert(backoff_ms(0) == 500);
    assert(backoff_ms(1) == 1000);
    assert(backoff_ms(2) == 2000);
    assert(backoff_ms(3) == 4000);
    assert(backoff_ms(4) == 8000);
    assert(backoff_ms(5) == 16000);
    assert(backoff_ms(6) == 32000);
}

proof fn lemma_backoff_bound(i: nat)
    requires
        i <= 6,
    ensures
        backoff_ms(i) <= 500 * 64,
        backoff_ms(i) > 0,
{
    lemma_backoff_values();
}

/// Each retry waits at least as long as the one before it.
pub proof fn lemma_backoff_monotone(a: nat, b: nat)
    requires
        a <= b,
    ensures
        backoff_ms(a) <= backoff_ms(b),
    decreases b,
{
    if a < b {
        if b > 6 {
            if a > 6 {
            } else {
                lemma_backoff_monotone(a, 6);
            }
        } else {
            lemma_backoff_monotone(a, (b - 1) as nat);
            lemma_backoff_bound((b - 1) as nat);
            assert(backoff_ms(b) == 2 * backoff_ms((b - 1) as nat));
        }
    }
}

pub open spec fn covers_base() -> Seq<char> {
    "https://uploads.mangadex.org/covers"@
}

pub open spec fn cover_url_text(manga_id: Seq<char>, file_name: Seq<char>) -> Seq<char> {
    covers_base() + "/"@ + manga_id + "/"@ + file_name
}

/// Proxy-ready cover URL for a MangaDex work.
pub fn cover_url(manga_id: &str, file_name: &str) -> (r: String)
    ensures
        r@ == cover_url_text(manga_id@, file_name@),
{
    let mut r = string_of("https://uploads.mangadex.org/covers");
    push_str(&mut r, "/");
    push_str(&mut r, manga_id);
    push_str(&mut r, "/");
    push_str(&mut r, file_name);
    r
}

/// The 512px cover thumbnail URL.
pub fn cover_thumb_url(manga_id: &str, file_name: &str) -> (r: String)
    ensures
        r@ == cover_url_text(manga_id@, file_name@) + ".512.jpg"@,
{
    let mut r = cover_url(manga_id, file_name);
    push_str(&mut r, ".512.jpg");
    r
}

/// How many parse-drops this process logs individually before falling back to one
/// aggregate line per page.
pub const MAX_DETAILED_DROP_LOGS: u64 = 200;

/// How many of a page's `page_drops` still fit under the per-process detail budget,
/// given `already_logged`.
pub fn detailed_drop_count(already_logged: u64, page_drops: usize) -> (n: usize)
    ensures
        n as int == (if already_logged >= MAX_DETAILED_DROP_LOGS {
            0
        } else if page_drops < MAX_DETAILED_DROP_LOGS - already_logged {
            page_drops as int
        } else {
            MAX_DETAILED_DROP_LOGS - already_logged
        }),
{
    let budget: u64 = if already_logged >= MAX_DETAILED_DROP_LOGS {
        0
    } else {
        MAX_DETAILED_DROP_LOGS - already_logged
    };
    let budget: usize = budget as usize;
    if page_drops < budget {
        page_drops
    } else {
        budget
    }
}

/// What the page loop does after a fetch, from the raw page length, the offset and
/// the window total.
#[derive(Debug, Clone, Copy, PartialEq, Eq, Structural)]
pub enum PageStep {
    /// Non-empty page: process the records, then advance `offset` by `raw_len`.
    Process,
    /// Empty page at or after `total` (or an empty window): exhausted.
    EndWindow,
    /// Empty page before `total`: a transient blip; re-fetch the same offset.
    RetryEmpty,
}

pub open spec fn page_step(raw_len: nat, offset: int, total: int) -> PageStep {
    if raw_len > 0 {
        PageStep::Process
    } else if total == 0 || offset >= total {
        PageStep::EndWindow
    } else {
        PageStep::RetryEmpty
    }
}

pub fn classify_page(raw_len: usize, offset: i64, total: i64) -> (r: PageStep)
    ensures
        r == page_step(raw_len as nat, offset as int, total as int),
{
    if raw_len > 0 {
        PageStep::Process
    } else if total == 0 || offset >= total {
        PageStep::EndWindow
    } else {
        PageStep::RetryEmpty
    }
}

/// `offset` advanced by the raw page length (as `raw_len as i64`), saturating at the
/// bounds of `i64`.
pub open spec fn offset_after(offset: i64, raw_len: usize) -> int {
    if offset + (raw_len as i64) > i64::MAX {
        i64::MAX as int
    } else if offset + (raw_len as i64) < i64::MIN {
        i64::MIN as int
    } else {
        offset + (raw_len as i64)
    }
}

/// The next page offset: `offset` advanced by the raw page length, saturating at the
/// bounds of `i64`.
pub fn next_offset(offset: i64, raw_len: usize) -> (r: i64)
    ensures
        r as int == offset_after(offset, raw_len),
{
    #[verifier::truncate]
    let step: i64 = raw_len as i64;
    let sum: i128 = (offset as i128) + (step as i128);
    if sum > i64::MAX as i128 {
        i64::MAX
    } else if sum < i64::MIN as i128 {
        i64::MIN
    } else {
        sum as i64
    }
}

/// The offset never moves backwards over a page, and it moves by exactly the raw page
/// length while that fits in an `i64`.
pub proof fn lemma_offset_advances(offset: i64, raw_len: usize)
    requires
        raw_len <= i64::MAX,
    ensures
        offset <= offset_after(offset, raw_len),
        offset + raw_len <= i64::MAX ==> offset_after(offset, raw_len) == offset + raw_len,
{
    assert((raw_len as i64) as int == raw_len as int);
}

/// The HTTP status that a failed-page message carries: the first word after the last
/// `" error "` in it, read as a `u16`.
pub open spec fn http_status(msg: Seq<char>) -> Option<nat> {
    match after_last(msg, " error "@) {
        Some(rest) => match first_word(rest) {
            Some(w) => parse_unsigned(w, 65535),
            None => None,
        },
        None => None,
    }
}

/// The HTTP status in a page-fetch error message (`"MangaDex /manga error 400 Bad
/// Request"` gives 400); `None` when the message carries none.
pub fn page_error_status(msg: &str) -> (r: Option<u16>)
    ensures
        match (r, http_status(msg@)) {
            (Some(v), Some(w)) => v == w,
            (None, None) => true,
            _ => false,
        },
{
    let cs = chars_of(msg);
    let pat = chars_of(" error ");
    let rest = match after_last_chars(cs.as_slice(), pat.as_slice()) {
        Some(rest) => rest,
        None => return None,
    };
    let word = match first_word_chars(rest.as_slice()) {
        Some(w) => w,
        None => return None,
    };
    match parse_unsigned_chars(word.as_slice(), 65535) {
        Some(v) => Some(v as u16),
        None => None,
    }
}

/// A page failure that the sweep absorbs rather than aborts on: a transport failure
/// (`"request failed"`), or an HTTP 400, 408, 429 or 5xx.
pub open spec fn tolerable_message(msg: Seq<char>) -> bool {
    has_substring(msg, "request failed"@) || match http_status(msg) {
        Some(c) => c == 400 || c == 408 || c == 429 || (500 <= c && c <= 599),
        None => false,
    }
}

/// Whether a page-fetch failure with this message is one the sweep absorbs.
pub fn is_tolerable_message(msg: &str) -> (b: bool)
    ensures
        b == tolerable_message(msg@),
{
    let cs = chars_of(msg);
    let marker = chars_of("request failed");
    if contains_chars(cs.as_slice(), marker.as_slice()) {
        return true;
    }
    match page_error_status(msg) {
        Some(c) => c == 400 || c == 408 || c == 429 || (500 <= c && c <= 599),
        None => false,
    }
}

/// Whether a page fetch that failed with `e` (after the retry layer's own attempts) is
/// absorbed by the sweep: `is_tolerable_message` of the error's displayed text.
pub fn is_tolerable_page_error(e: &anyhow::Error) -> (b: bool)
    ensures
        b == tolerable_message(error_display(*e)),
{
    let msg = error_text(e);
    is_tolerable_message(msg.as_str())
}

/// The result of one catalogue or chapter sweep.
#[derive(Debug, Default, Clone, Copy, PartialEq, Eq, Structural)]
pub struct SweepOutcome {
    /// Records upserted.
    pub upserted: u64,
    /// Records fetched that failed to parse and never reached the spine.
    pub dropped: u64,
}

/// What `to_since` gives for a timestamp.
pub uninterp spec fn since_of(ts: Seq<char>) -> Option<Seq<char>>;

/// What `to_since_next_second` gives for a timestamp.
pub uninterp spec fn since_after_of(ts: Seq<char>) -> Option<Seq<char>>;

/// The `...Since` cursor for an RFC 3339 timestamp: chrono's `parse_from_rfc3339`,
/// then the parsed local date and time rendered as `%Y-%m-%dT%H:%M:%S`; `None` when the
/// text does not parse. The result is only named: chrono's RFC 3339 grammar is its own.
#[verifier::external_body]
pub fn to_since(ts: &str) -> (r: Option<String>)
    ensures
        opt_string(r) == since_of(ts@),
{
    match chrono::DateTime::parse_from_rfc3339(ts) {
        Ok(dt) => Some(dt.format("%Y-%m-%dT%H:%M:%S").to_string()),
        Err(_) => None,
    }
}

/// The `...Since` cursor one second after an RFC 3339 timestamp: chrono's
/// `parse_from_rfc3339`, plus one second, rendered as `%Y-%m-%dT%H:%M:%S`; `None` when
/// the text does not parse. (A parsed year is at most 9999, far inside chrono's range,
/// so the addition cannot overflow.) The result is only named.
#[verifier::external_body]
pub fn to_since_next_second(ts: &str) -> (r: Option<String>)
    ensures
        opt_string(r) == since_after_of(ts@),
{
    match chrono::DateTime::parse_from_rfc3339(ts) {
        Ok(dt) => Some((dt + chrono::Duration::seconds(1)).format("%Y-%m-%dT%H:%M:%S").to_string()),
        Err(_) => None,
    }
}

/// The result of one bounded backfill pass.
#[derive(Debug, Default, Clone, Copy, PartialEq, Eq, Structural)]
pub struct BackfillOutcome {
    /// Records enumerated and successfully parsed.
    pub scanned: u64,
    /// Records absent from `source_series` that were upserted.
    pub ingested: u64,
    /// Records this pass could not persist.
    pub failed: u64,
    /// Whether this pass reached the end of the catalogue.
    pub complete: bool,
    /// Windows cut short by a page that stayed empty while `offset < total`.
    pub truncated: u64,
    /// Records fetched and then failed to parse.
    pub dropped: u64,
}

/// A pass that reached the end having lost nothing and skipped nothing.
pub open spec fn clean_completion(o: BackfillOutcome) -> bool {
    o.complete && o.failed == 0 && o.truncated == 0 && o.dropped == 0
}

/// A pass that left records behind.
pub open spec fn dirty(o: BackfillOutcome) -> bool {
    o.failed > 0 || o.truncated > 0 || o.dropped > 0
}

impl BackfillOutcome {
    /// The only condition under which the one-shot completion marker may be latched:
    /// the sweep reached the end having lost nothing and skipped nothing.
    pub fn is_clean_completion(&self) -> (r: bool)
        ensures
            r == clean_completion(*self),
    {
        self.complete && self.failed == 0 && self.truncated == 0 && self.dropped == 0
    }

    /// Whether this pass left records behind: the cursor must be rewound.
    pub fn is_dirty(&self) -> (r: bool)
        ensures
            r == dirty(*self),
    {
        self.failed > 0 || self.truncated > 0 || self.dropped > 0
    }
}

/// A pass completes cleanly exactly when it reached the end and is not dirty: a dirty
/// pass never latches the completion marker.
pub proof fn lemma_clean_completion_is_complete_and_not_dirty(o: BackfillOutcome)
    ensures
        clean_completion(o) <==> (o.complete && !dirty(o)),
{
}

// ---------------------------------------------------------------------------
// Records
// ---------------------------------------------------------------------------

#[derive(Debug)]
pub struct MdRelAttrs {
    pub file_name: Option<String>,
    pub name: Option<String>,
    /// Cover locale: `cover_art` relationships carry `locale` and `volume`.
    pub locale: Option<String>,
    pub volume: Option<String>,
}

#[derive(Debug)]
pub struct MdRel {
    pub id: String,
    /// The relationship `type` (`author`, `artist`, `cover_art`, `manga`, ...).
    pub kind: String,
    pub attributes: Option<MdRelAttrs>,
}

#[derive(Debug)]
pub struct MdAttrs {
    pub title: Vec<(String, String)>,
    pub alt_titles: Vec<Vec<(String, String)>>,
    pub description: Vec<(String, String)>,
    pub original_language: Option<String>,
    pub status: Option<String>,
    pub year: Option<i64>,
    pub publication_demographic: Option<String>,
    pub content_rating: Option<String>,
    pub links: Vec<(String, String)>,
    pub created_at: Option<String>,
    pub updated_at: Option<String>,
}

#[derive(Debug)]
pub struct MdManga {
    pub id: String,
    pub attributes: MdAttrs,
    pub relationships: Vec<MdRel>,
}

#[derive(Debug)]
pub struct MdChapterAttrs {
    pub chapter: Option<String>,
    pub volume: Option<String>,
    pub title: Option<String>,
    pub translated_language: Option<String>,
    pub publish_at: Option<String>,
    pub created_at: Option<String>,
    pub updated_at: Option<String>,
}

#[derive(Debug)]
pub struct MdChapter {
    pub id: String,
    pub attributes: MdChapterAttrs,
    pub relationships: Vec<MdRel>,
}

/// One page of `/manga`, as the sweeps consume it.
pub struct MangaPage {
    /// Records that parsed. May be shorter than `raw_len`.
    pub mangas: Vec<MdManga>,
    /// `total` for the whole query, as reported by the API.
    pub total: i64,
    /// Records the API returned, before parse-drops. This drives pagination.
    pub raw_len: usize,
    /// Records fetched and then failed to parse.
    pub dropped: u64,
}

/// One page of `/chapter`, as the chapter sweep consumes it.
pub struct ChapterPage {
    pub chapters: Vec<MdChapter>,
    pub total: i64,
    pub raw_len: usize,
    pub dropped: u64,
}

/// One alias of a work: a title and its language tag.
#[derive(Debug, Clone, PartialEq, Eq)]
pub struct Alias {
    pub raw: String,
    pub lang: Option<String>,
}

/// One cover of a work as the catalogue stores it.
#[derive(Debug, Clone, PartialEq, Eq)]
pub struct WorkCover {
    pub file_name: String,
    pub lang: Option<String>,
    pub volume: Option<String>,
    pub is_primary: bool,
}

/// What the catalogue upserts for one MangaDex manga.
#[derive(Debug, Clone, PartialEq, Eq)]
pub struct WorkInput {
    pub primary_title: Option<String>,
    pub primary_lang: Option<String>,
    pub description: Option<String>,
    pub year: Option<i64>,
    pub original_language: Option<String>,
    pub status: Option<String>,
    pub demographic: Option<String>,
    pub content_rating: Option<String>,
    pub is_nsfw: bool,
    pub author: Option<String>,
    pub artist: Option<String>,
    pub cover_phash: Option<String>,
    pub cover_file_name: Option<String>,
    pub aliases: Vec<Alias>,
    pub external_ids: Vec<(String, String)>,
    pub descriptions: Vec<(String, String)>,
    pub credits: Vec<(String, String)>,
    pub covers: Vec<WorkCover>,
}

// ---------------------------------------------------------------------------
// Localized maps
// ---------------------------------------------------------------------------

/// The value of the first entry with key `k`.
pub open spec fn lookup(m: Seq<(Seq<char>, Seq<char>)>, k: Seq<char>) -> Option<Seq<char>>
    decreases m.len(),
{
    if m.len() == 0 {
        None
    } else if m[0].0 == k {
        Some(m[0].1)
    } else {
        lookup(m.drop_first(), k)
    }
}

/// The first entry with a non-empty value.
pub open spec fn first_nonempty(m: Seq<(Seq<char>, Seq<char>)>) -> Option<(Seq<char>, Seq<char>)>
    decreases m.len(),
{
    if m.len() == 0 {
        None
    } else if m[0].1.len() > 0 {
        Some(m[0])
    } else {
        first_nonempty(m.drop_first())
    }
}

pub open spec fn has_nonempty(m: Seq<(Seq<char>, Seq<char>)>, k: Seq<char>) -> bool {
    lookup(m, k) matches Some(v) && v.len() > 0
}

/// English first, then romanized Japanese, then Japanese, then any non-empty entry.
pub open spec fn localized(m: Seq<(Seq<char>, Seq<char>)>) -> Option<(Seq<char>, Seq<char>)> {
    if has_nonempty(m, "en"@) {
        Some(("en"@, lookup(m, "en"@).unwrap()))
    } else if has_nonempty(m, "ja-ro"@) {
        Some(("ja-ro"@, lookup(m, "ja-ro"@).unwrap()))
    } else if has_nonempty(m, "ja"@) {
        Some(("ja"@, lookup(m, "ja"@).unwrap()))
    } else {
        first_nonempty(m)
    }
}

proof fn lemma_lookup_first(m: Seq<(Seq<char>, Seq<char>)>, k: Seq<char>, i: int)
    requires
        0 <= i < m.len(),
        m[i].0 == k,
        forall|j: int| 0 <= j < i ==> m[j].0 != k,
    ensures
        lookup(m, k) == Some(m[i].1),
    decreases i,
{
    if i > 0 {
        assert(m[0].0 != k);
        let t = m.drop_first();
        assert forall|j: int| 0 <= j < i - 1 implies t[j].0 != k by {
            assert(t[j] == m[j + 1]);
        }
        lemma_lookup_first(t, k, i - 1);
    }
}

proof fn lemma_lookup_found(m: Seq<(Seq<char>, Seq<char>)>, k: Seq<char>)
    ensures
        lookup(m, k) matches Some(v) ==> exists|i: int| 0 <= i < m.len() && m[i] == (k, v),
    decreases m.len(),
{
    if m.len() > 0 && m[0].0 != k {
        let t = m.drop_first();
        lemma_lookup_found(t, k);
        match lookup(t, k) {
            Some(v) => {
                let i = choose|i: int| 0 <= i < t.len() && t[i] == (k, v);
                assert(m[i + 1] == (k, v));
            },
            None => {},
        }
    }
}

/// An English entry wins: when the first entry keyed `en` (at `i`) has a non-empty
/// value, the pick is `en` with that value, whatever else the map holds.
pub proof fn lemma_localized_prefers_english(m: Seq<(Seq<char>, Seq<char>)>, i: int)
    requires
        0 <= i < m.len(),
        m[i].0 == "en"@,
        m[i].1.len() > 0,
        forall|j: int| 0 <= j < i ==> m[j].0 != "en"@,
    ensures
        localized(m) == Some(("en"@, m[i].1)),
{
    lemma_lookup_first(m, "en"@, i);
}

/// Without a non-empty English entry, romanized Japanese wins over Japanese: the first
/// entry keyed `ja-ro` (at `i`), when non-empty, is the pick.
pub proof fn lemma_localized_prefers_romanized(m: Seq<(Seq<char>, Seq<char>)>, i: int)
    requires
        0 <= i < m.len(),
        m[i].0 == "ja-ro"@,
        m[i].1.len() > 0,
        forall|j: int| 0 <= j < i ==> m[j].0 != "ja-ro"@,
        forall|j: int| 0 <= j < m.len() && m[j].0 == "en"@ ==> m[j].1.len() == 0,
    ensures
        localized(m) == Some(("ja-ro"@, m[i].1)),
{
    lemma_lookup_first(m, "ja-ro"@, i);
    lemma_lookup_found(m, "en"@);
}

/// Without non-empty English or romanized Japanese entries, the first entry keyed `ja`
/// (at `i`), when non-empty, is the pick.
pub proof fn lemma_localized_then_japanese(m: Seq<(Seq<char>, Seq<char>)>, i: int)
    requires
        0 <= i < m.len(),
        m[i].0 == "ja"@,
        m[i].1.len() > 0,
        forall|j: int| 0 <= j < i ==> m[j].0 != "ja"@,
        forall|j: int| 0 <= j < m.len() && (m[j].0 == "en"@ || m[j].0 == "ja-ro"@) ==> m[j].1.len() == 0,
    ensures
        localized(m) == Some(("ja"@, m[i].1)),
{
    lemma_lookup_first(m, "ja"@, i);
    lemma_lookup_found(m, "en"@);
    lemma_lookup_found(m, "ja-ro"@);
}

/// The value stored under `k`, if any.
pub fn lookup_entry<'a>(m: &'a [(String, String)], k: &str) -> (r: Option<&'a String>)
    ensures
        match (r, lookup(pair_views(m@), k@)) {
            (Some(a), Some(b)) => a@ == b,
            (None, None) => true,
            _ => false,
        },
{
    let ghost v = pair_views(m@);
    let mut i: usize = 0;
    assert(v.skip(0) == v);
    while i < m.len()
        invariant
            i <= m.len(),
            v == pair_views(m@),
            lookup(v, k@) == lookup(v.skip(i as int), k@),
        decreases m.len() - i,
    {
        assert(v.skip(i as int)[0] == (m@[i as int].0@, m@[i as int].1@));
        if str_eq(m[i].0.as_str(), k) {
            return Some(&m[i].1);
        }
        assert(v.skip(i as int).drop_first() == v.skip(i as int + 1));
        i = i + 1;
    }
    None
}

fn nonempty_value(m: &[(String, String)], k: &str) -> (r: Option<String>)
    ensures
        match r {
            Some(v) => has_nonempty(pair_views(m@), k@) && v@ == lookup(pair_views(m@), k@).unwrap(),
            None => !has_nonempty(pair_views(m@), k@),
        },
{
    match lookup_entry(m, k) {
        Some(v) => {
            if !v.as_str().is_empty() {
                Some(v.clone())
            } else {
                None
            }
        },
        None => None,
    }
}

fn first_nonempty_entry(m: &[(String, String)]) -> (r: Option<(String, String)>)
    ensures
        match (r, first_nonempty(pair_views(m@))) {
            (Some(a), Some(b)) => (a.0@, a.1@) == b,
            (None, None) => true,
            _ => false,
        },
{
    let ghost v = pair_views(m@);
    let mut i: usize = 0;
    assert(v.skip(0) == v);
    while i < m.len()
        invariant
            i <= m.len(),
            v == pair_views(m@),
            first_nonempty(v) == first_nonempty(v.skip(i as int)),
        decreases m.len() - i,
    {
        assert(v.skip(i as int)[0] == (m@[i as int].0@, m@[i as int].1@));
        if !m[i].1.as_str().is_empty() {
            return Some((m[i].0.clone(), m[i].1.clone()));
        }
        assert(v.skip(i as int).drop_first() == v.skip(i as int + 1));
        i = i + 1;
    }
    None
}

/// Prefers an English value, then a romanized Japanese one, then a Japanese one, then
/// any non-empty entry. Returns `(language, value)`.
pub fn pick_localized(map: &[(String, String)]) -> (r: (Option<String>, Option<String>))
    ensures
        match localized(pair_views(map@)) {
            Some((k, v)) => opt_string(r.0) == Some(k) && opt_string(r.1) == Some(v),
            None => r.0 is None && r.1 is None,
        },
{
    if let Some(v) = nonempty_value(map, "en") {
        return (Some(string_of("en")), Some(v));
    }
    if let Some(v) = nonempty_value(map, "ja-ro") {
        return (Some(string_of("ja-ro")), Some(v));
    }
    if let Some(v) = nonempty_value(map, "ja") {
        return (Some(string_of("ja")), Some(v));
    }
    match first_nonempty_entry(map) {
        Some((k, v)) => (Some(k), Some(v)),
        None => (None, None),
    }
}

// ---------------------------------------------------------------------------
// Relationships
// ---------------------------------------------------------------------------

/// The first relationship of kind `kind`.
pub open spec fn first_rel(rels: Seq<MdRel>, kind: Seq<char>) -> Option<MdRel>
    decreases rels.len(),
{
    if rels.len() == 0 {
        None
    } else if rels[0].kind@ == kind {
        Some(rels[0])
    } else {
        first_rel(rels.drop_first(), kind)
    }
}

/// The non-empty name on the first relationship of kind `kind`.
pub open spec fn rel_name_of(rels: Seq<MdRel>, kind: Seq<char>) -> Option<Seq<char>> {
    match first_rel(rels, kind) {
        Some(r) => match r.attributes {
            Some(a) => match a.name {
                Some(n) => if n@.len() > 0 { Some(n@) } else { None },
                None => None,
            },
            None => None,
        },
        None => None,
    }
}

/// The non-empty name a relationship carries, if any.
pub open spec fn rel_name_value(r: MdRel) -> Option<Seq<char>> {
    match r.attributes {
        Some(a) => match a.name {
            Some(n) => if n@.len() > 0 { Some(n@) } else { None },
            None => None,
        },
        None => None,
    }
}

/// Every non-empty name of a kind, first occurrence kept, in order.
pub open spec fn rel_names_of(rels: Seq<MdRel>, kind: Seq<char>) -> Seq<Seq<char>>
    decreases rels.len(),
{
    if rels.len() == 0 {
        Seq::<Seq<char>>::empty()
    } else {
        let prev = rel_names_of(rels.drop_last(), kind);
        let r = rels.last();
        if r.kind@ == kind && rel_name_value(r) is Some && !prev.contains(rel_name_value(r)->0) {
            prev.push(rel_name_value(r)->0)
        } else {
            prev
        }
    }
}

/// The cover file name on the first `cover_art` relationship.
pub open spec fn cover_file_name_of(rels: Seq<MdRel>) -> Option<Seq<char>> {
    match first_rel(rels, "cover_art"@) {
        Some(r) => match r.attributes {
            Some(a) => opt_string(a.file_name),
            None => None,
        },
        None => None,
    }
}

fn find_rel<'a>(rels: &'a [MdRel], kind: &str) -> (r: Option<&'a MdRel>)
    ensures
        match (r, first_rel(rels@, kind@)) {
            (Some(a), Some(b)) => *a == b,
            (None, None) => true,
            _ => false,
        },
{
    let mut i: usize = 0;
    assert(rels@.skip(0) == rels@);
    while i < rels.len()
        invariant
            i <= rels.len(),
            first_rel(rels@, kind@) == first_rel(rels@.skip(i as int), kind@),
        decreases rels.len() - i,
    {
        assert(rels@.skip(i as int)[0] == rels@[i as int]);
        if str_eq(rels[i].kind.as_str(), kind) {
            return Some(&rels[i]);
        }
        assert(rels@.skip(i as int).drop_first() == rels@.skip(i as int + 1));
        i = i + 1;
    }
    None
}

/// The non-empty name on the first relationship of kind `kind`.
pub fn rel_name(m: &MdManga, kind: &str) -> (r: Option<String>)
    ensures
        opt_string(r) == rel_name_of(m.relationships@, kind@),
{
    match find_rel(m.relationships.as_slice(), kind) {
        Some(rel) => match &rel.attributes {
            Some(a) => match &a.name {
                Some(n) => if !n.as_str().is_empty() {
                    Some(n.clone())
                } else {
                    None
                },
                None => None,
            },
            None => None,
        },
        None => None,
    }
}

fn contains_string(v: &[String], s: &String) -> (b: bool)
    ensures
        b == v@.map_values(|x: String| x@).contains(s@),
{
    let ghost w = v@.map_values(|x: String| x@);
    let mut i: usize = 0;
    while i < v.len()
        invariant
            i <= v.len(),
            w == v@.map_values(|x: String| x@),
            forall|j: int| 0 <= j < i ==> w[j] != s@,
        decreases v.len() - i,
    {
        if v[i] == *s {
            assert(w[i as int] == s@);
            return true;
        }
        i = i + 1;
    }
    false
}

/// Every relationship name of a kind, de-duplicated in order (the full credit list).
pub fn rel_names(m: &MdManga, kind: &str) -> (r: Vec<String>)
    ensures
        r@.map_values(|x: String| x@) == rel_names_of(m.relationships@, kind@),
{
    let rels = m.relationships.as_slice();
    let mut out: Vec<String> = Vec::new();
    let mut i: usize = 0;
    while i < rels.len()
        invariant
            i <= rels.len(),
            rels@ == m.relationships@,
            out@.map_values(|x: String| x@) == rel_names_of(rels@.take(i as int), kind@),
        decreases rels.len() - i,
    {
        let ghost pre = rels@.take(i as int + 1);
        assert(pre.drop_last() == rels@.take(i as int));
        assert(pre.last() == rels@[i as int]);
        let r = &rels[i];
        if str_eq(r.kind.as_str(), kind) {
            if let Some(a) = &r.attributes {
                if let Some(name) = &a.name {
                    if !name.as_str().is_empty() && !contains_string(out.as_slice(), name) {
                        let ghost before = out@;
                        out.push(name.clone());
                        assert(out@.map_values(|x: String| x@) =~= before.map_values(
                            |x: String| x@,
                        ).push(name@));
                    }
                }
            }
        }
        i = i + 1;
    }
    assert(rels@.take(rels.len() as int) == rels@);
    out
}

/// The cover file name of the first `cover_art` relationship, if expanded.
pub fn cover_file_name(m: &MdManga) -> (r: Option<String>)
    ensures
        opt_string(r) == cover_file_name_of(m.relationships@),
{
    match find_rel(m.relationships.as_slice(), "cover_art") {
        Some(rel) => match &rel.attributes {
            Some(a) => copy_opt_string(&a.file_name),
            None => None,
        },
        None => None,
    }
}

/// The view of one stored cover: file name, language, volume, primary flag.
pub open spec fn cover_view(c: WorkCover) -> (Seq<char>, Option<Seq<char>>, Option<Seq<char>>, bool) {
    (c.file_name@, opt_string(c.lang), opt_string(c.volume), c.is_primary)
}

/// Every `cover_art` relationship with a non-empty file name, the first marked primary.
pub open spec fn relationship_covers_of(rels: Seq<MdRel>) -> Seq<
    (Seq<char>, Option<Seq<char>>, Option<Seq<char>>, bool),
>
    decreases rels.len(),
{
    if rels.len() == 0 {
        Seq::empty()
    } else {
        let prev = relationship_covers_of(rels.drop_last());
        let r = rels.last();
        if r.kind@ == "cover_art"@ && r.attributes is Some && r.attributes->0.file_name is Some
            && r.attributes->0.file_name->0@.len() > 0 {
            let a = r.attributes->0;
            prev.push((a.file_name->0@, opt_string(a.locale), opt_string(a.volume), prev.len() == 0))
        } else {
            prev
        }
    }
}

/// Every `cover_art` relationship on a manga, as stored covers; the first is primary.
pub fn relationship_covers(m: &MdManga) -> (r: Vec<WorkCover>)
    ensures
        r@.map_values(|c: WorkCover| cover_view(c)) == relationship_covers_of(m.relationships@),
{
    let rels = m.relationships.as_slice();
    let mut out: Vec<WorkCover> = Vec::new();
    let mut i: usize = 0;
    while i < rels.len()
        invariant
            i <= rels.len(),
            rels@ == m.relationships@,
            out@.map_values(|c: WorkCover| cover_view(c)) == relationship_covers_of(
                rels@.take(i as int),
            ),
        decreases rels.len() - i,
    {
        let ghost pre = rels@.take(i as int + 1);
        assert(pre.drop_last() == rels@.take(i as int));
        assert(pre.last() == rels@[i as int]);
        let r = &rels[i];
        if str_eq(r.kind.as_str(), "cover_art") {
            if let Some(a) = &r.attributes {
                if let Some(fname) = &a.file_name {
                    if !fname.as_str().is_empty() {
                        let ghost before = out@;
                        let primary = out.len() == 0;
                        out.push(
                            WorkCover {
                                file_name: fname.clone(),
                                lang: copy_opt_string(&a.locale),
                                volume: copy_opt_string(&a.volume),
                                is_primary: primary,
                            },
                        );
                        assert(out@.map_values(|c: WorkCover| cover_view(c)) =~= before.map_values(
                            |c: WorkCover| cover_view(c),
                        ).push((fname@, opt_string(a.locale), opt_string(a.volume), primary)));
                    }
                }
            }
        }
        i = i + 1;
    }
    assert(rels@.take(rels.len() as int) == rels@);
    out
}

/// The stored covers for a `/cover` fetch: each entry is primary when its file name is
/// `primary_file_name`; when none is, the first is.
pub open spec fn covers_from_fetch_of(
    fetched: Seq<(Seq<char>, Option<Seq<char>>, Option<Seq<char>>)>,
    primary: Option<Seq<char>>,
) -> Seq<(Seq<char>, Option<Seq<char>>, Option<Seq<char>>, bool)> {
    let marked = fetched.map_values(
        |f: (Seq<char>, Option<Seq<char>>, Option<Seq<char>>)| (f.0, f.1, f.2, primary == Some(f.0)),
    );
    if marked.len() > 0 && !(exists|i: int| 0 <= i < marked.len() && (#[trigger] marked[i]).3) {
        marked.update(0, (marked[0].0, marked[0].1, marked[0].2, true))
    } else {
        marked
    }
}

pub open spec fn fetched_view(f: (String, Option<String>, Option<String>)) -> (
    Seq<char>,
    Option<Seq<char>>,
    Option<Seq<char>>,
) {
    (f.0@, opt_string(f.1), opt_string(f.2))
}

/// Builds the full cover set for a work from a `/cover` fetch, marking the one matching
/// `primary_file_name` as primary (falling back to the first).
pub fn covers_from_fetch(
    fetched: Vec<(String, Option<String>, Option<String>)>,
    primary_file_name: Option<&str>,
) -> (r: Vec<WorkCover>)
    ensures
        r@.map_values(|c: WorkCover| cover_view(c)) == covers_from_fetch_of(
            fetched@.map_values(|f: (String, Option<String>, Option<String>)| fetched_view(f)),
            match primary_file_name { Some(p) => Some(p@), None => None },
        ),
{
    let ghost fv = fetched@.map_values(|f: (String, Option<String>, Option<String>)| fetched_view(f));
    let ghost pv = match primary_file_name { Some(p) => Some(p@), None => None };
    let ghost marked = fv.map_values(
        |f: (Seq<char>, Option<Seq<char>>, Option<Seq<char>>)| (f.0, f.1, f.2, pv == Some(f.0)),
    );
    let mut out: Vec<WorkCover> = Vec::new();
    let mut any = false;
    let mut i: usize = 0;
    while i < fetched.len()
        invariant
            i <= fetched.len(),
            fv == fetched@.map_values(|f: (String, Option<String>, Option<String>)| fetched_view(f)),
            pv == match primary_file_name { Some(p) => Some(p@), None => None },
            marked == fv.map_values(
                |f: (Seq<char>, Option<Seq<char>>, Option<Seq<char>>)| (f.0, f.1, f.2, pv == Some(f.0)),
            ),
            out@.map_values(|c: WorkCover| cover_view(c)) == marked.take(i as int),
            any == exists|j: int| 0 <= j < i && (#[trigger] marked[j]).3,
        decreases fetched.len() - i,
    {
        let f = &fetched[i];
        let is_primary = match primary_file_name {
            Some(p) => str_eq(p, f.0.as_str()),
            None => false,
        };
        assert(fv[i as int] == fetched_view(*f));
        assert(is_primary == marked[i as int].3);
        let ghost before = out@;
        let c = WorkCover {
            file_name: f.0.clone(),
            lang: copy_opt_string(&f.1),
            volume: copy_opt_string(&f.2),
            is_primary,
        };
        assert(cover_view(c) == marked[i as int]);
        out.push(c);
        assert(marked.take(i as int + 1) == marked.take(i as int).push(marked[i as int]));
        assert(out@.map_values(|c: WorkCover| cover_view(c)) =~= marked.take(i as int + 1));
        if is_primary {
            any = true;
        }
        i = i + 1;
    }
    assert(marked.take(fetched.len() as int) == marked);
    if !any && out.len() > 0 {
        let first = out.remove(0);
        let ghost rest = out@;
        out.insert(
            0,
            WorkCover {
                file_name: first.file_name,
                lang: first.lang,
                volume: first.volume,
                is_primary: true,
            },
        );
        assert(out@.map_values(|c: WorkCover| cover_view(c)) =~= marked.update(
            0,
            (marked[0].0, marked[0].1, marked[0].2, true),
        ));
    }
    out
}

/// A non-empty fetch always yields a primary cover.
pub proof fn lemma_fetch_marks_a_primary(
    fetched: Seq<(Seq<char>, Option<Seq<char>>, Option<Seq<char>>)>,
    primary: Option<Seq<char>>,
)
    requires
        fetched.len() > 0,
    ensures
        exists|i: int| 0 <= i < fetched.len() && (#[trigger] covers_from_fetch_of(fetched, primary)[i]).3,
{
    let marked = fetched.map_values(
        |f: (Seq<char>, Option<Seq<char>>, Option<Seq<char>>)| (f.0, f.1, f.2, primary == Some(f.0)),
    );
    if exists|i: int| 0 <= i < marked.len() && (#[trigger] marked[i]).3 {
        let i = choose|i: int| 0 <= i < marked.len() && (#[trigger] marked[i]).3;
        assert(covers_from_fetch_of(fetched, primary)[i].3);
    } else {
        assert(covers_from_fetch_of(fetched, primary)[0].3);
    }
}

// ---------------------------------------------------------------------------
// Status, windows, chapters
// ---------------------------------------------------------------------------

pub open spec fn map_status_of(s: Option<Seq<char>>) -> Option<Seq<char>> {
    match s {
        Some(v) => if v == "ongoing"@ {
            Some("ONGOING"@)
        } else if v == "completed"@ {
            Some("COMPLETED"@)
        } else if v == "hiatus"@ {
            Some("HIATUS"@)
        } else if v == "cancelled"@ {
            Some("CANCELLED"@)
        } else {
            None
        },
        None => None,
    }
}

/// Maps a MangaDex status onto the stored status word.
pub fn map_status(s: Option<&str>) -> (r: Option<String>)
    ensures
        opt_string(r) == map_status_of(match s { Some(v) => Some(v@), None => None }),
{
    match s {
        Some(v) => {
            if str_eq(v, "ongoing") {
                Some(string_of("ONGOING"))
            } else if str_eq(v, "completed") {
                Some(string_of("COMPLETED"))
            } else if str_eq(v, "hiatus") {
                Some(string_of("HIATUS"))
            } else if str_eq(v, "cancelled") {
                Some(string_of("CANCELLED"))
            } else {
                None
            }
        },
        None => None,
    }
}

/// The timestamp a manga sweep slides its window on.
pub fn manga_window_ts(m: &MdManga, window: SyncWindow) -> (r: Option<String>)
    ensures
        r == (if window == SyncWindow::Created {
            m.attributes.created_at
        } else {
            m.attributes.updated_at
        }),
{
    match window {
        SyncWindow::Created => copy_opt_string(&m.attributes.created_at),
        SyncWindow::Updated => copy_opt_string(&m.attributes.updated_at),
    }
}

/// The timestamp a chapter sweep slides its window on.
pub fn chapter_window_ts(c: &MdChapter, window: SyncWindow) -> (r: Option<String>)
    ensures
        r == (if window == SyncWindow::Created {
            c.attributes.created_at
        } else {
            c.attributes.updated_at
        }),
{
    match window {
        SyncWindow::Created => copy_opt_string(&c.attributes.created_at),
        SyncWindow::Updated => copy_opt_string(&c.attributes.updated_at),
    }
}

/// Whether the firehose mirrors a chapter: only English translations are kept.
pub fn is_english_chapter(c: &MdChapter) -> (b: bool)
    ensures
        b == (c.attributes.translated_language matches Some(l) && l@ == "en"@),
{
    match &c.attributes.translated_language {
        Some(l) => crate::text::str_eq(l.as_str(), "en"),
        None => false,
    }
}

/// The `manga` relationship id on a chapter (which work it belongs to).
pub fn chapter_manga_id(c: &MdChapter) -> (r: Option<String>)
    ensures
        match first_rel(c.relationships@, "manga"@) {
            Some(rel) => r == Some(rel.id),
            None => r is None,
        },
{
    match find_rel(c.relationships.as_slice(), "manga") {
        Some(rel) => Some(rel.id.clone()),
        None => None,
    }
}

// ---------------------------------------------------------------------------
// Mapping a manga onto the canonical work input
// ---------------------------------------------------------------------------

pub open spec fn swap_entry(e: (Seq<char>, Seq<char>)) -> (Seq<char>, Option<Seq<char>>) {
    (e.1, Some(e.0))
}

/// The aliases of every `altTitles` entry, in order: `(title, Some(language))`.
pub open spec fn alt_aliases(alts: Seq<Seq<(Seq<char>, Seq<char>)>>) -> Seq<(Seq<char>, Option<Seq<char>>)>
    decreases alts.len(),
{
    if alts.len() == 0 {
        Seq::empty()
    } else {
        alt_aliases(alts.drop_last()) + alts.last().map_values(
            |e: (Seq<char>, Seq<char>)| swap_entry(e),
        )
    }
}

/// Every localized primary title, then every `altTitles` entry.
pub open spec fn aliases_of(
    title: Seq<(Seq<char>, Seq<char>)>,
    alts: Seq<Seq<(Seq<char>, Seq<char>)>>,
) -> Seq<(Seq<char>, Option<Seq<char>>)> {
    title.map_values(|e: (Seq<char>, Seq<char>)| swap_entry(e)) + alt_aliases(alts)
}

pub open spec fn alias_view(a: Alias) -> (Seq<char>, Option<Seq<char>>) {
    (a.raw@, opt_string(a.lang))
}

/// The external-link keys copied onto the work, in order.
pub open spec fn link_keys() -> Seq<Seq<char>> {
    seq!["al"@, "mal"@, "mu"@, "kt"@, "ap"@]
}

/// `(key, value)` for each of `keys` that `links` holds with a non-empty value.
pub open spec fn external_ids_of(links: Seq<(Seq<char>, Seq<char>)>, keys: Seq<Seq<char>>) -> Seq<
    (Seq<char>, Seq<char>),
>
    decreases keys.len(),
{
    if keys.len() == 0 {
        Seq::empty()
    } else {
        let prev = external_ids_of(links, keys.drop_last());
        if has_nonempty(links, keys.last()) {
            prev.push((keys.last(), lookup(links, keys.last()).unwrap()))
        } else {
            prev
        }
    }
}

/// The entries of `m` with a non-empty value, in order.
pub open spec fn nonempty_entries(m: Seq<(Seq<char>, Seq<char>)>) -> Seq<(Seq<char>, Seq<char>)>
    decreases m.len(),
{
    if m.len() == 0 {
        Seq::empty()
    } else if m.last().1.len() > 0 {
        nonempty_entries(m.drop_last()).push(m.last())
    } else {
        nonempty_entries(m.drop_last())
    }
}

/// The full credit list: every author, then every artist.
pub open spec fn credits_of(rels: Seq<MdRel>) -> Seq<(Seq<char>, Seq<char>)> {
    rel_names_of(rels, "author"@).map_values(|n: Seq<char>| ("author"@, n)) + rel_names_of(
        rels,
        "artist"@,
    ).map_values(|n: Seq<char>| ("artist"@, n))
}

pub open spec fn nsfw_rating(r: Option<Seq<char>>) -> bool {
    r == Some("erotica"@) || r == Some("pornographic"@)
}

pub open spec fn localized_lang(m: Seq<(Seq<char>, Seq<char>)>) -> Option<Seq<char>> {
    match localized(m) {
        Some((k, _)) => Some(k),
        None => None,
    }
}

pub open spec fn localized_value(m: Seq<(Seq<char>, Seq<char>)>) -> Option<Seq<char>> {
    match localized(m) {
        Some((_, v)) => Some(v),
        None => None,
    }
}

fn swapped_aliases(m: &[(String, String)], out: &mut Vec<Alias>)
    ensures
        final(out)@.map_values(|a: Alias| alias_view(a)) == old(out)@.map_values(
            |a: Alias| alias_view(a),
        ) + pair_views(m@).map_values(|e: (Seq<char>, Seq<char>)| swap_entry(e)),
{
    let ghost start = out@.map_values(|a: Alias| alias_view(a));
    let ghost mv = pair_views(m@).map_values(|e: (Seq<char>, Seq<char>)| swap_entry(e));
    let mut i: usize = 0;
    while i < m.len()
        invariant
            i <= m.len(),
            mv == pair_views(m@).map_values(|e: (Seq<char>, Seq<char>)| swap_entry(e)),
            out@.map_values(|a: Alias| alias_view(a)) == start + mv.take(i as int),
        decreases m.len() - i,
    {
        let ghost before = out@;
        let a = Alias { raw: m[i].1.clone(), lang: Some(m[i].0.clone()) };
        assert(alias_view(a) == mv[i as int]);
        out.push(a);
        assert(mv.take(i as int + 1) == mv.take(i as int).push(mv[i as int]));
        assert(out@.map_values(|a: Alias| alias_view(a)) =~= before.map_values(
            |a: Alias| alias_view(a),
        ).push(alias_view(a)));
        i = i + 1;
    }
    assert(mv.take(m.len() as int) == mv);
}

fn nonempty_pairs(m: &[(String, String)]) -> (r: Vec<(String, String)>)
    ensures
        pair_views(r@) == nonempty_entries(pair_views(m@)),
{
    let ghost mv = pair_views(m@);
    let mut out: Vec<(String, String)> = Vec::new();
    let mut i: usize = 0;
    while i < m.len()
        invariant
            i <= m.len(),
            mv == pair_views(m@),
            pair_views(out@) == nonempty_entries(mv.take(i as int)),
        decreases m.len() - i,
    {
        let ghost pre = mv.take(i as int + 1);
        assert(pre.drop_last() == mv.take(i as int));
        assert(pre.last() == (m@[i as int].0@, m@[i as int].1@));
        if !m[i].1.as_str().is_empty() {
            let ghost before = out@;
            out.push((m[i].0.clone(), m[i].1.clone()));
            assert(pair_views(out@) =~= pair_views(before).push(pre.last()));
        }
        i = i + 1;
    }
    assert(mv.take(m.len() as int) == mv);
    out
}

fn role_credits(m: &MdManga, role: &str, out: &mut Vec<(String, String)>)
    ensures
        pair_views(final(out)@) == pair_views(old(out)@) + rel_names_of(m.relationships@, role@).map_values(
            |n: Seq<char>| (role@, n),
        ),
{
    let names = rel_names(m, role);
    let ghost start = pair_views(out@);
    let ghost nv = rel_names_of(m.relationships@, role@).map_values(|n: Seq<char>| (role@, n));
    let mut i: usize = 0;
    while i < names.len()
        invariant
            i <= names.len(),
            names@.map_values(|x: String| x@) == rel_names_of(m.relationships@, role@),
            nv == rel_names_of(m.relationships@, role@).map_values(|n: Seq<char>| (role@, n)),
            pair_views(out@) == start + nv.take(i as int),
        decreases names.len() - i,
    {
        let ghost before = out@;
        assert(names@.map_values(|x: String| x@)[i as int] == names@[i as int]@);
        out.push((string_of(role), names[i].clone()));
        assert(nv.take(i as int + 1) == nv.take(i as int).push(nv[i as int]));
        assert(pair_views(out@) =~= pair_views(before).push(nv[i as int]));
        i = i + 1;
    }
    assert(nv.take(names.len() as int) == nv);
}

/// Maps a MangaDex manga to `(mangadex_id, WorkInput)` for the canonical spine.
pub fn to_work_input(m: &MdManga) -> (r: (String, WorkInput))
    ensures
        r.0@ == m.id@,
        opt_string(r.1.primary_lang) == localized_lang(pair_views(m.attributes.title@)),
        opt_string(r.1.primary_title) == localized_value(pair_views(m.attributes.title@)),
        opt_string(r.1.description) == localized_value(pair_views(m.attributes.description@)),
        r.1.year == m.attributes.year,
        r.1.original_language == m.attributes.original_language,
        opt_string(r.1.status) == map_status_of(opt_string(m.attributes.status)),
        r.1.demographic == m.attributes.publication_demographic,
        r.1.content_rating == m.attributes.content_rating,
        r.1.is_nsfw == nsfw_rating(opt_string(m.attributes.content_rating)),
        opt_string(r.1.author) == rel_name_of(m.relationships@, "author"@),
        opt_string(r.1.artist) == rel_name_of(m.relationships@, "artist"@),
        r.1.cover_phash is None,
        opt_string(r.1.cover_file_name) == cover_file_name_of(m.relationships@),
        r.1.aliases@.map_values(|a: Alias| alias_view(a)) == aliases_of(
            pair_views(m.attributes.title@),
            m.attributes.alt_titles@.map_values(|v: Vec<(String, String)>| pair_views(v@)),
        ),
        pair_views(r.1.external_ids@) == external_ids_of(pair_views(m.attributes.links@), link_keys()),
        pairs_sorted(pair_views(r.1.descriptions@)),
        pair_views(r.1.descriptions@).to_multiset() == nonempty_entries(
            pair_views(m.attributes.description@),
        ).to_multiset(),
        pair_views(r.1.credits@) == credits_of(m.relationships@),
        r.1.covers@.map_values(|c: WorkCover| cover_view(c)) == relationship_covers_of(
            m.relationships@,
        ),
{
    let a = &m.attributes;
    let (primary_lang, primary_title) = pick_localized(a.title.as_slice());
    let description = pick_localized(a.description.as_slice()).1;

    // Aliases: every localized primary title + every altTitle entry.
    let mut aliases: Vec<Alias> = Vec::new();
    swapped_aliases(a.title.as_slice(), &mut aliases);
    let ghost alts = a.alt_titles@.map_values(|v: Vec<(String, String)>| pair_views(v@));
    let ghost tv = pair_views(a.title@).map_values(|e: (Seq<char>, Seq<char>)| swap_entry(e));
    let mut j: usize = 0;
    while j < a.alt_titles.len()
        invariant
            j <= a.alt_titles.len(),
            alts == a.alt_titles@.map_values(|v: Vec<(String, String)>| pair_views(v@)),
            tv == pair_views(a.title@).map_values(|e: (Seq<char>, Seq<char>)| swap_entry(e)),
            aliases@.map_values(|x: Alias| alias_view(x)) == tv + alt_aliases(alts.take(j as int)),
        decreases a.alt_titles.len() - j,
    {
        let ghost pre = alts.take(j as int + 1);
        assert(pre.drop_last() == alts.take(j as int));
        assert(pre.last() == pair_views(a.alt_titles@[j as int]@));
        swapped_aliases(a.alt_titles[j].as_slice(), &mut aliases);
        j = j + 1;
    }
    assert(alts.take(a.alt_titles.len() as int) == alts);

    // External ids, in key order.
    let keys = vec!["al", "mal", "mu", "kt", "ap"];
    let ghost kv = keys@.map_values(|k: &str| k@);
    assert(kv =~= link_keys());
    let mut external_ids: Vec<(String, String)> = Vec::new();
    let mut k: usize = 0;
    while k < keys.len()
        invariant
            k <= keys.len(),
            keys@.len() == 5,
            kv == keys@.map_values(|k: &str| k@),
            pair_views(external_ids@) == external_ids_of(pair_views(a.links@), kv.take(k as int)),
        decreases keys.len() - k,
    {
        let ghost pre = kv.take(k as int + 1);
        assert(pre.drop_last() == kv.take(k as int));
        assert(pre.last() == keys@[k as int]@);
        if let Some(v) = nonempty_value(a.links.as_slice(), keys[k]) {
            let ghost before = external_ids@;
            external_ids.push((string_of(keys[k]), v));
            assert(pair_views(external_ids@) =~= pair_views(before).push(
                (keys@[k as int]@, lookup(pair_views(a.links@), keys@[k as int]@).unwrap()),
            ));
        }
        k = k + 1;
    }
    assert(kv.take(5) == kv);

    let content_rating = copy_opt_string(&a.content_rating);
    let is_nsfw = match &a.content_rating {
        Some(c) => str_eq(c.as_str(), "erotica") || str_eq(c.as_str(), "pornographic"),
        None => false,
    };

    let nonempty = nonempty_pairs(a.description.as_slice());
    let descriptions = sort_pairs(nonempty.as_slice());
    let mut credits: Vec<(String, String)> = Vec::new();
    role_credits(m, "author", &mut credits);
    role_credits(m, "artist", &mut credits);

    let status = match &a.status {
        Some(s) => map_status(Some(s.as_str())),
        None => map_status(None),
    };
    (
        m.id.clone(),
        WorkInput {
            primary_title,
            primary_lang,
            description,
            year: a.year,
            original_language: copy_opt_string(&a.original_language),
            status,
            demographic: copy_opt_string(&a.publication_demographic),
            content_rating,
            is_nsfw,
            author: rel_name(m, "author"),
            artist: rel_name(m, "artist"),
            cover_phash: None,
            cover_file_name: cover_file_name(m),
            aliases,
            external_ids,
            descriptions,
            credits,
            covers: relationship_covers(m),
        },
    )
}

} // verus!
