//! Retiring the `all.mangadex` Suwayomi extension: the rules that decide, row by row,
//! whether an `all.mangadex` `source_series` row is provably redundant with a direct
//! MangaDex anchor, and the bookkeeping built on that verdict.
//!
//! The safety property is UUID-level: a row is deletable only when its MangaDex UUID
//! equals the `source_key` of a direct anchor on the same (redirect-resolved) work.
use vstd::prelude::*;
use crate::text::{
    lemma_lt_asymmetric, lemma_lt_irreflexive, lemma_lt_total, lemma_lt_transitive, seq_lt, str_less,
    pair_views,
    push_char,
    copy_opt_string,
    all_hex, are_hex, ascii_lower, char_vecs_are, chars_of, has_prefix, lower_ascii, push_str,
    slice_chars, split_chars, split_on, starts_with_chars, str_eq, string_from_chars, string_of,
};
use crate::unicode::{trimmed, trim_chars, trim_str};

verus! {

/// The Suwayomi extension package that backs every `all.mangadex` source id.
pub const ALL_MANGADEX_PKG: &'static str = "eu.kanade.tachiyomi.extension.all.mangadex";

/// The one source id that actually carries `source_series` rows.
pub const PRIMARY_SOURCE_ID: &'static str = "2499283573021220255";

/// Extra confirmation required before the delete writes anything.
pub const DELETE_CONFIRM_TOKEN: &'static str = "yes-delete-all-mangadex-rows";

/// Whether a step writes. `No` is the default everywhere.
#[derive(Debug, Clone, Copy, PartialEq, Eq, Structural)]
pub enum Apply {
    No,
    Yes,
}

impl Apply {
    pub fn is_yes(self) -> (r: bool)
        ensures
            r == (self == Apply::Yes),
    {
        match self {
            Apply::Yes => true,
            Apply::No => false,
        }
    }

    pub fn label(self) -> (r: &'static str)
        ensures
            r@ == (if self == Apply::No { "DRY-RUN"@ } else { "APPLY"@ }),
    {
        match self {
            Apply::No => "DRY-RUN",
            Apply::Yes => "APPLY",
        }
    }
}

/// The SQL expression that resolves work id column `col` through `work_redirect`.
pub open spec fn resolved_sql(col: Seq<char>) -> Seq<char> {
    "COALESCE((SELECT r.new_id FROM work_redirect r WHERE r.old_id = "@ + col + "), "@ + col
        + ")"@
}

/// SQL that resolves a work id through `work_redirect` to its survivor.
pub fn resolved(col: &str) -> (r: String)
    ensures
        r@ == resolved_sql(col@),
{
    let mut r = string_of("COALESCE((SELECT r.new_id FROM work_redirect r WHERE r.old_id = ");
    push_str(&mut r, col);
    push_str(&mut r, "), ");
    push_str(&mut r, col);
    push_str(&mut r, ")");
    r
}

// ---------------------------------------------------------------------------
// UUIDs
// ---------------------------------------------------------------------------

/// The lengths of the five dash-separated groups of a UUID.
pub open spec fn uuid_group_len(i: int) -> nat {
    if i == 4 { 12 } else if i == 0 { 8 } else { 4 }
}

/// An 8-4-4-4-12 hex UUID (either case).
pub open spec fn is_uuid_text(s: Seq<char>) -> bool {
    let parts = split_on(s, '-');
    &&& parts.len() == 5
    &&& forall|i: int| 0 <= i < 5 ==> (#[trigger] parts[i]).len() == uuid_group_len(i)
        && all_hex(parts[i])
}

/// Whether `s` is an 8-4-4-4-12 hex UUID.
pub fn is_uuid(s: &str) -> (r: bool)
    ensures
        r == is_uuid_text(s@),
{
    let cs = chars_of(s);
    is_uuid_chars(cs.as_slice())
}

fn is_uuid_chars(cs: &[char]) -> (r: bool)
    ensures
        r == is_uuid_text(cs@),
{
    let parts = split_chars(cs, '-');
    if parts.len() != 5 {
        return false;
    }
    let mut i: usize = 0;
    while i < 5
        invariant
            i <= 5,
            char_vecs_are(parts@, split_on(cs@, '-')),
            parts@.len() == 5,
            forall|j: int| 0 <= j < i ==> (#[trigger] split_on(cs@, '-')[j]).len()
                == uuid_group_len(j) && all_hex(split_on(cs@, '-')[j]),
        decreases 5 - i,
    {
        let want: usize = if i == 4 { 12 } else if i == 0 { 8 } else { 4 };
        let p = &parts[i];
        assert(p@ == split_on(cs@, '-')[i as int]);
        if p.len() != want || !are_hex(p.as_slice()) {
            return false;
        }
        i = i + 1;
    }
    true
}

pub open spec fn url_stop(c: char) -> bool {
    c == '/' || c == '?' || c == '#'
}

/// The text before the first `/`, `?` or `#`.
pub open spec fn first_segment(s: Seq<char>) -> Seq<char>
    decreases s.len(),
{
    if s.len() == 0 || url_stop(s[0]) {
        Seq::<char>::empty()
    } else {
        seq![s[0]] + first_segment(s.drop_first())
    }
}

pub open spec fn manga_prefix() -> Seq<char> {
    seq!['/', 'm', 'a', 'n', 'g', 'a', '/']
}

/// The MangaDex UUID named by a Suwayomi `MangaType.url`, lowercased.
pub open spec fn manga_url_uuid(url: Seq<char>) -> Option<Seq<char>> {
    let t = trimmed(url);
    if has_prefix(t, manga_prefix()) {
        let u = ascii_lower(trimmed(first_segment(t.skip(7))));
        if is_uuid_text(u) {
            Some(u)
        } else {
            None
        }
    } else {
        None
    }
}

fn first_segment_chars(cs: &[char], from: usize) -> (r: Vec<char>)
    requires
        from <= cs.len(),
    ensures
        r@ == first_segment(cs@.skip(from as int)),
{
    let mut i: usize = from;
    while i < cs.len() && !(cs[i] == '/' || cs[i] == '?' || cs[i] == '#')
        invariant
            from <= i <= cs.len(),
            forall|j: int| from <= j < i ==> !url_stop(#[trigger] cs@[j]),
        decreases cs.len() - i,
    {
        i = i + 1;
    }
    proof {
        lemma_first_segment_upto(cs@, from as int, i as int);
    }
    slice_chars(cs, from, i)
}

proof fn lemma_first_segment_upto(s: Seq<char>, from: int, i: int)
    requires
        0 <= from <= i <= s.len(),
        forall|j: int| from <= j < i ==> !url_stop(#[trigger] s[j]),
        i == s.len() || url_stop(s[i]),
    ensures
        first_segment(s.skip(from)) == s.subrange(from, i),
    decreases i - from,
{
    if from < i {
        assert(s.skip(from).drop_first() == s.skip(from + 1));
        lemma_first_segment_upto(s, from + 1, i);
        assert(s.subrange(from, i) == seq![s[from]] + s.subrange(from + 1, i));
    } else {
        assert(s.subrange(from, i).len() == 0);
    }
}

/// Parses the MangaDex UUID out of Suwayomi's `MangaType.url` (`/manga/<uuid>`).
/// Anything that is not exactly an 8-4-4-4-12 hex UUID is rejected; the UUID comes
/// back lowercased.
pub fn uuid_from_manga_url(url: &str) -> (r: Option<String>)
    ensures
        match (r, manga_url_uuid(url@)) {
            (Some(a), Some(b)) => a@ == b,
            (None, None) => true,
            _ => false,
        },
{
    let t = trim_str(url);
    let pre = vec!['/', 'm', 'a', 'n', 'g', 'a', '/'];
    assert(pre@ == manga_prefix());
    if !starts_with_chars(t.as_slice(), pre.as_slice()) {
        return None;
    }
    let seg = first_segment_chars(t.as_slice(), 7);
    let seg = trim_chars(seg.as_slice());
    let low = lower_ascii(seg.as_slice());
    if is_uuid_chars(low.as_slice()) {
        Some(string_from_chars(low.as_slice()))
    } else {
        None
    }
}

/// Whether an extension package is retired from enrolment altogether.
pub fn is_retired_pkg(pkg: &str) -> (r: bool)
    ensures
        r == (pkg@ == ALL_MANGADEX_PKG@),
{
    str_eq(pkg, ALL_MANGADEX_PKG)
}

// ---------------------------------------------------------------------------
// Step 1: recording every row's UUID
// ---------------------------------------------------------------------------

/// What recording the UUIDs found.
#[derive(Debug, Default, Clone, PartialEq, Eq)]
pub struct UuidReport {
    /// all.mangadex `source_series` rows seen.
    pub rows: u64,
    /// Rows for which a valid UUID was obtained.
    pub resolved: u64,
    /// Rows whose manga was not in the map, or whose url did not parse: such a row can
    /// never pass the redundancy check.
    pub unresolved: Vec<String>,
    /// Rows whose new UUID disagrees with the one already recorded:
    /// `(source_series_id, recorded, new)`. Never overwritten.
    pub conflicts: Vec<(String, String, String)>,
}

/// The UUID of a row whose Suwayomi manga has this url (if it is in the map at all).
pub fn row_uuid(url: Option<&str>) -> (r: Option<String>)
    ensures
        match url {
            Some(u) => match (r, manga_url_uuid(u@)) {
                (Some(a), Some(b)) => a@ == b,
                (None, None) => true,
                _ => false,
            },
            None => r is None,
        },
{
    match url {
        Some(u) => uuid_from_manga_url(u),
        None => None,
    }
}

pub open spec fn triple_views(v: Seq<(String, String, String)>) -> Seq<(Seq<char>, Seq<char>, Seq<char>)> {
    v.map_values(|t: (String, String, String)| (t.0@, t.1@, t.2@))
}

pub open spec fn str_seq(v: Seq<String>) -> Seq<Seq<char>> {
    v.map_values(|s: String| s@)
}

/// Folds one row into the report: no UUID makes it unresolved; a UUID that disagrees
/// with the recorded one is a conflict; otherwise it is resolved, and written when the
/// step applies. Returns whether the row's UUID is to be written.
pub fn settle_uuid_row(
    report: &mut UuidReport,
    source_series_id: &str,
    uuid: Option<String>,
    recorded: Option<String>,
    apply: Apply,
) -> (write: bool)
    requires
        old(report).resolved < u64::MAX,
    ensures
        final(report).rows == old(report).rows,
        match uuid {
            None => {
                &&& str_seq(final(report).unresolved@) == str_seq(old(report).unresolved@).push(source_series_id@)
                &&& final(report).resolved == old(report).resolved
                &&& triple_views(final(report).conflicts@) == triple_views(old(report).conflicts@)
                &&& !write
            },
            Some(u) => match recorded {
                Some(p) if p@ != u@ => {
                    &&& triple_views(final(report).conflicts@) == triple_views(old(report).conflicts@).push((source_series_id@, p@, u@))
                    &&& final(report).resolved == old(report).resolved
                    &&& str_seq(final(report).unresolved@) == str_seq(old(report).unresolved@)
                    &&& !write
                },
                _ => {
                    &&& final(report).resolved == old(report).resolved + 1
                    &&& str_seq(final(report).unresolved@) == str_seq(old(report).unresolved@)
                    &&& triple_views(final(report).conflicts@) == triple_views(old(report).conflicts@)
                    &&& write == (apply == Apply::Yes)
                },
            },
        },
{
    match uuid {
        None => {
            let ghost old_u = report.unresolved@;
            report.unresolved.push(string_of(source_series_id));
            assert(str_seq(report.unresolved@) =~= str_seq(old_u).push(source_series_id@));
            false
        },
        Some(u) => {
            if let Some(p) = recorded {
                if !str_eq(p.as_str(), u.as_str()) {
                    let ghost old_c = report.conflicts@;
                    let ghost pv = p@;
                    let ghost uv = u@;
                    report.conflicts.push((string_of(source_series_id), p, u));
                    assert(triple_views(report.conflicts@) =~= triple_views(old_c).push((source_series_id@, pv, uv)));
                    return false;
                }
            }
            report.resolved = report.resolved + 1;
            apply.is_yes()
        },
    }
}

/// `/manga/{uuid}`, the row's own `source_url` once its UUID is known.
pub fn manga_path(uuid: &str) -> (r: String)
    ensures
        r@ == "/manga/"@ + uuid@,
{
    let mut r = string_of("/manga/");
    push_str(&mut r, uuid);
    r
}

// ---------------------------------------------------------------------------
// Classification
// ---------------------------------------------------------------------------

/// What may be done with one all.mangadex row.
#[derive(Debug, Clone, Copy, PartialEq, Eq, Structural)]
pub enum Verdict {
    /// The row's UUID is a direct anchor on the same work: deletable.
    Redundant,
    /// The work has a direct anchor, but for a different MangaDex entry: never deletable.
    Mismatch,
    /// The work has no direct anchor at all.
    Anchorless,
    /// No UUID could be resolved for the row, so nothing about it can be proven.
    Unresolved,
}

impl Verdict {
    pub fn as_str(self) -> (r: &'static str)
        ensures
            r@ == match self {
                Verdict::Redundant => "redundant"@,
                Verdict::Mismatch => "mismatch"@,
                Verdict::Anchorless => "anchorless"@,
                Verdict::Unresolved => "unresolved"@,
            },
    {
        match self {
            Verdict::Redundant => "redundant",
            Verdict::Mismatch => "mismatch",
            Verdict::Anchorless => "anchorless",
            Verdict::Unresolved => "unresolved",
        }
    }
}

/// The classification rule: the UUID match is checked before the anchor count.
pub open spec fn verdict_rule(has_uuid: bool, anchor_count: int, uuid_matches_anchor: bool) -> Verdict {
    if !has_uuid {
        Verdict::Unresolved
    } else if uuid_matches_anchor {
        Verdict::Redundant
    } else if anchor_count == 0 {
        Verdict::Anchorless
    } else {
        Verdict::Mismatch
    }
}

pub fn verdict_of(has_uuid: bool, anchor_count: i64, uuid_matches_anchor: bool) -> (v: Verdict)
    ensures
        v == verdict_rule(has_uuid, anchor_count as int, uuid_matches_anchor),
{
    if !has_uuid {
        Verdict::Unresolved
    } else if uuid_matches_anchor {
        Verdict::Redundant
    } else if anchor_count == 0 {
        Verdict::Anchorless
    } else {
        Verdict::Mismatch
    }
}

/// One classified all.mangadex row.
#[derive(Debug, Clone, PartialEq, Eq)]
pub struct ClassifiedRow {
    pub source_series_id: String,
    /// The row's work, resolved through `work_redirect`.
    pub work_id: String,
    pub suwayomi_key: String,
    pub mangadex_uuid: Option<String>,
    /// Direct (`source_type = 'mangadex'`) anchors on this work.
    pub anchor_count: i64,
    /// True when one of those anchors is this row's UUID.
    pub uuid_matches_anchor: bool,
    /// The work that owns this UUID's direct anchor elsewhere, resolved.
    pub uuid_owner_work: Option<String>,
    /// `chapter` rows that would cascade if this row were deleted.
    pub chapters: i64,
    /// What was recorded for this row, if anything has acted on it.
    pub disposition: Option<String>,
}

pub open spec fn row_verdict(r: ClassifiedRow) -> Verdict {
    verdict_rule(r.mangadex_uuid is Some, r.anchor_count as int, r.uuid_matches_anchor)
}

impl ClassifiedRow {
    pub fn verdict(&self) -> (v: Verdict)
        ensures
            v == row_verdict(*self),
    {
        verdict_of(self.mangadex_uuid.is_some(), self.anchor_count, self.uuid_matches_anchor)
    }
}

/// Rows among `rows` with verdict `v`.
pub open spec fn count_verdict(rows: Seq<ClassifiedRow>, v: Verdict) -> nat
    decreases rows.len(),
{
    if rows.len() == 0 {
        0
    } else {
        count_verdict(rows.drop_last(), v) + if row_verdict(rows.last()) == v { 1nat } else { 0nat }
    }
}

/// Chapters carried by the rows among `rows` with verdict `v`.
pub open spec fn chapters_verdict(rows: Seq<ClassifiedRow>, v: Verdict) -> int
    decreases rows.len(),
{
    if rows.len() == 0 {
        0
    } else {
        chapters_verdict(rows.drop_last(), v) + if row_verdict(rows.last()) == v {
            rows.last().chapters as int
        } else {
            0
        }
    }
}

/// Chapters carried by all of `rows`.
pub open spec fn chapters_total(rows: Seq<ClassifiedRow>) -> int
    decreases rows.len(),
{
    if rows.len() == 0 {
        0
    } else {
        chapters_total(rows.drop_last()) + rows.last().chapters as int
    }
}

/// Chapter counts are `COUNT(*)` values: never negative.
pub open spec fn chapters_nonneg(rows: Seq<ClassifiedRow>) -> bool {
    forall|i: int| 0 <= i < rows.len() ==> (#[trigger] rows[i]).chapters >= 0
}

/// The distinct work ids among `rows`.
pub open spec fn work_ids(rows: Seq<ClassifiedRow>) -> Set<Seq<char>> {
    rows.map_values(|r: ClassifiedRow| r.work_id@).to_set()
}

/// Counts by verdict, for reporting.
#[derive(Debug, Default, Clone, PartialEq, Eq)]
pub struct Census {
    pub total: u64,
    pub redundant: u64,
    pub mismatch: u64,
    pub anchorless: u64,
    pub unresolved: u64,
    pub works: u64,
    pub mismatch_chapters: i64,
    pub anchorless_chapters: i64,
}

proof fn lemma_chapters_bounds(rows: Seq<ClassifiedRow>, v: Verdict)
    requires
        chapters_nonneg(rows),
    ensures
        0 <= chapters_verdict(rows, v) <= chapters_total(rows),
        count_verdict(rows, v) <= rows.len(),
    decreases rows.len(),
{
    if rows.len() > 0 {
        lemma_chapters_bounds(rows.drop_last(), v);
    }
}

/// Counts the rows by verdict, and the distinct works they sit on.
pub fn census(rows: &[ClassifiedRow]) -> (c: Census)
    requires
        rows@.len() <= u64::MAX,
        chapters_nonneg(rows@),
        chapters_total(rows@) <= i64::MAX,
    ensures
        c.total == rows@.len(),
        c.redundant == count_verdict(rows@, Verdict::Redundant),
        c.mismatch == count_verdict(rows@, Verdict::Mismatch),
        c.anchorless == count_verdict(rows@, Verdict::Anchorless),
        c.unresolved == count_verdict(rows@, Verdict::Unresolved),
        c.works == work_ids(rows@).len(),
        c.mismatch_chapters == chapters_verdict(rows@, Verdict::Mismatch),
        c.anchorless_chapters == chapters_verdict(rows@, Verdict::Anchorless),
{
    let mut c = Census {
        total: rows.len() as u64,
        redundant: 0,
        mismatch: 0,
        anchorless: 0,
        unresolved: 0,
        works: 0,
        mismatch_chapters: 0,
        anchorless_chapters: 0,
    };
    let mut seen: Vec<String> = Vec::new();
    let ghost ids = rows@.map_values(|r: ClassifiedRow| r.work_id@);
    let mut i: usize = 0;
    while i < rows.len()
        invariant
            i <= rows.len(),
            rows@.len() <= u64::MAX,
            chapters_nonneg(rows@),
            chapters_total(rows@) <= i64::MAX,
            ids == rows@.map_values(|r: ClassifiedRow| r.work_id@),
            c.total == rows@.len(),
            c.redundant == count_verdict(rows@.take(i as int), Verdict::Redundant),
            c.mismatch == count_verdict(rows@.take(i as int), Verdict::Mismatch),
            c.anchorless == count_verdict(rows@.take(i as int), Verdict::Anchorless),
            c.unresolved == count_verdict(rows@.take(i as int), Verdict::Unresolved),
            c.mismatch_chapters == chapters_verdict(rows@.take(i as int), Verdict::Mismatch),
            c.anchorless_chapters == chapters_verdict(rows@.take(i as int), Verdict::Anchorless),
            seen@.map_values(|s: String| s@).no_duplicates(),
            seen@.map_values(|s: String| s@).to_set() == ids.take(i as int).to_set(),
            c.works == seen@.len(),
        decreases rows.len() - i,
    {
        let r = &rows[i];
        let ghost pre = rows@.take(i as int + 1);
        assert(pre.drop_last() == rows@.take(i as int));
        assert(pre.last() == *r);
        proof {
            lemma_chapters_bounds(pre, Verdict::Mismatch);
            lemma_chapters_bounds(pre, Verdict::Anchorless);
            lemma_chapters_total_prefix(rows@, i as int + 1);
            lemma_chapters_bounds(rows@.take(i as int), Verdict::Redundant);
            lemma_chapters_bounds(rows@.take(i as int), Verdict::Mismatch);
            lemma_chapters_bounds(rows@.take(i as int), Verdict::Anchorless);
            lemma_chapters_bounds(rows@.take(i as int), Verdict::Unresolved);
        }
        match r.verdict() {
            Verdict::Redundant => {
                c.redundant = c.redundant + 1;
            },
            Verdict::Mismatch => {
                c.mismatch = c.mismatch + 1;
                c.mismatch_chapters = c.mismatch_chapters + r.chapters;
            },
            Verdict::Anchorless => {
                c.anchorless = c.anchorless + 1;
                c.anchorless_chapters = c.anchorless_chapters + r.chapters;
            },
            Verdict::Unresolved => {
                c.unresolved = c.unresolved + 1;
            },
        }
        // distinct work ids
        let ghost sv = seen@.map_values(|s: String| s@);
        let mut found = false;
        let mut k: usize = 0;
        while k < seen.len()
            invariant
                k <= seen.len(),
                sv == seen@.map_values(|s: String| s@),
                !found ==> forall|j: int| 0 <= j < k ==> sv[j] != r.work_id@,
                found ==> sv.contains(r.work_id@),
            decreases seen.len() - k,
        {
            if seen[k] == r.work_id {
                found = true;
                assert(sv[k as int] == r.work_id@);
            }
            k = k + 1;
        }
        assert(ids.take(i as int + 1) == ids.take(i as int).push(r.work_id@));
        proof {
            ids.take(i as int).lemma_push_to_set_commute(r.work_id@);
        }
        if !found {
            assert(!sv.contains(r.work_id@));
            proof {
                sv.unique_seq_to_set();
                ids.take(i as int).lemma_cardinality_of_set();
            }
            seen.push(r.work_id.clone());
            assert(seen@.map_values(|s: String| s@) == sv.push(r.work_id@));
            proof {
                sv.lemma_push_to_set_commute(r.work_id@);
                assert(sv.push(r.work_id@).no_duplicates()) by {
                    assert forall|a: int, b: int|
                        0 <= a < b < sv.len() + 1 implies sv.push(r.work_id@)[a] != sv.push(
                        r.work_id@,
                    )[b] by {
                        if b == sv.len() {
                            assert(sv.contains(sv[a]));
                        }
                    }
                }
            }
            c.works = c.works + 1;
        } else {
            assert(sv.to_set().insert(r.work_id@) =~= sv.to_set());
        }
        i = i + 1;
    }
    assert(rows@.take(rows.len() as int) == rows@);
    assert(ids.take(rows.len() as int) == ids);
    proof {
        seen@.map_values(|s: String| s@).unique_seq_to_set();
    }
    c
}

proof fn lemma_chapters_total_prefix(rows: Seq<ClassifiedRow>, k: int)
    requires
        0 <= k <= rows.len(),
        chapters_nonneg(rows),
    ensures
        chapters_total(rows.take(k)) <= chapters_total(rows),
    decreases rows.len(),
{
    if k < rows.len() {
        assert(rows.drop_last().take(k) == rows.take(k));
        lemma_chapters_total_prefix(rows.drop_last(), k);
    } else {
        assert(rows.take(k) == rows);
    }
}

// ---------------------------------------------------------------------------
// The redundancy check
// ---------------------------------------------------------------------------

/// One row that failed the redundancy proof, with the reason a human needs.
#[derive(Debug, Clone, PartialEq, Eq)]
pub struct GateFailure {
    pub source_series_id: String,
    pub work_id: String,
    pub mangadex_uuid: Option<String>,
    pub verdict: Verdict,
    pub chapters: i64,
    /// Where this UUID is anchored, when it is anchored somewhere.
    pub uuid_owner_work: Option<String>,
}

/// The redundancy check's outcome. `failures` is exhaustive: every failing row.
#[derive(Debug, Default, Clone, PartialEq, Eq)]
pub struct GateReport {
    pub passed: u64,
    pub failures: Vec<GateFailure>,
    /// Chapters that would have cascaded had the failures been deleted anyway.
    pub chapters_at_risk: i64,
}

impl GateReport {
    pub fn is_clean(&self) -> (r: bool)
        ensures
            r == (self.failures@.len() == 0),
    {
        self.failures.len() == 0
    }
}

/// The rows that fail the redundancy proof, in order.
pub open spec fn failing(rows: Seq<ClassifiedRow>) -> Seq<ClassifiedRow>
    decreases rows.len(),
{
    if rows.len() == 0 {
        Seq::<ClassifiedRow>::empty()
    } else if row_verdict(rows.last()) == Verdict::Redundant {
        failing(rows.drop_last())
    } else {
        failing(rows.drop_last()).push(rows.last())
    }
}

/// The report entry for a failing row.
pub open spec fn failure_of(r: ClassifiedRow) -> GateFailure {
    GateFailure {
        source_series_id: r.source_series_id,
        work_id: r.work_id,
        mangadex_uuid: r.mangadex_uuid,
        verdict: row_verdict(r),
        chapters: r.chapters,
        uuid_owner_work: r.uuid_owner_work,
    }
}

proof fn lemma_failing_counts(rows: Seq<ClassifiedRow>)
    requires
        chapters_nonneg(rows),
    ensures
        failing(rows).len() + count_verdict(rows, Verdict::Redundant) == rows.len(),
        chapters_total(failing(rows)) <= chapters_total(rows),
        chapters_nonneg(failing(rows)),
    decreases rows.len(),
{
    if rows.len() > 0 {
        lemma_failing_counts(rows.drop_last());
        let f = failing(rows.drop_last());
        if row_verdict(rows.last()) != Verdict::Redundant {
            assert(f.push(rows.last()).drop_last() == f);
        }
    }
}

/// The redundancy proof over classified rows: a row passes only when its verdict is
/// `Redundant`; every other row is reported, with the chapters it would cascade.
pub fn gate(rows: &[ClassifiedRow]) -> (report: GateReport)
    requires
        chapters_nonneg(rows@),
        chapters_total(rows@) <= i64::MAX,
    ensures
        report.passed == count_verdict(rows@, Verdict::Redundant),
        report.failures@ == failing(rows@).map_values(|r: ClassifiedRow| failure_of(r)),
        report.chapters_at_risk == chapters_total(failing(rows@)),
{
    let mut report = GateReport { passed: 0, failures: Vec::new(), chapters_at_risk: 0 };
    let mut i: usize = 0;
    while i < rows.len()
        invariant
            i <= rows.len(),
            chapters_nonneg(rows@),
            chapters_total(rows@) <= i64::MAX,
            report.passed == count_verdict(rows@.take(i as int), Verdict::Redundant),
            report.failures@ == failing(rows@.take(i as int)).map_values(
                |r: ClassifiedRow| failure_of(r),
            ),
            report.chapters_at_risk == chapters_total(failing(rows@.take(i as int))),
        decreases rows.len() - i,
    {
        let r = &rows[i];
        let ghost pre = rows@.take(i as int + 1);
        assert(pre.drop_last() == rows@.take(i as int));
        assert(pre.last() == *r);
        proof {
            lemma_failing_counts(pre);
            lemma_chapters_total_prefix(rows@, i as int + 1);
            lemma_chapters_bounds(rows@.take(i as int), Verdict::Redundant);
        }
        let verdict = r.verdict();
        if verdict == Verdict::Redundant {
            report.passed = report.passed + 1;
        } else {
            assert(failing(pre) == failing(rows@.take(i as int)).push(*r));
            assert(failing(pre).drop_last() == failing(rows@.take(i as int)));
            proof {
                lemma_total_nonneg(failing(rows@.take(i as int)));
                lemma_failing_counts(rows@.take(i as int));
            }
            report.chapters_at_risk = report.chapters_at_risk + r.chapters;
            let f = GateFailure {
                source_series_id: r.source_series_id.clone(),
                work_id: r.work_id.clone(),
                mangadex_uuid: copy_opt_string(&r.mangadex_uuid),
                verdict,
                chapters: r.chapters,
                uuid_owner_work: copy_opt_string(&r.uuid_owner_work),
            };
            assert(f == failure_of(*r));
            let ghost old_f = report.failures@;
            report.failures.push(f);
            assert(report.failures@ =~= failing(pre).map_values(|r: ClassifiedRow| failure_of(r)))
                by {
                assert(failing(pre) == failing(rows@.take(i as int)).push(*r));
            }
        }
        i = i + 1;
    }
    assert(rows@.take(rows.len() as int) == rows@);
    report
}

proof fn lemma_total_nonneg(rows: Seq<ClassifiedRow>)
    requires
        chapters_nonneg(rows),
    ensures
        chapters_total(rows) >= 0,
    decreases rows.len(),
{
    if rows.len() > 0 {
        lemma_total_nonneg(rows.drop_last());
    }
}

/// Every row is either counted as passed or reported as a failure.
pub proof fn lemma_gate_accounts_for_every_row(rows: Seq<ClassifiedRow>)
    requires
        chapters_nonneg(rows),
    ensures
        count_verdict(rows, Verdict::Redundant) + failing(rows).len() == rows.len(),
{
    lemma_failing_counts(rows);
}

/// The redundancy check is clean exactly when every row is proven redundant.
pub proof fn lemma_gate_clean_iff_all_redundant(rows: Seq<ClassifiedRow>)
    ensures
        failing(rows).len() == 0 <==> forall|i: int|
            0 <= i < rows.len() ==> row_verdict(#[trigger] rows[i]) == Verdict::Redundant,
    decreases rows.len(),
{
    if rows.len() > 0 {
        lemma_gate_clean_iff_all_redundant(rows.drop_last());
        let d = rows.drop_last();
        if failing(rows).len() == 0 {
            assert forall|i: int| 0 <= i < rows.len() implies row_verdict(#[trigger] rows[i])
                == Verdict::Redundant by {
                if i < rows.len() - 1 {
                    assert(rows[i] == d[i]);
                }
            }
        }
        if forall|i: int| 0 <= i < rows.len() ==> row_verdict(#[trigger] rows[i])
            == Verdict::Redundant {
            assert(row_verdict(rows[rows.len() - 1]) == Verdict::Redundant);
            assert forall|i: int| 0 <= i < d.len() implies row_verdict(#[trigger] d[i])
                == Verdict::Redundant by {
                assert(d[i] == rows[i]);
            }
        }
    }
}

/// Every row the redundancy check reports carries a verdict other than `Redundant`.
pub proof fn lemma_gate_failures_are_unproven(rows: Seq<ClassifiedRow>)
    ensures
        forall|k: int|
            0 <= k < failing(rows).len() ==> row_verdict(#[trigger] failing(rows)[k])
                != Verdict::Redundant,
    decreases rows.len(),
{
    if rows.len() > 0 {
        lemma_gate_failures_are_unproven(rows.drop_last());
        let f = failing(rows.drop_last());
        if row_verdict(rows.last()) != Verdict::Redundant {
            assert forall|k: int| 0 <= k < f.len() + 1 implies row_verdict(
                #[trigger] f.push(rows.last())[k],
            ) != Verdict::Redundant by {
                if k < f.len() {
                    assert(f.push(rows.last())[k] == f[k]);
                }
            }
        }
    }
}

// ---------------------------------------------------------------------------
// Step reports and the split step (step 4)
// ---------------------------------------------------------------------------

/// What one step did (or would have done).
#[derive(Debug, Default, Clone, PartialEq, Eq)]
pub struct StepReport {
    pub considered: u64,
    pub acted: u64,
    /// Rows the step could not act on, with a reason. Never silently skipped.
    pub blocked: Vec<(String, String)>,
}

/// A re-point of one row onto another work.
#[derive(Debug, Clone, PartialEq, Eq)]
pub struct Move {
    pub source_series_id: String,
    pub from_work: String,
    pub to_work: String,
}

pub open spec fn move_views(v: Seq<Move>) -> Seq<(Seq<char>, Seq<char>, Seq<char>)> {
    v.map_values(|m: Move| (m.source_series_id@, m.from_work@, m.to_work@))
}

pub open spec fn opt_text(o: Option<String>) -> Seq<char> {
    match o {
        Some(s) => s@,
        None => Seq::<char>::empty(),
    }
}

/// Why a mismatch row whose UUID is mirrored nowhere cannot be placed.
pub open spec fn mirrored_nowhere(uuid: Seq<char>) -> Seq<char> {
    "uuid "@ + uuid
        + " is mirrored nowhere \u{2014} needs a direct MangaDex ingest before this row can be placed"@
}

/// What the split step does with one mismatch row: `Ok(target)` re-points it,
/// `Err(reason)` blocks it.
pub open spec fn split_decision(r: ClassifiedRow) -> Result<Seq<char>, Seq<char>> {
    match r.uuid_owner_work {
        None => Err(mirrored_nowhere(opt_text(r.mangadex_uuid))),
        Some(t) => if t@ == r.work_id@ {
            Err("already on the work that owns its uuid"@)
        } else {
            Ok(t@)
        },
    }
}

/// The mismatch rows among `rows`, in order.
pub open spec fn mismatched(rows: Seq<ClassifiedRow>) -> Seq<ClassifiedRow>
    decreases rows.len(),
{
    if rows.len() == 0 {
        Seq::<ClassifiedRow>::empty()
    } else if row_verdict(rows.last()) == Verdict::Mismatch {
        mismatched(rows.drop_last()).push(rows.last())
    } else {
        mismatched(rows.drop_last())
    }
}

pub open spec fn split_blocked(rows: Seq<ClassifiedRow>) -> Seq<(Seq<char>, Seq<char>)>
    decreases rows.len(),
{
    if rows.len() == 0 {
        Seq::empty()
    } else {
        let r = rows.last();
        let prev = split_blocked(rows.drop_last());
        if row_verdict(r) == Verdict::Mismatch && split_decision(r) is Err {
            prev.push((r.source_series_id@, split_decision(r)->Err_0))
        } else {
            prev
        }
    }
}

pub open spec fn split_moves(rows: Seq<ClassifiedRow>) -> Seq<(Seq<char>, Seq<char>, Seq<char>)>
    decreases rows.len(),
{
    if rows.len() == 0 {
        Seq::empty()
    } else {
        let r = rows.last();
        let prev = split_moves(rows.drop_last());
        if row_verdict(r) == Verdict::Mismatch && split_decision(r) is Ok {
            prev.push((r.source_series_id@, r.work_id@, split_decision(r)->Ok_0))
        } else {
            prev
        }
    }
}

fn mirrored_nowhere_text(uuid: &Option<String>) -> (r: String)
    ensures
        r@ == mirrored_nowhere(opt_text(*uuid)),
{
    let mut r = string_of("uuid ");
    match uuid {
        Some(u) => push_str(&mut r, u.as_str()),
        None => {},
    }
    push_str(
        &mut r,
        " is mirrored nowhere \u{2014} needs a direct MangaDex ingest before this row can be placed",
    );
    r
}

/// Step 4's plan: every mismatch row is re-pointed onto the work that owns its UUID's
/// direct anchor, or blocked with the reason. Nothing is deleted.
pub fn split_plan(rows: &[ClassifiedRow]) -> (r: (StepReport, Vec<Move>))
    requires
        rows@.len() <= u64::MAX,
    ensures
        r.0.considered == count_verdict(rows@, Verdict::Mismatch),
        r.0.acted == r.1@.len(),
        pair_views(r.0.blocked@) == split_blocked(rows@),
        move_views(r.1@) == split_moves(rows@),
{
    let mut report = StepReport { considered: 0, acted: 0, blocked: Vec::new() };
    let mut moves: Vec<Move> = Vec::new();
    let mut i: usize = 0;
    while i < rows.len()
        invariant
            i <= rows.len(),
            rows@.len() <= u64::MAX,
            report.considered == count_verdict(rows@.take(i as int), Verdict::Mismatch),
            report.acted == moves@.len(),
            pair_views(report.blocked@) == split_blocked(rows@.take(i as int)),
            move_views(moves@) == split_moves(rows@.take(i as int)),
            moves@.len() <= i,
        decreases rows.len() - i,
    {
        let r = &rows[i];
        let ghost pre = rows@.take(i as int + 1);
        assert(pre.drop_last() == rows@.take(i as int));
        assert(pre.last() == *r);
        proof {
            lemma_chapters_bounds_count(rows@.take(i as int), Verdict::Mismatch);
        }
        if r.verdict() == Verdict::Mismatch {
            report.considered = report.considered + 1;
            match &r.uuid_owner_work {
                None => {
                    let why = mirrored_nowhere_text(&r.mangadex_uuid);
                    let ghost old_b = report.blocked@;
                    report.blocked.push((r.source_series_id.clone(), why));
                    assert(pair_views(report.blocked@) =~= pair_views(old_b).push(
                        (r.source_series_id@, mirrored_nowhere(opt_text(r.mangadex_uuid))),
                    ));
                },
                Some(target) => {
                    if *target == r.work_id {
                        let ghost old_b = report.blocked@;
                        report.blocked.push(
                            (r.source_series_id.clone(), string_of("already on the work that owns its uuid")),
                        );
                        assert(pair_views(report.blocked@) =~= pair_views(old_b).push(
                            (r.source_series_id@, "already on the work that owns its uuid"@),
                        ));
                    } else {
                        let ghost old_m = moves@;
                        moves.push(
                            Move {
                                source_series_id: r.source_series_id.clone(),
                                from_work: r.work_id.clone(),
                                to_work: target.clone(),
                            },
                        );
                        report.acted = report.acted + 1;
                        assert(move_views(moves@) =~= move_views(old_m).push(
                            (r.source_series_id@, r.work_id@, target@),
                        ));
                    }
                },
            }
        }
        i = i + 1;
    }
    assert(rows@.take(rows.len() as int) == rows@);
    (report, moves)
}

proof fn lemma_chapters_bounds_count(rows: Seq<ClassifiedRow>, v: Verdict)
    ensures
        count_verdict(rows, v) <= rows.len(),
    decreases rows.len(),
{
    if rows.len() > 0 {
        lemma_chapters_bounds_count(rows.drop_last(), v);
    }
}

// ---------------------------------------------------------------------------
// Step 2: folding each anchorless work into its UUID's owner
// ---------------------------------------------------------------------------

/// A merge of one anchorless work into the work that owns its UUID.
#[derive(Debug, Clone, PartialEq, Eq)]
pub struct Merge {
    pub from_work: String,
    pub to_work: String,
    /// The anchorless rows of the merged work, whose disposition is recorded.
    pub rows: Vec<String>,
}

/// Row `rows[i]` is anchorless and on work `w`.
pub open spec fn anchorless_on(rows: Seq<ClassifiedRow>, w: Seq<char>, i: int) -> bool {
    0 <= i < rows.len() && row_verdict(rows[i]) == Verdict::Anchorless && rows[i].work_id@ == w
}

/// `a` ranks before `b` as a merge candidate: more chapters, then the smaller row id.
pub open spec fn ranks_before(a: ClassifiedRow, b: ClassifiedRow) -> bool {
    a.chapters > b.chapters || (a.chapters == b.chapters && seq_lt(a.source_series_id@, b.source_series_id@))
}

/// `rows[i]` is the candidate of work `w` that the merge follows: it ranks before every
/// other candidate of `w`, and among equals it comes first.
pub open spec fn is_winner(rows: Seq<ClassifiedRow>, w: Seq<char>, i: int) -> bool {
    &&& anchorless_on(rows, w, i)
    &&& forall|j: int| #[trigger] anchorless_on(rows, w, j) && j != i ==> ranks_before(rows[i], rows[j])
        || (!ranks_before(rows[j], rows[i]) && i < j)
}

/// Why a work whose winning row's UUID is mirrored nowhere is not merged.
pub open spec fn not_mirrored(uuid: Seq<char>) -> Seq<char> {
    "uuid "@ + uuid
        + " is not mirrored directly anywhere \u{2014} a fresh MangaDex ingest is needed, not a merge"@
}

/// What step 2 does with work `w` whose winner is `r`: `Ok(target)` merges it into
/// `target`, `Err(reason)` blocks it.
pub open spec fn merge_decision(w: Seq<char>, r: ClassifiedRow) -> Result<Seq<char>, Seq<char>> {
    match r.uuid_owner_work {
        None => Err(not_mirrored(opt_text(r.mangadex_uuid))),
        Some(t) => if t@ == w {
            Err("uuid already anchors this work"@)
        } else {
            Ok(t@)
        },
    }
}

/// The works holding anchorless rows, each once, in ascending order.
pub open spec fn works_listed(rows: Seq<ClassifiedRow>, works: Seq<Seq<char>>) -> bool {
    &&& forall|a: int, b: int| 0 <= a < b < works.len() ==> seq_lt(#[trigger] works[a], #[trigger] works[b])
    &&& forall|w: Seq<char>| works.contains(w) <==> exists|i: int| #[trigger] anchorless_on(rows, w, i)
}

fn insert_work(list: &mut Vec<String>, x: &String)
    requires
        forall|a: int, b: int| 0 <= a < b < old(list)@.len() ==> seq_lt(#[trigger] old(list)@[a]@, #[trigger] old(list)@[b]@),
    ensures
        forall|a: int, b: int| 0 <= a < b < final(list)@.len() ==> seq_lt(#[trigger] final(list)@[a]@, #[trigger] final(list)@[b]@),
        forall|q: Seq<char>| str_seq(final(list)@).contains(q) <==> (str_seq(old(list)@).contains(q) || q == x@),
{
    let ghost ov = str_seq(list@);
    let mut p: usize = 0;
    let mut stop = false;
    while p < list.len() && !stop
        invariant
            p <= list.len(),
            ov == str_seq(list@),
            forall|a: int, b: int| 0 <= a < b < ov.len() ==> seq_lt(#[trigger] ov[a], #[trigger] ov[b]),
            forall|k: int| 0 <= k < p ==> seq_lt(#[trigger] ov[k], x@),
            stop ==> p < list.len() && !seq_lt(ov[p as int], x@),
        decreases list.len() - p, if stop { 0int } else { 1int },
    {
        assert(ov[p as int] == list@[p as int]@);
        if str_less(list[p].as_str(), x.as_str()) {
            p = p + 1;
        } else {
            stop = true;
        }
    }
    proof {
        assert forall|a: int, b: int| 0 <= a < b < ov.len() implies seq_lt(#[trigger] ov[a], #[trigger] ov[b]) by {
            assert(seq_lt(list@[a]@, list@[b]@));
        }
    }
    if p < list.len() && str_eq(list[p].as_str(), x.as_str()) {
        assert(ov[p as int] == x@);
        return;
    }
    proof {
        if p < ov.len() {
            lemma_lt_total(ov[p as int], x@);
            assert forall|k: int| p <= k < ov.len() implies seq_lt(x@, #[trigger] ov[k]) by {
                if k > p {
                    lemma_lt_transitive(x@, ov[p as int], ov[k]);
                }
            }
        }
        assert forall|k: int| 0 <= k < ov.len() implies ov[k] != x@ by {
            lemma_lt_irreflexive(x@);
        }
    }
    list.insert(p, string_of(x.as_str()));
    proof {
        let nv = str_seq(list@);
        assert(nv =~= ov.insert(p as int, x@));
        assert forall|a: int, b: int| 0 <= a < b < list@.len() implies seq_lt(#[trigger] list@[a]@, #[trigger] list@[b]@) by {
            assert(list@[a]@ == nv[a]);
            assert(list@[b]@ == nv[b]);
            if a < p && b > p {
                assert(nv[b] == ov[b - 1]);
                if b - 1 > a {
                } else {
                }
            } else if a == p {
                assert(nv[b] == ov[b - 1]);
            } else if a > p {
                assert(nv[a] == ov[a - 1]);
                assert(nv[b] == ov[b - 1]);
            }
        }
        assert forall|q: Seq<char>| nv.contains(q) <==> (ov.contains(q) || q == x@) by {
            if nv.contains(q) {
                let k = choose|k: int| 0 <= k < nv.len() && nv[k] == q;
                if k < p {
                    assert(ov[k] == q);
                } else if k > p {
                    assert(ov[k - 1] == q);
                }
            }
            if ov.contains(q) {
                let k = choose|k: int| 0 <= k < ov.len() && ov[k] == q;
                if k < p {
                    assert(nv[k] == q);
                } else {
                    assert(nv[k + 1] == q);
                }
            }
            if q == x@ {
                assert(nv[p as int] == q);
            }
        }
    }
}

/// The works that hold anchorless rows, in ascending order, each once.
pub fn anchorless_works(rows: &[ClassifiedRow]) -> (r: Vec<String>)
    ensures
        works_listed(rows@, str_seq(r@)),
{
    let mut list: Vec<String> = Vec::new();
    let mut i: usize = 0;
    while i < rows.len()
        invariant
            i <= rows.len(),
            forall|a: int, b: int| 0 <= a < b < list@.len() ==> seq_lt(#[trigger] list@[a]@, #[trigger] list@[b]@),
            forall|w: Seq<char>| str_seq(list@).contains(w) <==> exists|k: int| 0 <= k < i && #[trigger] anchorless_on(rows@, w, k),
        decreases rows.len() - i,
    {
        let ghost before = str_seq(list@);
        if rows[i].verdict() == Verdict::Anchorless {
            insert_work(&mut list, &rows[i].work_id);
        }
        proof {
            assert forall|w: Seq<char>| str_seq(list@).contains(w) <==> exists|k: int| 0 <= k < i + 1 && #[trigger] anchorless_on(rows@, w, k) by {
                if anchorless_on(rows@, w, i as int) {
                    assert(str_seq(list@).contains(w));
                }
                if exists|k: int| 0 <= k < i + 1 && #[trigger] anchorless_on(rows@, w, k) {
                    let k = choose|k: int| 0 <= k < i + 1 && #[trigger] anchorless_on(rows@, w, k);
                    if k < i {
                        assert(before.contains(w));
                    }
                }
                if before.contains(w) {
                    let k = choose|k: int| 0 <= k < i && #[trigger] anchorless_on(rows@, w, k);
                    assert(anchorless_on(rows@, w, k));
                }
            }
        }
        i = i + 1;
    }
    proof {
        let v = str_seq(list@);
        assert forall|a: int, b: int| 0 <= a < b < v.len() implies seq_lt(#[trigger] v[a], #[trigger] v[b]) by {
            assert(seq_lt(list@[a]@, list@[b]@));
        }
        assert forall|w: Seq<char>| v.contains(w) <==> exists|k: int| #[trigger] anchorless_on(rows@, w, k) by {
            if exists|k: int| #[trigger] anchorless_on(rows@, w, k) {
                let k = choose|k: int| #[trigger] anchorless_on(rows@, w, k);
                assert(0 <= k < rows@.len());
            }
        }
    }
    list
}

fn ranks_before_exec(a: &ClassifiedRow, b: &ClassifiedRow) -> (r: bool)
    ensures
        r == ranks_before(*a, *b),
{
    a.chapters > b.chapters || (a.chapters == b.chapters && str_less(a.source_series_id.as_str(), b.source_series_id.as_str()))
}

proof fn lemma_ranks_before_order(a: ClassifiedRow, b: ClassifiedRow, c: ClassifiedRow)
    ensures
        !(ranks_before(a, b) && ranks_before(b, a)),
        ranks_before(a, b) && ranks_before(b, c) ==> ranks_before(a, c),
        !ranks_before(a, b) && !ranks_before(b, c) ==> !ranks_before(a, c),
{
    lemma_lt_asymmetric(a.source_series_id@, b.source_series_id@);
    if ranks_before(a, b) && ranks_before(b, c) && a.chapters == b.chapters && b.chapters == c.chapters {
        lemma_lt_transitive(a.source_series_id@, b.source_series_id@, c.source_series_id@);
    }
    if !ranks_before(a, b) && !ranks_before(b, c) && ranks_before(a, c) {
        lemma_lt_total(a.source_series_id@, b.source_series_id@);
        lemma_lt_total(b.source_series_id@, c.source_series_id@);
        if a.chapters == c.chapters {
            if b.source_series_id@ == a.source_series_id@ {
            } else if seq_lt(b.source_series_id@, a.source_series_id@) {
                if c.source_series_id@ == b.source_series_id@ {
                    lemma_lt_asymmetric(a.source_series_id@, c.source_series_id@);
                } else {
                    lemma_lt_transitive(c.source_series_id@, b.source_series_id@, a.source_series_id@);
                    lemma_lt_asymmetric(a.source_series_id@, c.source_series_id@);
                }
            }
        }
    }
}

/// The winner of work `w`.
fn find_winner(rows: &[ClassifiedRow], w: &String) -> (r: usize)
    requires
        exists|i: int| anchorless_on(rows@, w@, i),
    ensures
        is_winner(rows@, w@, r as int),
{
    let mut best: Option<usize> = None;
    let mut i: usize = 0;
    while i < rows.len()
        invariant
            i <= rows.len(),
            match best {
                Some(b) => {
                    &&& b < i
                    &&& anchorless_on(rows@, w@, b as int)
                    &&& forall|j: int| 0 <= j < i && #[trigger] anchorless_on(rows@, w@, j) && j != b ==> ranks_before(rows@[b as int], rows@[j])
                        || (!ranks_before(rows@[j], rows@[b as int]) && b < j)
                },
                None => forall|j: int| 0 <= j < i ==> !#[trigger] anchorless_on(rows@, w@, j),
            },
        decreases rows.len() - i,
    {
        let on = rows[i].verdict() == Verdict::Anchorless && str_eq(rows[i].work_id.as_str(), w.as_str());
        if on {
            assert(anchorless_on(rows@, w@, i as int));
            match best {
                None => {
                    best = Some(i);
                },
                Some(b) => {
                    if ranks_before_exec(&rows[i], &rows[b]) {
                        proof {
                            assert forall|j: int| 0 <= j < i + 1 && #[trigger] anchorless_on(rows@, w@, j) && j != i implies ranks_before(rows@[i as int], rows@[j])
                                || (!ranks_before(rows@[j], rows@[i as int]) && i < j) by {
                                lemma_ranks_before_order(rows@[i as int], rows@[b as int], rows@[j]);
                                lemma_ranks_before_order(rows@[j], rows@[b as int], rows@[i as int]);
                                lemma_ranks_before_order(rows@[i as int], rows@[j], rows@[b as int]);
                            }
                        }
                        best = Some(i);
                    }
                },
            }
        } else {
            assert(!anchorless_on(rows@, w@, i as int));
        }
        i = i + 1;
    }
    match best {
        Some(b) => b,
        None => {
            proof {
                let k = choose|k: int| anchorless_on(rows@, w@, k);
                assert(0 <= k < rows@.len());
            }
            0
        },
    }
}

/// `s` (row indices ranked best first) with index `i` inserted before the first row it
/// ranks before, so rows that rank equal keep their row order.
pub open spec fn insert_ranked(rows: Seq<ClassifiedRow>, s: Seq<int>, i: int) -> Seq<int>
    decreases s.len(),
{
    if s.len() == 0 {
        seq![i]
    } else if ranks_before(rows[i], rows[s[0]]) {
        seq![i] + s
    } else {
        seq![s[0]] + insert_ranked(rows, s.drop_first(), i)
    }
}

/// The indices of the first `n` rows that are anchorless on `w`, ranked best first
/// (most chapters, then smallest row id); equal rows keep their row order.
pub open spec fn ranked_anchorless(rows: Seq<ClassifiedRow>, w: Seq<char>, n: nat) -> Seq<int>
    decreases n,
{
    if n == 0 {
        Seq::empty()
    } else {
        let p = ranked_anchorless(rows, w, (n - 1) as nat);
        if anchorless_on(rows, w, n - 1) {
            insert_ranked(rows, p, n - 1)
        } else {
            p
        }
    }
}

/// The ids of the anchorless rows of `w`, ranked best first: the rows whose
/// disposition a merge of `w` records, in that order.
pub open spec fn merge_row_ids(rows: Seq<ClassifiedRow>, w: Seq<char>) -> Seq<Seq<char>> {
    ranked_anchorless(rows, w, rows.len()).map_values(|i: int| rows[i].source_series_id@)
}

proof fn lemma_insert_ranked_at(rows: Seq<ClassifiedRow>, s: Seq<int>, i: int, p: int)
    requires
        0 <= p <= s.len(),
        forall|j: int| 0 <= j < p ==> !ranks_before(rows[i], rows[#[trigger] s[j]]),
        p < s.len() ==> ranks_before(rows[i], rows[s[p]]),
    ensures
        insert_ranked(rows, s, i) == s.insert(p, i),
    decreases s.len(),
{
    if p == 0 {
        if s.len() == 0 {
            assert(seq![i] =~= s.insert(0, i));
        } else {
            assert(seq![i] + s =~= s.insert(0, i));
        }
    } else {
        let t = s.drop_first();
        assert forall|j: int| 0 <= j < p - 1 implies !ranks_before(rows[i], rows[#[trigger] t[j]]) by {
            assert(t[j] == s[j + 1]);
        }
        assert(!ranks_before(rows[i], rows[s[0]]));
        lemma_insert_ranked_at(rows, t, i, p - 1);
        assert(seq![s[0]] + t.insert(p - 1, i) =~= s.insert(p, i));
    }
}

pub open spec fn int_seq(v: Seq<usize>) -> Seq<int> {
    v.map_values(|x: usize| x as int)
}

/// The ids of `w`'s anchorless rows, ranked best first.
fn ranked_ids(rows: &[ClassifiedRow], w: &String) -> (r: Vec<String>)
    ensures
        str_seq(r@) == merge_row_ids(rows@, w@),
{
    let mut idx: Vec<usize> = Vec::new();
    let mut i: usize = 0;
    while i < rows.len()
        invariant
            i <= rows.len(),
            int_seq(idx@) == ranked_anchorless(rows@, w@, i as nat),
            forall|k: int| 0 <= k < idx@.len() ==> #[trigger] idx@[k] < i,
        decreases rows.len() - i,
    {
        let on = rows[i].verdict() == Verdict::Anchorless && str_eq(rows[i].work_id.as_str(), w.as_str());
        assert(on == anchorless_on(rows@, w@, i as int));
        if on {
            let mut p: usize = 0;
            while p < idx.len()
                invariant
                    p <= idx@.len(),
                    i < rows@.len(),
                    forall|k: int| 0 <= k < idx@.len() ==> #[trigger] idx@[k] < i,
                    forall|j: int| 0 <= j < p ==> !ranks_before(rows@[i as int], rows@[#[trigger] int_seq(idx@)[j]]),
                ensures
                    p <= idx@.len(),
                    forall|j: int| 0 <= j < p ==> !ranks_before(rows@[i as int], rows@[#[trigger] int_seq(idx@)[j]]),
                    p < idx@.len() ==> ranks_before(rows@[i as int], rows@[int_seq(idx@)[p as int]]),
                decreases idx@.len() - p,
            {
                if ranks_before_exec(&rows[i], &rows[idx[p]]) {
                    break;
                }
                p = p + 1;
            }
            proof {
                lemma_insert_ranked_at(rows@, int_seq(idx@), i as int, p as int);
            }
            let ghost old_idx = idx@;
            idx.insert(p, i);
            assert(int_seq(idx@) =~= int_seq(old_idx).insert(p as int, i as int));
            assert forall|k: int| 0 <= k < idx@.len() implies #[trigger] idx@[k] < i + 1 by {
                if k < p {
                    assert(idx@[k] == old_idx[k]);
                } else if k > p {
                    assert(idx@[k] == old_idx[k - 1]);
                }
            }
        }
        i = i + 1;
    }
    let mut out: Vec<String> = Vec::new();
    let mut j: usize = 0;
    while j < idx.len()
        invariant
            j <= idx@.len(),
            int_seq(idx@) == ranked_anchorless(rows@, w@, rows@.len() as nat),
            forall|k: int| 0 <= k < idx@.len() ==> #[trigger] idx@[k] < rows@.len(),
            str_seq(out@) == ranked_anchorless(rows@, w@, rows@.len() as nat).take(j as int).map_values(|i: int| rows@[i].source_series_id@),
        decreases idx@.len() - j,
    {
        let ghost before = out@;
        out.push(string_of(rows[idx[j]].source_series_id.as_str()));
        let ghost rk = ranked_anchorless(rows@, w@, rows@.len() as nat);
        assert(rk[j as int] == idx@[j as int] as int);
        assert(rk.take(j as int + 1) =~= rk.take(j as int).push(rk[j as int]));
        assert(str_seq(out@) =~= str_seq(before).push(rows@[idx@[j as int] as int].source_series_id@));
        assert(str_seq(out@) =~= rk.take(j as int + 1).map_values(|i: int| rows@[i].source_series_id@));
        j = j + 1;
    }
    proof {
        let rk = ranked_anchorless(rows@, w@, rows@.len() as nat);
        assert(rk.take(idx@.len() as int) =~= rk);
    }
    out
}

/// Two works listings of the same rows are the same list.
proof fn lemma_works_listed_unique(rows: Seq<ClassifiedRow>, a: Seq<Seq<char>>, b: Seq<Seq<char>>)
    requires
        works_listed(rows, a),
        works_listed(rows, b),
    ensures
        a == b,
    decreases a.len() + b.len(),
{
    lemma_sorted_sets_equal(a, b);
}

proof fn lemma_sorted_sets_equal(a: Seq<Seq<char>>, b: Seq<Seq<char>>)
    requires
        forall|i: int, j: int| 0 <= i < j < a.len() ==> seq_lt(#[trigger] a[i], #[trigger] a[j]),
        forall|i: int, j: int| 0 <= i < j < b.len() ==> seq_lt(#[trigger] b[i], #[trigger] b[j]),
        forall|w: Seq<char>| a.contains(w) <==> b.contains(w),
    ensures
        a == b,
    decreases a.len() + b.len(),
{
    if a.len() == 0 {
        if b.len() > 0 {
            assert(b.contains(b[0]));
        }
        assert(a =~= b);
    } else if b.len() == 0 {
        assert(a.contains(a[0]));
    } else {
        assert(a.contains(a[0]));
        let j = choose|j: int| 0 <= j < b.len() && b[j] == a[0];
        assert(b.contains(b[0]));
        let i = choose|i: int| 0 <= i < a.len() && a[i] == b[0];
        if i > 0 {
            assert(seq_lt(a[0], a[i]));
        }
        if j > 0 {
            assert(seq_lt(b[0], b[j]));
        }
        if a[0] != b[0] {
            if i > 0 && j > 0 {
                lemma_lt_asymmetric(a[0], b[0]);
            }
        }
        assert(a[0] == b[0]) by {
            if i > 0 && j > 0 {
                lemma_lt_asymmetric(a[0], b[0]);
            }
        }
        let a1 = a.drop_first();
        let b1 = b.drop_first();
        assert forall|w: Seq<char>| a1.contains(w) <==> b1.contains(w) by {
            if a1.contains(w) {
                let k = choose|k: int| 0 <= k < a1.len() && a1[k] == w;
                assert(a[k + 1] == w);
                assert(seq_lt(a[0], w));
                lemma_lt_irreflexive(w);
                assert(b.contains(w));
                let m = choose|m: int| 0 <= m < b.len() && b[m] == w;
                assert(m != 0);
                assert(b1[m - 1] == w);
            }
            if b1.contains(w) {
                let k = choose|k: int| 0 <= k < b1.len() && b1[k] == w;
                assert(b[k + 1] == w);
                assert(seq_lt(b[0], w));
                lemma_lt_irreflexive(w);
                assert(a.contains(w));
                let m = choose|m: int| 0 <= m < a.len() && a[m] == w;
                assert(m != 0);
                assert(a1[m - 1] == w);
            }
        }
        lemma_sorted_sets_equal(a1, b1);
        assert(a =~= seq![a[0]] + a1);
        assert(b =~= seq![b[0]] + b1);
    }
}

/// The works holding anchorless rows, ascending.
pub open spec fn the_works(rows: Seq<ClassifiedRow>) -> Seq<Seq<char>> {
    choose|ws: Seq<Seq<char>>| works_listed(rows, ws)
}

/// What step 2 does with work `w`, by its winning row.
pub open spec fn merge_outcome(rows: Seq<ClassifiedRow>, w: Seq<char>) -> Result<Seq<char>, Seq<char>> {
    merge_decision(w, rows[choose|i: int| is_winner(rows, w, i)])
}

pub open spec fn merge_blocked(rows: Seq<ClassifiedRow>, ws: Seq<Seq<char>>) -> Seq<(Seq<char>, Seq<char>)>
    decreases ws.len(),
{
    if ws.len() == 0 {
        Seq::empty()
    } else {
        let prev = merge_blocked(rows, ws.drop_last());
        match merge_outcome(rows, ws.last()) {
            Err(why) => prev.push((ws.last(), why)),
            Ok(_) => prev,
        }
    }
}

pub open spec fn merge_targets(rows: Seq<ClassifiedRow>, ws: Seq<Seq<char>>) -> Seq<(Seq<char>, Seq<char>)>
    decreases ws.len(),
{
    if ws.len() == 0 {
        Seq::empty()
    } else {
        let prev = merge_targets(rows, ws.drop_last());
        match merge_outcome(rows, ws.last()) {
            Ok(t) => prev.push((ws.last(), t)),
            Err(_) => prev,
        }
    }
}

pub open spec fn merge_pairs(v: Seq<Merge>) -> Seq<(Seq<char>, Seq<char>)> {
    v.map_values(|m: Merge| (m.from_work@, m.to_work@))
}

proof fn lemma_winner_unique(rows: Seq<ClassifiedRow>, w: Seq<char>, a: int, b: int)
    requires
        is_winner(rows, w, a),
        is_winner(rows, w, b),
    ensures
        a == b,
{
    if a != b {
        assert(anchorless_on(rows, w, a));
        assert(anchorless_on(rows, w, b));
        lemma_ranks_before_order(rows[a], rows[b], rows[a]);
    }
}

fn not_mirrored_text(uuid: &Option<String>) -> (r: String)
    ensures
        r@ == not_mirrored(opt_text(*uuid)),
{
    let mut r = string_of("uuid ");
    match uuid {
        Some(u) => push_str(&mut r, u.as_str()),
        None => {},
    }
    push_str(&mut r, " is not mirrored directly anywhere \u{2014} a fresh MangaDex ingest is needed, not a merge");
    r
}

/// Step 2's plan: each work holding anchorless rows (in ascending order) is merged
/// into the work that owns its winning row's UUID, or blocked with the reason. The
/// winner is the row with the most chapters, then the smallest row id.
pub fn merge_plan(rows: &[ClassifiedRow]) -> (r: (StepReport, Vec<Merge>))
    ensures
        r.0.considered == the_works(rows@).len(),
        r.0.acted == r.1@.len(),
        pair_views(r.0.blocked@) == merge_blocked(rows@, the_works(rows@)),
        merge_pairs(r.1@) == merge_targets(rows@, the_works(rows@)),
        forall|k: int| 0 <= k < r.1@.len() ==> str_seq(#[trigger] r.1@[k].rows@) == merge_row_ids(rows@, r.1@[k].from_work@),
{
    let works = anchorless_works(rows);
    let ghost ws = str_seq(works@);
    proof {
        lemma_works_listed_unique(rows@, ws, the_works(rows@));
    }
    let mut report = StepReport { considered: 0, acted: 0, blocked: Vec::new() };
    let mut merges: Vec<Merge> = Vec::new();
    let mut k: usize = 0;
    while k < works.len()
        invariant
            k <= works.len(),
            ws == str_seq(works@),
            works_listed(rows@, ws),
            report.considered == k,
            report.acted == merges@.len(),
            merges@.len() <= k,
            pair_views(report.blocked@) == merge_blocked(rows@, ws.take(k as int)),
            merge_pairs(merges@) == merge_targets(rows@, ws.take(k as int)),
            forall|m: int| 0 <= m < merges@.len() ==> str_seq(#[trigger] merges@[m].rows@) == merge_row_ids(rows@, merges@[m].from_work@),
        decreases works.len() - k,
    {
        let w = &works[k];
        let ghost wv = w@;
        assert(ws[k as int] == wv);
        assert(ws.contains(wv));
        let ghost pre = ws.take(k as int + 1);
        assert(pre.drop_last() == ws.take(k as int));
        assert(pre.last() == wv);
        let b = find_winner(rows, w);
        proof {
            let c = choose|i: int| is_winner(rows@, wv, i);
            lemma_winner_unique(rows@, wv, b as int, c);
        }
        let winner = &rows[b];
        report.considered = report.considered + 1;
        match &winner.uuid_owner_work {
            None => {
                let why = not_mirrored_text(&winner.mangadex_uuid);
                let ghost old_b = report.blocked@;
                report.blocked.push((string_of(w.as_str()), why));
                assert(pair_views(report.blocked@) =~= pair_views(old_b).push((wv, not_mirrored(opt_text(winner.mangadex_uuid)))));
            },
            Some(target) => {
                if str_eq(target.as_str(), w.as_str()) {
                    let ghost old_b = report.blocked@;
                    report.blocked.push((string_of(w.as_str()), string_of("uuid already anchors this work")));
                    assert(pair_views(report.blocked@) =~= pair_views(old_b).push((wv, "uuid already anchors this work"@)));
                } else {
                    let ghost old_m = merges@;
                    let ids = ranked_ids(rows, w);
                    merges.push(Merge { from_work: string_of(w.as_str()), to_work: string_of(target.as_str()), rows: ids });
                    report.acted = report.acted + 1;
                    assert(merge_pairs(merges@) =~= merge_pairs(old_m).push((wv, target@)));
                    assert forall|m: int| 0 <= m < merges@.len() implies str_seq(#[trigger] merges@[m].rows@) == merge_row_ids(rows@, merges@[m].from_work@) by {
                        if m < old_m.len() {
                            assert(merges@[m] == old_m[m]);
                        }
                    }
                }
            },
        }
        k = k + 1;
        assert(ws.take(k as int) == pre);
    }
    assert(ws.take(works.len() as int) == ws);
    (report, merges)
}

/// Step 2 accounts for every anchorless work: each is merged or blocked, exactly once,
/// and a work is never merged into itself.
pub proof fn lemma_merge_accounts_for_every_work(rows: Seq<ClassifiedRow>, ws: Seq<Seq<char>>)
    ensures
        merge_blocked(rows, ws).len() + merge_targets(rows, ws).len() == ws.len(),
        forall|k: int| 0 <= k < merge_targets(rows, ws).len() ==> (#[trigger] merge_targets(rows, ws)[k]).0 != merge_targets(rows, ws)[k].1,
    decreases ws.len(),
{
    if ws.len() > 0 {
        lemma_merge_accounts_for_every_work(rows, ws.drop_last());
        let prev = merge_targets(rows, ws.drop_last());
        let cur = merge_targets(rows, ws);
        assert forall|k: int| 0 <= k < cur.len() implies (#[trigger] cur[k]).0 != cur[k].1 by {
            if k < prev.len() {
                assert(cur[k] == prev[k]);
            }
        }
    }
}

// ---------------------------------------------------------------------------
// The delete: selection and the two opt-ins
// ---------------------------------------------------------------------------

/// What the delete did, or would do.
#[derive(Debug, Default, Clone, PartialEq, Eq)]
pub struct DeleteReport {
    /// Rows proven redundant at the UUID level.
    pub deletable: u64,
    /// Rows actually deleted (0 unless both opt-ins were given).
    pub deleted: u64,
    /// `chapter` rows that will cascade with them.
    pub cascading_chapters: i64,
    /// Rows held back because the split step moved them.
    pub withheld_split: u64,
    /// `series_scan_state` rows retired alongside them.
    pub scan_states: u64,
    /// The redundancy check's verdict. The delete refuses to run while this is non-empty.
    pub gate: GateReport,
}

/// Whether a row was disposed of by the split step.
pub open spec fn disposed_split(r: ClassifiedRow) -> bool {
    r.disposition matches Some(d) && d@ == "split"@
}

/// A row the delete removes.
pub open spec fn delete_target(r: ClassifiedRow, include_split: bool) -> bool {
    row_verdict(r) == Verdict::Redundant && (include_split || !disposed_split(r))
}

/// A redundant row the delete holds back because the split step moved it.
pub open spec fn withheld(r: ClassifiedRow, include_split: bool) -> bool {
    row_verdict(r) == Verdict::Redundant && !include_split && disposed_split(r)
}

/// Indices of the rows the delete removes, in order.
pub open spec fn target_indices(rows: Seq<ClassifiedRow>, include_split: bool) -> Seq<int>
    decreases rows.len(),
{
    if rows.len() == 0 {
        Seq::<int>::empty()
    } else if delete_target(rows.last(), include_split) {
        target_indices(rows.drop_last(), include_split).push(rows.len() - 1)
    } else {
        target_indices(rows.drop_last(), include_split)
    }
}

pub open spec fn withheld_count(rows: Seq<ClassifiedRow>, include_split: bool) -> nat
    decreases rows.len(),
{
    if rows.len() == 0 {
        0
    } else {
        withheld_count(rows.drop_last(), include_split) + if withheld(rows.last(), include_split) {
            1nat
        } else {
            0nat
        }
    }
}

pub open spec fn target_chapters(rows: Seq<ClassifiedRow>, include_split: bool) -> int
    decreases rows.len(),
{
    if rows.len() == 0 {
        0
    } else {
        target_chapters(rows.drop_last(), include_split) + if delete_target(
            rows.last(),
            include_split,
        ) {
            rows.last().chapters as int
        } else {
            0
        }
    }
}

/// Whether scheduled series id `s` belongs to one of the target rows.
pub open spec fn scheduled_for_target(
    rows: Seq<ClassifiedRow>,
    include_split: bool,
    s: Seq<char>,
) -> bool {
    exists|i: int| 0 <= i < rows.len() && delete_target(rows[i], include_split) && rows[i].suwayomi_key@ == s
}

/// Scheduled series ids (in `scheduled`) that belong to a target row.
pub open spec fn scan_state_count(
    rows: Seq<ClassifiedRow>,
    include_split: bool,
    scheduled: Seq<Seq<char>>,
) -> nat
    decreases scheduled.len(),
{
    if scheduled.len() == 0 {
        0
    } else {
        scan_state_count(rows, include_split, scheduled.drop_last()) + if scheduled_for_target(
            rows,
            include_split,
            scheduled.last(),
        ) {
            1nat
        } else {
            0nat
        }
    }
}

proof fn lemma_target_bounds(rows: Seq<ClassifiedRow>, include_split: bool)
    requires
        chapters_nonneg(rows),
    ensures
        0 <= target_chapters(rows, include_split) <= chapters_total(rows),
        target_indices(rows, include_split).len() + withheld_count(rows, include_split) <= rows.len(),
        forall|k: int| 0 <= k < target_indices(rows, include_split).len() ==>
            0 <= #[trigger] target_indices(rows, include_split)[k] < rows.len(),
    decreases rows.len(),
{
    if rows.len() > 0 {
        lemma_target_bounds(rows.drop_last(), include_split);
        let t = target_indices(rows.drop_last(), include_split);
        if delete_target(rows.last(), include_split) {
            assert forall|k: int| 0 <= k < t.len() + 1 implies 0 <= #[trigger] t.push(rows.len() - 1)[k]
                < rows.len() by {
                if k < t.len() {
                    assert(t.push(rows.len() - 1)[k] == t[k]);
                }
            }
        }
    }
}

/// The delete's dry-run report: which rows it would remove (returned as indices into
/// `rows`), how many it withholds, the chapters that cascade, and how many of the
/// `scheduled` series ids would lose their scan schedule. Nothing is written here;
/// `deleted` is 0.
pub fn delete_plan(
    rows: &[ClassifiedRow],
    gate_report: GateReport,
    scheduled: &[String],
    include_split: bool,
) -> (r: (DeleteReport, Vec<usize>))
    requires
        rows@.len() <= u64::MAX,
        scheduled@.len() <= u64::MAX,
        chapters_nonneg(rows@),
        chapters_total(rows@) <= i64::MAX,
    ensures
        r.0.gate == gate_report,
        r.0.deleted == 0,
        r.0.deletable == r.1@.len(),
        r.1@.map_values(|i: usize| i as int) == target_indices(rows@, include_split),
        r.0.withheld_split == withheld_count(rows@, include_split),
        r.0.cascading_chapters == target_chapters(rows@, include_split),
        r.0.scan_states == scan_state_count(
            rows@,
            include_split,
            scheduled@.map_values(|s: String| s@),
        ),
{
    let mut report = DeleteReport {
        deletable: 0,
        deleted: 0,
        cascading_chapters: 0,
        withheld_split: 0,
        scan_states: 0,
        gate: gate_report,
    };
    let mut targets: Vec<usize> = Vec::new();
    let mut i: usize = 0;
    while i < rows.len()
        invariant
            i <= rows.len(),
            rows@.len() <= u64::MAX,
            chapters_nonneg(rows@),
            chapters_total(rows@) <= i64::MAX,
            report.gate == gate_report,
            report.deleted == 0,
            report.scan_states == 0,
            report.deletable == targets@.len(),
            targets@.map_values(|i: usize| i as int) == target_indices(rows@.take(i as int), include_split),
            report.withheld_split == withheld_count(rows@.take(i as int), include_split),
            report.cascading_chapters == target_chapters(rows@.take(i as int), include_split),
        decreases rows.len() - i,
    {
        let r = &rows[i];
        let ghost pre = rows@.take(i as int + 1);
        assert(pre.drop_last() == rows@.take(i as int));
        assert(pre.last() == *r);
        proof {
            lemma_target_bounds(pre, include_split);
            lemma_target_bounds(rows@.take(i as int), include_split);
            lemma_chapters_total_prefix(rows@, i as int + 1);
        }
        if r.verdict() == Verdict::Redundant {
            let split = match &r.disposition {
                Some(d) => str_eq(d.as_str(), "split"),
                None => false,
            };
            if split && !include_split {
                report.withheld_split = report.withheld_split + 1;
            } else {
                report.cascading_chapters = report.cascading_chapters + r.chapters;
                let ghost old_t = targets@;
                targets.push(i);
                report.deletable = report.deletable + 1;
                assert(targets@.map_values(|k: usize| k as int) =~= old_t.map_values(
                    |k: usize| k as int,
                ).push(i as int));
            }
        }
        i = i + 1;
    }
    assert(rows@.take(rows.len() as int) == rows@);
    proof {
        lemma_target_bounds(rows@, include_split);
        assert forall|k: int| 0 <= k < targets@.len() implies 0 <= #[trigger] targets@[k]
            < rows@.len() by {
            assert(targets@.map_values(|i: usize| i as int)[k] == targets@[k] as int);
        }
    }
    // Schedules that belong to a target row.
    let ghost sv = scheduled@.map_values(|s: String| s@);
    let mut n: u64 = 0;
    let mut j: usize = 0;
    while j < scheduled.len()
        invariant
            j <= scheduled.len(),
            scheduled@.len() <= u64::MAX,
            sv == scheduled@.map_values(|s: String| s@),
            targets@.map_values(|i: usize| i as int) == target_indices(rows@, include_split),
            forall|k: int| 0 <= k < targets@.len() ==> 0 <= #[trigger] targets@[k] < rows@.len(),
            n == scan_state_count(rows@, include_split, sv.take(j as int)),
            n <= j,
        decreases scheduled.len() - j,
    {
        assert(sv.take(j as int + 1).drop_last() == sv.take(j as int));
        assert(sv.take(j as int + 1).last() == scheduled[j as int]@);
        let mut hit = false;
        let mut k: usize = 0;
        while k < targets.len()
            invariant
                k <= targets.len(),
                j < scheduled.len(),
                targets@.map_values(|i: usize| i as int) == target_indices(rows@, include_split),
                forall|q: int| 0 <= q < targets@.len() ==> 0 <= #[trigger] targets@[q] < rows@.len(),
                hit ==> scheduled_for_target(rows@, include_split, scheduled[j as int]@),
                !hit ==> forall|q: int| 0 <= q < k ==> rows@[#[trigger] targets@[q] as int].suwayomi_key@
                    != scheduled[j as int]@,
            decreases targets.len() - k,
        {
            let t = targets[k];
            proof {
                lemma_target_index_is_target(rows@, include_split, k as int);
            }
            if rows[t].suwayomi_key == scheduled[j] {
                hit = true;
            }
            k = k + 1;
        }
        proof {
            if !hit && scheduled_for_target(rows@, include_split, scheduled[j as int]@) {
                let w = choose|w: int| 0 <= w < rows@.len() && delete_target(rows@[w], include_split)
                    && rows@[w].suwayomi_key@ == scheduled[j as int]@;
                lemma_target_is_indexed(rows@, include_split, w);
                let q = choose|q: int| 0 <= q < target_indices(rows@, include_split).len()
                    && target_indices(rows@, include_split)[q] == w;
                assert(targets@.map_values(|i: usize| i as int)[q] == w);
                assert(rows@[targets@[q] as int].suwayomi_key@ != scheduled[j as int]@);
            }
        }
        if hit {
            n = n + 1;
        }
        j = j + 1;
    }
    assert(sv.take(scheduled.len() as int) == sv);
    report.scan_states = n;
    (report, targets)
}

proof fn lemma_target_index_is_target(rows: Seq<ClassifiedRow>, include_split: bool, q: int)
    requires
        0 <= q < target_indices(rows, include_split).len(),
    ensures
        0 <= target_indices(rows, include_split)[q] < rows.len(),
        delete_target(rows[target_indices(rows, include_split)[q]], include_split),
    decreases rows.len(),
{
    let t = target_indices(rows.drop_last(), include_split);
    if delete_target(rows.last(), include_split) && q == t.len() {
    } else {
        if delete_target(rows.last(), include_split) {
            assert(target_indices(rows, include_split)[q] == t[q]);
        }
        lemma_target_index_is_target(rows.drop_last(), include_split, q);
        assert(rows.drop_last()[t[q]] == rows[t[q]]);
    }
}

proof fn lemma_target_is_indexed(rows: Seq<ClassifiedRow>, include_split: bool, w: int)
    requires
        0 <= w < rows.len(),
        delete_target(rows[w], include_split),
    ensures
        exists|q: int| 0 <= q < target_indices(rows, include_split).len()
            && target_indices(rows, include_split)[q] == w,
    decreases rows.len(),
{
    let t = target_indices(rows.drop_last(), include_split);
    if w == rows.len() - 1 {
        assert(rows.last() == rows[w]);
        assert(target_indices(rows, include_split) == t.push(w));
        assert(target_indices(rows, include_split)[t.len() as int] == w);
    } else {
        assert(rows.drop_last()[w] == rows[w]);
        lemma_target_is_indexed(rows.drop_last(), include_split, w);
        let q = choose|q: int| 0 <= q < t.len() && t[q] == w;
        if delete_target(rows.last(), include_split) {
            assert(target_indices(rows, include_split) == t.push(rows.len() - 1));
            assert(t.push(rows.len() - 1)[q] == t[q]);
        } else {
            assert(target_indices(rows, include_split) == t);
        }
        assert(0 <= q < target_indices(rows, include_split).len()
            && target_indices(rows, include_split)[q] == w);
    }
}

/// What the delete may do with the two opt-ins and the redundancy check's verdict.
#[derive(Debug, Clone, Copy, PartialEq, Eq, Structural)]
pub enum DeleteGo {
    /// A dry run: report only, write nothing.
    DryRun,
    /// Both opt-ins given, but the redundancy check failed: refuse before writing anything.
    Refuse,
    /// Both opt-ins given and the redundancy check is clean: delete the targets.
    Proceed,
}

pub open spec fn delete_go_rule(apply: Apply, confirm: Option<Seq<char>>, gate_clean: bool) -> DeleteGo {
    if apply == Apply::Yes && confirm == Some(DELETE_CONFIRM_TOKEN@) {
        if gate_clean { DeleteGo::Proceed } else { DeleteGo::Refuse }
    } else {
        DeleteGo::DryRun
    }
}

/// The delete is inert unless given `Apply::Yes` and the confirmation token, and it
/// refuses to write while the redundancy check reports any failure.
pub fn delete_go(apply: Apply, confirm: Option<&str>, gate_report: &GateReport) -> (r: DeleteGo)
    ensures
        r == delete_go_rule(
            apply,
            match confirm { Some(c) => Some(c@), None => None },
            gate_report.failures@.len() == 0,
        ),
{
    let confirmed = match confirm {
        Some(c) => str_eq(c, DELETE_CONFIRM_TOKEN),
        None => false,
    };
    if !apply.is_yes() || !confirmed {
        return DeleteGo::DryRun;
    }
    if !gate_report.is_clean() {
        DeleteGo::Refuse
    } else {
        DeleteGo::Proceed
    }
}

/// Nothing is deleted without both opt-ins and a clean redundancy check.
pub proof fn lemma_delete_needs_both_opt_ins_and_a_clean_gate(
    apply: Apply,
    confirm: Option<Seq<char>>,
    gate_clean: bool,
)
    ensures
        delete_go_rule(apply, confirm, gate_clean) == DeleteGo::Proceed ==> (apply == Apply::Yes
            && confirm == Some(DELETE_CONFIRM_TOKEN@) && gate_clean),
{
}

// ---------------------------------------------------------------------------
// SQL placeholders
// ---------------------------------------------------------------------------

/// `?, ?, ?` with `n` marks.
pub open spec fn placeholder_list(n: nat) -> Seq<char>
    decreases n,
{
    if n == 0 {
        Seq::<char>::empty()
    } else if n == 1 {
        seq!['?']
    } else {
        placeholder_list((n - 1) as nat) + seq![',', ' ', '?']
    }
}

/// `?, ?, ?` for an `IN (...)` list of `n` values.
pub fn placeholders(n: usize) -> (r: String)
    ensures
        r@ == placeholder_list(n as nat),
{
    let mut r = String::new();
    let mut i: usize = 0;
    while i < n
        invariant
            i <= n,
            r@ == placeholder_list(i as nat),
        decreases n - i,
    {
        if i > 0 {
            push_char(&mut r, ',');
            push_char(&mut r, ' ');
        }
        push_char(&mut r, '?');
        assert(r@ =~= placeholder_list((i + 1) as nat));
        i = i + 1;
    }
    r
}

/// The four verdict counts add up to the number of rows.
pub proof fn lemma_census_partitions_rows(rows: Seq<ClassifiedRow>)
    ensures
        count_verdict(rows, Verdict::Redundant) + count_verdict(rows, Verdict::Mismatch)
            + count_verdict(rows, Verdict::Anchorless) + count_verdict(rows, Verdict::Unresolved)
            == rows.len(),
    decreases rows.len(),
{
    if rows.len() > 0 {
        lemma_census_partitions_rows(rows.drop_last());
    }
}

// ---------------------------------------------------------------------------
// The command line
// ---------------------------------------------------------------------------

/// The stages of the command line, in the order they are meant to run.
#[derive(Debug, Clone, Copy, PartialEq, Eq, Structural)]
pub enum Stage {
    Resolve,
    Report,
    Merge,
    Split,
    Delete,
}

pub open spec fn stage_rule(s: Seq<char>) -> Option<Stage> {
    if s == "resolve"@ {
        Some(Stage::Resolve)
    } else if s == "report"@ {
        Some(Stage::Report)
    } else if s == "merge"@ {
        Some(Stage::Merge)
    } else if s == "split"@ {
        Some(Stage::Split)
    } else if s == "delete"@ {
        Some(Stage::Delete)
    } else {
        None
    }
}

/// The stage a command-line word names, if any.
pub fn stage_of(s: &str) -> (r: Option<Stage>)
    ensures
        r == stage_rule(s@),
{
    if str_eq(s, "resolve") {
        Some(Stage::Resolve)
    } else if str_eq(s, "report") {
        Some(Stage::Report)
    } else if str_eq(s, "merge") {
        Some(Stage::Merge)
    } else if str_eq(s, "split") {
        Some(Stage::Split)
    } else if str_eq(s, "delete") {
        Some(Stage::Delete)
    } else {
        None
    }
}

/// The parsed command line: `phase-f <stage> [--apply] [--confirm <token>]
/// [--include-split] [--all]`.
#[derive(Debug, Clone, PartialEq, Eq)]
pub struct CliArgs {
    /// The first argument, `report` when there is none.
    pub stage: String,
    pub apply: Apply,
    /// The argument after the first `--confirm`, if there is one.
    pub confirm: Option<String>,
    pub include_split: bool,
    /// List every failing row, not only the first 50.
    pub list_all: bool,
}

pub open spec fn arg_present(args: Seq<Seq<char>>, flag: Seq<char>) -> bool {
    exists|i: int| 0 <= i < args.len() && args[i] == flag
}

/// The argument after the first `--confirm`.
pub open spec fn confirm_arg(args: Seq<Seq<char>>) -> Option<Seq<char>>
    decreases args.len(),
{
    if args.len() == 0 {
        None
    } else if args[0] == "--confirm"@ {
        if args.len() > 1 { Some(args[1]) } else { None }
    } else {
        confirm_arg(args.drop_first())
    }
}

pub open spec fn arg_views(args: Seq<String>) -> Seq<Seq<char>> {
    args.map_values(|a: String| a@)
}

fn has_arg(args: &[String], flag: &str) -> (r: bool)
    ensures
        r == arg_present(arg_views(args@), flag@),
{
    let ghost v = arg_views(args@);
    let mut i: usize = 0;
    while i < args.len()
        invariant
            i <= args.len(),
            v == arg_views(args@),
            forall|j: int| 0 <= j < i ==> v[j] != flag@,
        decreases args.len() - i,
    {
        if str_eq(args[i].as_str(), flag) {
            assert(v[i as int] == flag@);
            return true;
        }
        i = i + 1;
    }
    false
}

fn find_confirm(args: &[String]) -> (r: Option<String>)
    ensures
        match (r, confirm_arg(arg_views(args@))) {
            (Some(a), Some(b)) => a@ == b,
            (None, None) => true,
            _ => false,
        },
{
    let ghost v = arg_views(args@);
    let mut i: usize = 0;
    assert(v.skip(0) == v);
    while i < args.len()
        invariant
            i <= args.len(),
            v == arg_views(args@),
            confirm_arg(v) == confirm_arg(v.skip(i as int)),
        decreases args.len() - i,
    {
        assert(v.skip(i as int)[0] == args@[i as int]@);
        if str_eq(args[i].as_str(), "--confirm") {
            if i + 1 < args.len() {
                assert(v.skip(i as int)[1] == args@[i + 1]@);
                return Some(args[i + 1].clone());
            }
            return None;
        }
        assert(v.skip(i as int).drop_first() == v.skip(i as int + 1));
        i = i + 1;
    }
    None
}

/// Parses the phase-F command line.
pub fn parse_cli_args(args: &[String]) -> (r: CliArgs)
    ensures
        r.stage@ == (if args@.len() > 0 { args@[0]@ } else { "report"@ }),
        r.apply == (if arg_present(arg_views(args@), "--apply"@) { Apply::Yes } else { Apply::No }),
        match (r.confirm, confirm_arg(arg_views(args@))) {
            (Some(a), Some(b)) => a@ == b,
            (None, None) => true,
            _ => false,
        },
        r.include_split == arg_present(arg_views(args@), "--include-split"@),
        r.list_all == arg_present(arg_views(args@), "--all"@),
{
    let stage = if args.len() > 0 { args[0].clone() } else { string_of("report") };
    let apply = if has_arg(args, "--apply") { Apply::Yes } else { Apply::No };
    let confirm = find_confirm(args);
    CliArgs {
        stage,
        apply,
        confirm,
        include_split: has_arg(args, "--include-split"),
        list_all: has_arg(args, "--all"),
    }
}

} // verus!
