//! Discovery: which sources are polled, what a poll of a source's upload-ordered
//! listing does with the previous snapshot, and which series are news since then.
use vstd::prelude::*;
use crate::text::str_eq;

verus! {

/// `id` sits at rank `i` of `prev` and at no later rank.
pub open spec fn last_rank(prev: Seq<i64>, id: i64, i: int) -> bool {
    0 <= i < prev.len() && prev[i] == id && forall|j: int| i < j < prev.len() ==> prev[j] != id
}

/// The rank `id` had in the previous snapshot (its last position there), if any.
pub open spec fn prev_rank(prev: Seq<i64>, id: i64) -> Option<int> {
    if exists|i: int| last_rank(prev, id, i) {
        Some(choose|i: int| last_rank(prev, id, i))
    } else {
        None
    }
}

/// Whether the series at rank `k` of `curr` is news: it moved up from its previous
/// rank, or it is new and landed inside the depth the previous snapshot covered.
pub open spec fn surfaced(prev: Seq<i64>, curr: Seq<i64>, k: int) -> bool {
    match prev_rank(prev, curr[k]) {
        Some(r) => k < r,
        None => k < prev.len(),
    }
}

/// The series of `curr` that are news, in `curr`'s order.
pub open spec fn surfaced_ids(prev: Seq<i64>, curr: Seq<i64>) -> Seq<i64>
    decreases curr.len(),
{
    if curr.len() == 0 {
        Seq::empty()
    } else {
        let head = surfaced_ids(prev, curr.drop_last());
        if surfaced(prev, curr, curr.len() - 1) {
            head.push(curr.last())
        } else {
            head
        }
    }
}

/// The previous rank of `id` in `prev`.
fn find_prev_rank(prev: &[i64], id: i64) -> (r: Option<usize>)
    ensures
        match (r, prev_rank(prev@, id)) {
            (Some(i), Some(j)) => i as int == j,
            (None, None) => true,
            _ => false,
        },
{
    let mut i: usize = prev.len();
    while i > 0
        invariant
            i <= prev.len(),
            forall|j: int| i <= j < prev.len() ==> prev@[j] != id,
        decreases i,
    {
        if prev[i - 1] == id {
            let ghost k = (i - 1) as int;
            assert(last_rank(prev@, id, k));
            let ghost c = choose|c: int| last_rank(prev@, id, c);
            assert(c == k) by {
                if c < k {
                    assert(prev@[k] == id);
                } else if c > k {
                }
            }
            return Some(i - 1);
        }
        i = i - 1;
    }
    assert(!exists|c: int| last_rank(prev@, id, c));
    None
}

/// The series that moved up or entered between the previous snapshot `prev` and the
/// current one `curr` (both ranked best first). An id absent from `prev` counts only
/// when it landed at a rank `prev` covered, so a page that merely grew flags nothing.
pub fn moved_up_or_entered(prev: &[i64], curr: &[i64]) -> (r: Vec<i64>)
    ensures
        r@ == surfaced_ids(prev@, curr@),
{
    let mut out: Vec<i64> = Vec::new();
    let mut k: usize = 0;
    while k < curr.len()
        invariant
            k <= curr.len(),
            out@ == surfaced_ids(prev@, curr@.take(k as int)),
        decreases curr.len() - k,
    {
        let id = curr[k];
        let ghost pre = curr@.take(k as int + 1);
        assert(pre.drop_last() == curr@.take(k as int));
        assert(pre.last() == id);
        assert(surfaced(prev@, pre, k as int) == surfaced(prev@, curr@, k as int));
        let keep = match find_prev_rank(prev, id) {
            Some(old_rank) => k < old_rank,
            None => k < prev.len(),
        };
        if keep {
            out.push(id);
        }
        k = k + 1;
    }
    assert(curr@.take(curr.len() as int) == curr@);
    out
}

proof fn lemma_surfaced_listed(prev: Seq<i64>, curr: Seq<i64>, k: int)
    requires
        0 <= k < curr.len(),
        surfaced(prev, curr, k),
    ensures
        surfaced_ids(prev, curr).contains(curr[k]),
    decreases curr.len(),
{
    if k == curr.len() - 1 {
        let head = surfaced_ids(prev, curr.drop_last());
        assert(surfaced_ids(prev, curr) == head.push(curr.last()));
        assert(surfaced_ids(prev, curr)[head.len() as int] == curr[k]);
    } else {
        let d = curr.drop_last();
        assert(d[k] == curr[k]);
        assert(surfaced(prev, d, k));
        lemma_surfaced_listed(prev, d, k);
        let j = choose|j: int| 0 <= j < surfaced_ids(prev, d).len() && surfaced_ids(prev, d)[j] == curr[k];
        if surfaced(prev, curr, curr.len() - 1) {
            assert(surfaced_ids(prev, curr)[j] == curr[k]);
        } else {
            assert(surfaced_ids(prev, curr) == surfaced_ids(prev, d));
        }
    }
}

/// A series that moved up is flagged: when the id at rank `k` of `curr` last stood at
/// rank `r` of `prev` and `k < r`, it is in the result.
pub proof fn lemma_moved_up_is_flagged(prev: Seq<i64>, curr: Seq<i64>, k: int, r: int)
    requires
        0 <= k < curr.len(),
        0 <= r < prev.len(),
        prev[r] == curr[k],
        forall|j: int| r < j < prev.len() ==> prev[j] != curr[k],
        k < r,
    ensures
        surfaced_ids(prev, curr).contains(curr[k]),
{
    assert(last_rank(prev, curr[k], r));
    let c = choose|c: int| last_rank(prev, curr[k], c);
    assert(c == r);
    lemma_surfaced_listed(prev, curr, k);
}

/// A new series is flagged when it landed at a rank the previous snapshot covered.
pub proof fn lemma_entered_is_flagged(prev: Seq<i64>, curr: Seq<i64>, k: int)
    requires
        0 <= k < curr.len(),
        k < prev.len(),
        forall|j: int| 0 <= j < prev.len() ==> prev[j] != curr[k],
    ensures
        surfaced_ids(prev, curr).contains(curr[k]),
{
    assert(!exists|c: int| last_rank(prev, curr[k], c));
    lemma_surfaced_listed(prev, curr, k);
}

/// A series at rank `k` that last stood at rank `r <= k` of `prev` (held its place or
/// slid down) is not news at rank `k`.
pub proof fn lemma_held_or_slid_is_not_news(prev: Seq<i64>, curr: Seq<i64>, k: int, r: int)
    requires
        0 <= k < curr.len(),
        0 <= r < prev.len(),
        prev[r] == curr[k],
        forall|j: int| r < j < prev.len() ==> prev[j] != curr[k],
        r <= k,
    ensures
        !surfaced(prev, curr, k),
{
    assert(last_rank(prev, curr[k], r));
    let c = choose|c: int| last_rank(prev, curr[k], c);
    assert(c == r);
}

/// Every surfaced series is one of `curr`'s, at a rank where it is news.
pub proof fn lemma_surfaced_are_current(prev: Seq<i64>, curr: Seq<i64>)
    ensures
        forall|x: i64| #[trigger] surfaced_ids(prev, curr).contains(x) ==> exists|k: int|
            0 <= k < curr.len() && curr[k] == x && surfaced(prev, curr, k),
    decreases curr.len(),
{
    if curr.len() > 0 {
        let d = curr.drop_last();
        lemma_surfaced_are_current(prev, d);
        assert forall|x: i64| #[trigger] surfaced_ids(prev, curr).contains(x) implies exists|k: int|
            0 <= k < curr.len() && curr[k] == x && surfaced(prev, curr, k) by {
            if surfaced_ids(prev, d).contains(x) {
                let k = choose|k: int| 0 <= k < d.len() && d[k] == x && surfaced(prev, d, k);
                assert(curr[k] == x);
                assert(surfaced(prev, curr, k));
            } else {
                let k = curr.len() - 1;
                assert(curr[k] == x);
            }
        }
    }
}

/// No id occurs twice in `s`.
pub open spec fn distinct(s: Seq<i64>) -> bool {
    forall|i: int, j: int| 0 <= i < s.len() && 0 <= j < s.len() && i != j ==> s[i] != s[j]
}

proof fn lemma_rank_in_prefix(prev: Seq<i64>, curr: Seq<i64>, k: int)
    requires
        distinct(prev),
        0 <= k < prev.len(),
        k < curr.len(),
        curr[k] == prev[k],
    ensures
        !surfaced(prev, curr, k),
{
    assert(last_rank(prev, prev[k], k));
    let c = choose|c: int| last_rank(prev, prev[k], c);
    assert(c == k) by {
        if c != k {
            assert(prev[c] == prev[k]);
        }
    }
}

proof fn lemma_no_news_over_unchanged_prefix(prev: Seq<i64>, curr: Seq<i64>, n: int)
    requires
        distinct(prev),
        0 <= n <= curr.len(),
        forall|k: int| 0 <= k < n && k < prev.len() ==> curr[k] == prev[k],
    ensures
        surfaced_ids(prev, curr.take(n)).len() == 0,
    decreases n,
{
    if n > 0 {
        let t = curr.take(n);
        assert(t.drop_last() == curr.take(n - 1));
        lemma_no_news_over_unchanged_prefix(prev, curr, n - 1);
        let k = n - 1;
        if k < prev.len() {
            lemma_rank_in_prefix(prev, t, k);
        } else {
            match prev_rank(prev, t[k]) {
                Some(r) => {
                    let c = choose|c: int| last_rank(prev, t[k], c);
                    assert(c < prev.len());
                },
                None => {},
            }
        }
    }
}

/// A poll whose listing starts with the whole previous snapshot, in the same order
/// (an unchanged page, or one that only grew at its tail), flags nothing, when the
/// previous snapshot holds no id twice.
pub proof fn lemma_unchanged_or_grown_page_flags_nothing(prev: Seq<i64>, curr: Seq<i64>)
    requires
        distinct(prev),
        prev.len() <= curr.len(),
        curr.take(prev.len() as int) == prev,
    ensures
        surfaced_ids(prev, curr).len() == 0,
{
    assert forall|k: int| 0 <= k < curr.len() && k < prev.len() implies curr[k] == prev[k] by {
        assert(curr.take(prev.len() as int)[k] == curr[k]);
    }
    lemma_no_news_over_unchanged_prefix(prev, curr, curr.len() as int);
    assert(curr.take(curr.len() as int) == curr);
}


// ---------------------------------------------------------------------------
// Polling a source
// ---------------------------------------------------------------------------

/// How many of a listing's leading series make up a snapshot.
pub const SNAPSHOT_WINDOW: usize = 40;

/// What one poll of a source does, given the current listing's leading window.
#[derive(Debug, Clone, PartialEq, Eq)]
pub enum PollStep {
    /// The listing came back empty: a health signal, not a diff input; the snapshot
    /// is left as it is and nothing is triggered.
    Skip,
    /// First sighting of the source: store the window as its baseline, trigger nothing.
    Baseline(Vec<i64>),
    /// Trigger a scan of `flagged`, then store `snapshot` as the new order.
    Diff { flagged: Vec<i64>, snapshot: Vec<i64> },
}

/// The snapshot window of a listing: its first `SNAPSHOT_WINDOW` series.
pub open spec fn window_of(listing: Seq<i64>) -> Seq<i64> {
    if listing.len() <= SNAPSHOT_WINDOW {
        listing
    } else {
        listing.take(SNAPSHOT_WINDOW as int)
    }
}

/// The leading window of a listing.
pub fn snapshot_window(listing: &[i64]) -> (r: Vec<i64>)
    ensures
        r@ == window_of(listing@),
{
    let n: usize = if listing.len() <= SNAPSHOT_WINDOW { listing.len() } else { SNAPSHOT_WINDOW };
    let mut out: Vec<i64> = Vec::new();
    let mut i: usize = 0;
    while i < n
        invariant
            i <= n,
            n <= listing.len(),
            n == (if listing.len() <= SNAPSHOT_WINDOW { listing.len() } else { SNAPSHOT_WINDOW }),
            out@ == listing@.take(i as int),
        decreases n - i,
    {
        out.push(listing[i]);
        assert(listing@.take(i as int + 1) == listing@.take(i as int).push(listing@[i as int]));
        i = i + 1;
    }
    assert(listing@.take(listing.len() as int) == listing@);
    out
}

/// A poll of a source whose latest listing is `listing`, against the stored snapshot
/// `prev` (`None` on first sighting).
pub fn poll_step(listing: &[i64], prev: Option<&[i64]>) -> (r: PollStep)
    ensures
        listing@.len() == 0 ==> r == PollStep::Skip,
        listing@.len() > 0 ==> match prev {
            None => r matches PollStep::Baseline(w) && w@ == window_of(listing@),
            Some(p) => r matches PollStep::Diff { flagged, snapshot }
                && snapshot@ == window_of(listing@)
                && flagged@ == surfaced_ids(p@, window_of(listing@)),
        },
{
    if listing.len() == 0 {
        return PollStep::Skip;
    }
    let curr = snapshot_window(listing);
    match prev {
        None => PollStep::Baseline(curr),
        Some(p) => {
            let flagged = moved_up_or_entered(p, curr.as_slice());
            PollStep::Diff { flagged, snapshot: curr }
        },
    }
}

// ---------------------------------------------------------------------------
// The sources polled
// ---------------------------------------------------------------------------

/// A source as the reader engine lists it.
#[derive(Debug, Clone, PartialEq, Eq)]
pub struct SourceEntry {
    pub id: String,
    pub lang: String,
    pub pkg_name: Option<String>,
}

/// The source's extension is one of the subscribed packages.
pub open spec fn subscribed_pkg(s: SourceEntry, subs: Seq<Seq<char>>) -> bool {
    match s.pkg_name {
        Some(p) => subs.contains(p@),
        None => false,
    }
}

/// The ids, in listing order, of the English sources of subscribed extensions.
pub open spec fn english_subscribed(sources: Seq<SourceEntry>, subs: Seq<Seq<char>>) -> Seq<Seq<char>>
    decreases sources.len(),
{
    if sources.len() == 0 {
        Seq::empty()
    } else {
        let s = sources.last();
        let rest = english_subscribed(sources.drop_last(), subs);
        if s.lang@ == "en"@ && subscribed_pkg(s, subs) {
            rest.push(s.id@)
        } else {
            rest
        }
    }
}

/// How many sources belong to a subscribed extension, whatever their language.
pub open spec fn pkg_match_count(sources: Seq<SourceEntry>, subs: Seq<Seq<char>>) -> nat
    decreases sources.len(),
{
    if sources.len() == 0 {
        0
    } else {
        pkg_match_count(sources.drop_last(), subs) + if subscribed_pkg(sources.last(), subs) { 1nat } else { 0nat }
    }
}

pub open spec fn string_views(v: Seq<String>) -> Seq<Seq<char>> {
    v.map_values(|s: String| s@)
}

fn is_subscribed(subs: &[String], p: &String) -> (b: bool)
    ensures
        b == string_views(subs@).contains(p@),
{
    let mut i: usize = 0;
    while i < subs.len()
        invariant
            i <= subs.len(),
            forall|j: int| 0 <= j < i ==> subs@[j]@ != p@,
        decreases subs.len() - i,
    {
        if str_eq(subs[i].as_str(), p.as_str()) {
            assert(string_views(subs@)[i as int] == p@);
            return true;
        }
        i = i + 1;
    }
    assert forall|j: int| 0 <= j < string_views(subs@).len() implies string_views(subs@)[j] != p@ by {
        assert(string_views(subs@)[j] == subs@[j]@);
    }
    false
}

/// The sources to poll: the English source of every subscribed extension, with the
/// number of sources under a subscribed package (which tells an uninstalled
/// subscription from one with no English source when the list comes back empty).
pub fn subscribed_english_sources(sources: &[SourceEntry], subs: &[String]) -> (r: (Vec<String>, usize))
    ensures
        string_views(r.0@) == english_subscribed(sources@, string_views(subs@)),
        r.1 == pkg_match_count(sources@, string_views(subs@)),
{
    let ghost sv = string_views(subs@);
    let mut ids: Vec<String> = Vec::new();
    let mut matches: usize = 0;
    let mut i: usize = 0;
    while i < sources.len()
        invariant
            i <= sources.len(),
            sv == string_views(subs@),
            string_views(ids@) == english_subscribed(sources@.take(i as int), sv),
            matches == pkg_match_count(sources@.take(i as int), sv),
            matches <= i,
        decreases sources.len() - i,
    {
        let s = &sources[i];
        let ghost pre = sources@.take(i as int + 1);
        assert(pre.drop_last() == sources@.take(i as int));
        assert(pre.last() == *s);
        let sub = match &s.pkg_name {
            Some(p) => is_subscribed(subs, p),
            None => false,
        };
        assert(sub == subscribed_pkg(*s, sv));
        if sub {
            matches = matches + 1;
            if str_eq(s.lang.as_str(), "en") {
                let ghost before = ids@;
                ids.push(s.id.clone());
                assert(string_views(ids@) == string_views(before).push(s.id@));
            }
        }
        i = i + 1;
    }
    assert(sources@.take(sources.len() as int) == sources@);
    (ids, matches)
}

} // verus!
