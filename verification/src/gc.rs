//! The circuit breaker of the cover-store garbage collector.
use vstd::prelude::*;
use std::collections::HashSet;
use crate::text::str_eq;

verus! {

/// The highest share of sampled cover ids, in percent, that may be orphans before the
/// collector refuses to delete anything.
pub const COVER_MAX_ORPHAN_PCT: u64 = 25;

/// A believable orphan rate: an empty sample, or at most `COVER_MAX_ORPHAN_PCT`
/// percent of the sample.
pub open spec fn orphan_rate_ok(orphans: nat, sampled: nat) -> bool {
    sampled == 0 || orphans * 100 <= sampled * COVER_MAX_ORPHAN_PCT
}

/// Whether `orphans` out of `sampled` probed ids is a believable orphan rate.
pub fn orphan_rate_sane(orphans: usize, sampled: usize) -> (b: bool)
    ensures
        b == orphan_rate_ok(orphans as nat, sampled as nat),
{
    if sampled == 0 {
        return true;
    }
    (orphans as u128) * 100 <= (sampled as u128) * (COVER_MAX_ORPHAN_PCT as u128)
}

/// The main database must hold at least this many works before work cover blobs are
/// swept; fewer means a broken or wrong main database.
pub const COVER_SWEEP_MIN_WORKS: i64 = 10000;
/// The same floor for cached Suwayomi series before their cover blobs are swept.
pub const COVER_SWEEP_MIN_SERIES: i64 = 1000;
/// Ids probed before any delete to estimate the orphan rate.
pub const COVER_RATIO_SAMPLE: usize = 2000;
/// Ids read per keyset page of the sweep.
pub const COVER_SCAN_BATCH: usize = 500;
/// The most blobs one sweep run deletes.
pub const COVER_DELETE_BUDGET: usize = 1000;
/// Blobs written within this many hours are never deleted.
pub const COVER_ORPHAN_MIN_AGE_HOURS: i64 = 24;

/// Whether a sweep may run over a main database holding `live` owners, with this floor.
pub fn sweep_allowed(live: i64, floor: i64) -> (b: bool)
    ensures
        b == (live >= floor),
{
    live >= floor
}

/// Whether a run that deleted `deleted` blobs has spent its budget.
pub fn budget_spent(deleted: u64) -> (b: bool)
    ensures
        b == (deleted >= COVER_DELETE_BUDGET),
{
    deleted >= COVER_DELETE_BUDGET as u64
}

/// The ids of `ids` that are not in `live`, in order.
pub open spec fn missing_of<T>(ids: Seq<T>, live: spec_fn(T) -> bool) -> Seq<T>
    decreases ids.len(),
{
    if ids.len() == 0 {
        Seq::empty()
    } else if live(ids.last()) {
        missing_of(ids.drop_last(), live)
    } else {
        missing_of(ids.drop_last(), live).push(ids.last())
    }
}

/// The Suwayomi ids of a probe that have no live series row: the orphans.
pub fn missing_series_ids(ids: &[i64], live: &HashSet<i64>) -> (r: Vec<i64>)
    ensures
        r@ == missing_of(ids@, |x: i64| live@.contains(x)),
{
    broadcast use vstd::std_specs::hash::group_hash_axioms;
    let mut out: Vec<i64> = Vec::new();
    let mut i: usize = 0;
    while i < ids.len()
        invariant
            i <= ids.len(),
            out@ == missing_of(ids@.take(i as int), |x: i64| live@.contains(x)),
        decreases ids.len() - i,
    {
        let x = ids[i];
        assert(ids@.take(i as int + 1).drop_last() == ids@.take(i as int));
        assert(ids@.take(i as int + 1).last() == x);
        if !live.contains(&x) {
            out.push(x);
        }
        i = i + 1;
    }
    assert(ids@.take(ids.len() as int) == ids@);
    out
}

pub open spec fn str_views(v: Seq<String>) -> Seq<Seq<char>> {
    v.map_values(|s: String| s@)
}

fn listed(live: &[String], x: &str) -> (b: bool)
    ensures
        b == str_views(live@).contains(x@),
{
    let mut i: usize = 0;
    while i < live.len()
        invariant
            i <= live.len(),
            forall|j: int| 0 <= j < i ==> live@[j]@ != x@,
        decreases live.len() - i,
    {
        if str_eq(live[i].as_str(), x) {
            assert(str_views(live@)[i as int] == x@);
            return true;
        }
        i = i + 1;
    }
    assert forall|j: int| 0 <= j < str_views(live@).len() implies str_views(live@)[j] != x@ by {
        assert(str_views(live@)[j] == live@[j]@);
    }
    false
}

/// The work ids of a probe that have no live work row: the orphans.
pub fn missing_work_ids(ids: &[String], live: &[String]) -> (r: Vec<String>)
    ensures
        str_views(r@) == missing_of(str_views(ids@), |x: Seq<char>| str_views(live@).contains(x)),
{
    let mut out: Vec<String> = Vec::new();
    let mut i: usize = 0;
    while i < ids.len()
        invariant
            i <= ids.len(),
            str_views(out@) == missing_of(str_views(ids@.take(i as int)), |x: Seq<char>| str_views(live@).contains(x)),
        decreases ids.len() - i,
    {
        let ghost pre = str_views(ids@.take(i as int + 1));
        assert(pre.drop_last() == str_views(ids@.take(i as int)));
        assert(pre.last() == ids@[i as int]@);
        if !listed(live, ids[i].as_str()) {
            out.push(crate::text::string_of(ids[i].as_str()));
            assert(str_views(out@) =~= str_views(out@.drop_last()).push(ids@[i as int]@));
        }
        i = i + 1;
    }
    assert(ids@.take(ids.len() as int) == ids@);
    out
}

} // verus!
