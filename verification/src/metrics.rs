//! The Prometheus text exposition of the scheduler, subscription and feed gauges.
//! Each gauge is read by its own query; one that failed is reported as `-1` rather
//! than failing the whole scrape.
use vstd::prelude::*;
use crate::text::{int_decimal, push_i64, push_str};

verus! {

/// The gauge values of one scrape.
#[derive(Debug, Clone, Copy, PartialEq, Eq, Structural)]
pub struct Gauges {
    pub scan_total: i64,
    pub scan_due: i64,
    pub scan_failing: i64,
    pub scan_awaiting: i64,
    pub scan_max_minute_cluster: i64,
    pub subs_total: i64,
    pub subs_disabled: i64,
    pub feed_rows: i64,
    pub feed_age_secs: i64,
}

/// One gauge: its `HELP` and `TYPE` lines, then the sample line.
pub open spec fn gauge_text(name: Seq<char>, help: Seq<char>, v: int) -> Seq<char> {
    "# HELP "@ + name + " "@ + help + "\n"@
        + "# TYPE "@ + name + " gauge\n"@
        + name + " "@ + int_decimal(v) + "\n"@
}

/// The whole exposition, gauge by gauge in a fixed order.
pub open spec fn metrics_text(g: Gauges) -> Seq<char> {
    gauge_text("komika_scan_state_total"@, "Series tracked by the scan scheduler"@, g.scan_total as int)
        + gauge_text("komika_scan_due"@, "Series currently overdue for a scan"@, g.scan_due as int)
        + gauge_text("komika_scan_failing"@, "Series with a non-zero consecutive-failure count"@, g.scan_failing as int)
        + gauge_text("komika_scan_awaiting"@, "Series in the accelerated awaiting-chapter poll"@, g.scan_awaiting as int)
        + gauge_text(
            "komika_scan_max_minute_cluster"@,
            "Largest number of series scheduled in one minute (herd detector)"@,
            g.scan_max_minute_cluster as int,
        )
        + gauge_text("komika_subscriptions_total"@, "Extension sync subscriptions"@, g.subs_total as int)
        + gauge_text("komika_subscriptions_disabled"@, "Subscriptions auto-disabled by the circuit breaker"@, g.subs_disabled as int)
        + gauge_text("komika_feed_updates_rows"@, "Materialized updates-feed row count"@, g.feed_rows as int)
        + gauge_text(
            "komika_feed_updates_newest_age_seconds"@,
            "Age of the newest chapter in the feed"@,
            g.feed_age_secs as int,
        )
}

/// The content type of the exposition.
pub fn metrics_content_type() -> (r: &'static str)
    ensures
        r@ == "text/plain; version=0.0.4"@,
{
    "text/plain; version=0.0.4"
}

fn push_gauge(out: &mut String, name: &str, help: &str, v: i64)
    ensures
        final(out)@ == old(out)@ + gauge_text(name@, help@, v as int),
{
    push_str(out, "# HELP ");
    push_str(out, name);
    push_str(out, " ");
    push_str(out, help);
    push_str(out, "\n# TYPE ");
    push_str(out, name);
    push_str(out, " gauge\n");
    push_str(out, name);
    push_str(out, " ");
    push_i64(out, v);
    push_str(out, "\n");
    proof {
        reveal_strlit("\n# TYPE ");
        reveal_strlit("\n");
        reveal_strlit("# TYPE ");
        assert("\n# TYPE "@ =~= "\n"@ + "# TYPE "@);
        assert(final(out)@ =~= old(out)@ + gauge_text(name@, help@, v as int));
    }
}

/// Renders the gauges as the Prometheus text exposition.
pub fn metrics_body(g: &Gauges) -> (r: String)
    ensures
        r@ == metrics_text(*g),
{
    let mut out = String::new();
    push_gauge(&mut out, "komika_scan_state_total", "Series tracked by the scan scheduler", g.scan_total);
    push_gauge(&mut out, "komika_scan_due", "Series currently overdue for a scan", g.scan_due);
    push_gauge(&mut out, "komika_scan_failing", "Series with a non-zero consecutive-failure count", g.scan_failing);
    push_gauge(&mut out, "komika_scan_awaiting", "Series in the accelerated awaiting-chapter poll", g.scan_awaiting);
    push_gauge(
        &mut out,
        "komika_scan_max_minute_cluster",
        "Largest number of series scheduled in one minute (herd detector)",
        g.scan_max_minute_cluster,
    );
    push_gauge(&mut out, "komika_subscriptions_total", "Extension sync subscriptions", g.subs_total);
    push_gauge(&mut out, "komika_subscriptions_disabled", "Subscriptions auto-disabled by the circuit breaker", g.subs_disabled);
    push_gauge(&mut out, "komika_feed_updates_rows", "Materialized updates-feed row count", g.feed_rows);
    push_gauge(
        &mut out,
        "komika_feed_updates_newest_age_seconds",
        "Age of the newest chapter in the feed",
        g.feed_age_secs,
    );
    proof {
        reveal_strlit("");
    }
    assert(out@ =~= metrics_text(*g));
    out
}

} // verus!
