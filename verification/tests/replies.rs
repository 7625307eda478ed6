use komika::metrics::{metrics_body, metrics_content_type, Gauges};
use komika::replies::{
    cover_warming_response, page_busy_response, png_icon_response, raw_image_response, webp_cover_response, Reply,
};

fn header<'a>(r: &'a Reply, name: &str) -> Option<&'a str> {
    r.headers.iter().find(|(n, _)| n == name).map(|(_, v)| v.as_str())
}

#[test]
fn cover_warming_response_is_an_uncacheable_503() {
    let res = cover_warming_response();
    assert_eq!(res.status, 503);
    let cc = header(&res, "cache-control").unwrap();
    assert!(cc.contains("no-store"), "a warming answer must never be cached in place of the real cover");
    assert_eq!(header(&res, "retry-after").unwrap(), "2");
    assert_eq!(header(&res, "x-cover-status").unwrap(), "warming");
}

#[test]
fn busy_and_image_replies() {
    let busy = page_busy_response();
    assert_eq!(busy.status, 503);
    assert_eq!(header(&busy, "cache-control"), Some("no-store, must-revalidate"));
    assert_eq!(header(&busy, "x-cover-status"), None);
    let webp = webp_cover_response(vec![1, 2, 3]);
    assert_eq!(webp.status, 200);
    assert_eq!(webp.body, vec![1, 2, 3]);
    assert_eq!(header(&webp, "content-type"), Some("image/webp"));
    assert_eq!(header(&webp, "cache-control"), Some("public, max-age=31536000, immutable"));
    assert_eq!(header(&png_icon_response(vec![]), "content-type"), Some("image/png"));
}

#[test]
fn raw_image_keeps_a_valid_content_type_only() {
    assert_eq!(header(&raw_image_response("image/avif", vec![]), "content-type"), Some("image/avif"));
    assert_eq!(header(&raw_image_response("image/png\r\nx: y", vec![]), "content-type"), Some("image/jpeg"));
    assert_eq!(header(&raw_image_response("a\u{7f}", vec![]), "content-type"), Some("image/jpeg"));
    assert_eq!(header(&raw_image_response("a\tb", vec![]), "content-type"), Some("a\tb"));
}

#[test]
fn metrics_exposition_lists_every_gauge() {
    let g = Gauges {
        scan_total: 12,
        scan_due: 3,
        scan_failing: 0,
        scan_awaiting: 1,
        scan_max_minute_cluster: 4,
        subs_total: 7,
        subs_disabled: -1,
        feed_rows: 250,
        feed_age_secs: 86400,
    };
    let body = metrics_body(&g);
    assert!(body.starts_with(
        "# HELP komika_scan_state_total Series tracked by the scan scheduler\n# TYPE komika_scan_state_total gauge\nkomika_scan_state_total 12\n"
    ));
    assert!(body.contains("\nkomika_subscriptions_disabled -1\n"));
    assert!(body.ends_with("komika_feed_updates_newest_age_seconds 86400\n"));
    assert_eq!(body.lines().count(), 27);
    assert_eq!(metrics_content_type(), "text/plain; version=0.0.4");
}
