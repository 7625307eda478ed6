//! The fixed replies of the image routes: immutable long-cached images, and the
//! uncacheable "busy" and "warming" answers that ask the client to retry shortly.
use vstd::prelude::*;
use crate::text::{chars_of, pair_views, string_of};

verus! {

/// An HTTP reply: status, headers (lowercase names) and body.
#[derive(Debug, Clone)]
pub struct Reply {
    pub status: u16,
    pub headers: Vec<(String, String)>,
    pub body: Vec<u8>,
}

/// One year, immutable: the cache policy of content-addressed images.
pub open spec fn immutable_policy() -> Seq<char> {
    "public, max-age=31536000, immutable"@
}

/// Never stored, and revalidated: the policy of a temporary answer.
pub open spec fn uncacheable_policy() -> Seq<char> {
    "no-store, must-revalidate"@
}

/// Whether text can stand as an HTTP header value: no control character but the tab,
/// and no DEL. (Each byte of a non-ASCII character is at least 0x80, which a header
/// value may hold.)
pub open spec fn is_header_value(s: Seq<char>) -> bool {
    forall|i: int| 0 <= i < s.len() ==> (s[i] == '\t' || (' ' <= #[trigger] s[i] && s[i] != '\x7f'))
}

fn header(name: &str, value: &str) -> (r: (String, String))
    ensures
        r.0@ == name@,
        r.1@ == value@,
{
    (string_of(name), string_of(value))
}

/// The reply of a temporarily busy image route: `503`, uncacheable, retry in 2 s.
pub fn page_busy_response() -> (r: Reply)
    ensures
        r.status == 503,
        pair_views(r.headers@) == seq![("cache-control"@, uncacheable_policy()), ("retry-after"@, "2"@)],
        r.body@.len() == 0,
{
    let headers = vec![header("cache-control", "no-store, must-revalidate"), header("retry-after", "2")];
    assert(pair_views(headers@) =~= seq![("cache-control"@, uncacheable_policy()), ("retry-after"@, "2"@)]);
    Reply { status: 503, headers, body: Vec::new() }
}

/// The reply while a cover is still being made: `503`, uncacheable (so the placeholder
/// is never cached in place of the cover), retry in 2 s, marked `x-cover-status: warming`.
pub fn cover_warming_response() -> (r: Reply)
    ensures
        r.status == 503,
        pair_views(r.headers@) == seq![
            ("cache-control"@, uncacheable_policy()),
            ("retry-after"@, "2"@),
            ("x-cover-status"@, "warming"@),
        ],
        r.body@.len() == 0,
{
    let headers = vec![
        header("cache-control", "no-store, must-revalidate"),
        header("retry-after", "2"),
        header("x-cover-status", "warming"),
    ];
    assert(pair_views(headers@) =~= seq![
        ("cache-control"@, uncacheable_policy()),
        ("retry-after"@, "2"@),
        ("x-cover-status"@, "warming"@),
    ]);
    Reply { status: 503, headers, body: Vec::new() }
}

/// An image under a content-addressed URL: `200`, the given content type, cached for
/// a year as immutable.
fn immutable_image(content_type: &str, bytes: Vec<u8>) -> (r: Reply)
    ensures
        r.status == 200,
        pair_views(r.headers@) == seq![("content-type"@, content_type@), ("cache-control"@, immutable_policy())],
        r.body@ == bytes@,
{
    let headers = vec![header("content-type", content_type), header("cache-control", "public, max-age=31536000, immutable")];
    assert(pair_views(headers@) =~= seq![("content-type"@, content_type@), ("cache-control"@, immutable_policy())]);
    Reply { status: 200, headers, body: bytes }
}

/// A stored WebP cover, immutable and long-cached.
pub fn webp_cover_response(bytes: Vec<u8>) -> (r: Reply)
    ensures
        r.status == 200,
        pair_views(r.headers@) == seq![("content-type"@, "image/webp"@), ("cache-control"@, immutable_policy())],
        r.body@ == bytes@,
{
    immutable_image("image/webp", bytes)
}

/// A PNG extension icon, immutable and long-cached.
pub fn png_icon_response(bytes: Vec<u8>) -> (r: Reply)
    ensures
        r.status == 200,
        pair_views(r.headers@) == seq![("content-type"@, "image/png"@), ("cache-control"@, immutable_policy())],
        r.body@ == bytes@,
{
    immutable_image("image/png", bytes)
}

/// Whether every character can stand in a header value.
fn header_value_ok(s: &str) -> (b: bool)
    ensures
        b == is_header_value(s@),
{
    let cs = chars_of(s);
    let mut i: usize = 0;
    while i < cs.len()
        invariant
            i <= cs@.len(),
            cs@ == s@,
            forall|j: int| 0 <= j < i ==> (cs@[j] == '\t' || (' ' <= #[trigger] cs@[j] && cs@[j] != '\x7f')),
        decreases cs.len() - i,
    {
        let c = cs[i];
        if !(c == '\t' || (' ' <= c && c != '\x7f')) {
            return false;
        }
        i = i + 1;
    }
    true
}

/// A raw proxied image, immutable and long-cached, under the upstream content type;
/// `image/jpeg` when that type cannot stand as a header value.
pub fn raw_image_response(content_type: &str, bytes: Vec<u8>) -> (r: Reply)
    ensures
        r.status == 200,
        pair_views(r.headers@) == seq![
            ("content-type"@, if is_header_value(content_type@) { content_type@ } else { "image/jpeg"@ }),
            ("cache-control"@, immutable_policy()),
        ],
        r.body@ == bytes@,
{
    if header_value_ok(content_type) {
        immutable_image(content_type, bytes)
    } else {
        immutable_image("image/jpeg", bytes)
    }
}

} // verus!
