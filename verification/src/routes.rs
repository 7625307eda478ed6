//! The rules of the HTTP edge: bearer tokens, trusted-proxy client addresses, the two
//! proxied image paths, and the refusals of the upload routes.
use vstd::prelude::*;
use crate::text::opt_str;
use crate::text::{
    all_digits, are_digits, chars_of, chars_eq, char_vecs_are, has_prefix, has_suffix,
    parse_signed, parse_i64_chars, parse_unsigned, parse_unsigned_chars, push_str, split_chars,
    split_on, split_once, split_once_chars, starts_with_chars, strip_suffix_chars,
    string_from_chars,
};
use crate::unicode::{trim_chars, trimmed};

verus! {

// ---------------------------------------------------------------------------
// Bearer tokens
// ---------------------------------------------------------------------------

/// The token of an `Authorization` header value: what follows `Bearer ` (or
/// `bearer `), trimmed; `None` without either prefix or when nothing is left.
pub open spec fn bearer_token(raw: Seq<char>) -> Option<Seq<char>> {
    let rest = if has_prefix(raw, "Bearer "@) {
        Some(raw.skip(("Bearer "@).len() as int))
    } else if has_prefix(raw, "bearer "@) {
        Some(raw.skip(("bearer "@).len() as int))
    } else {
        None
    };
    match rest {
        Some(r) => if trimmed(r).len() > 0 {
            Some(trimmed(r))
        } else {
            None
        },
        None => None,
    }
}

/// The bearer token of the `Authorization` header, given as text when it has one.
pub fn bearer(authorization: Option<&str>) -> (r: Option<String>)
    ensures
        match (r, authorization) {
            (Some(t), Some(raw)) => bearer_token(raw@) == Some(t@),
            (None, Some(raw)) => bearer_token(raw@) is None,
            (None, None) => true,
            (Some(_), None) => false,
        },
{
    let raw = match authorization {
        Some(raw) => raw,
        None => return None,
    };
    let cs = chars_of(raw);
    let upper = chars_of("Bearer ");
    let lower = chars_of("bearer ");
    let rest = if starts_with_chars(cs.as_slice(), upper.as_slice()) {
        crate::text::slice_chars(cs.as_slice(), upper.len(), cs.len())
    } else if starts_with_chars(cs.as_slice(), lower.as_slice()) {
        crate::text::slice_chars(cs.as_slice(), lower.len(), cs.len())
    } else {
        return None;
    };
    let t = trim_chars(rest.as_slice());
    if t.len() == 0 {
        return None;
    }
    Some(string_from_chars(t.as_slice()))
}

// ---------------------------------------------------------------------------
// Client addresses behind trusted proxies
// ---------------------------------------------------------------------------

/// An IP address as its integer: 32 bits for IPv4, 128 for IPv6.
#[derive(Debug, Clone, Copy, PartialEq, Eq, Structural)]
pub enum Ip {
    V4(u32),
    V6(u128),
}

/// A CIDR block.
#[derive(Debug, Clone, Copy, PartialEq, Eq, Structural)]
pub struct Cidr {
    pub network: Ip,
    pub prefix: u8,
}

/// The address width in bits.
pub open spec fn width(ip: Ip) -> nat {
    match ip {
        Ip::V4(_) => 32,
        Ip::V6(_) => 128,
    }
}

/// `ip` with an IPv4-mapped IPv6 address (`::ffff:a.b.c.d`) turned into the IPv4
/// address (std `IpAddr::to_canonical`).
pub open spec fn canonical(ip: Ip) -> Ip {
    match ip {
        Ip::V6(x) => if x >> 32u32 == 0xffffu128 {
            Ip::V4((x & 0xffff_ffffu128) as u32)
        } else {
            ip
        },
        _ => ip,
    }
}

/// `ip` in canonical form.
pub fn to_canonical(ip: Ip) -> (r: Ip)
    ensures
        r == canonical(ip),
{
    match ip {
        Ip::V6(x) => {
            if x >> 32u32 == 0xffffu128 {
                let low: u128 = x & 0xffff_ffffu128;
                assert(low <= 0xffff_ffffu128) by (bit_vector)
                    requires low == x & 0xffff_ffffu128;
                Ip::V4(low as u32)
            } else {
                ip
            }
        },
        _ => ip,
    }
}

/// Masking the low `k` bits of `x` keeps exactly `x >> k`, shifted back.
proof fn lemma_mask_is_shifted(x: u128, k: u32, mask: u128)
    requires
        k < 128,
        mask == u128::MAX << k,
    ensures
        x & mask == (x >> k) << k,
        ((x >> k) << k) >> k == x >> k,
{
    assert(x & mask == (x >> k) << k) by (bit_vector)
        requires
            k < 128,
            mask == u128::MAX << k,
    ;
    assert(((x >> k) << k) >> k == x >> k) by (bit_vector)
        requires
            k < 128,
    ;
}

impl Cidr {
    /// The prefix fits the address width.
    pub open spec fn wf(self) -> bool {
        self.prefix <= width(self.network)
    }

    /// Whether `ip` lies in the block: same address family, and the same leading
    /// `prefix` bits.
    pub open spec fn holds(self, ip: Ip) -> bool {
        match (self.network, ip) {
            (Ip::V4(n), Ip::V4(a)) => n >> ((32 - self.prefix) as u32) == a >> ((32 - self.prefix) as u32),
            (Ip::V6(n), Ip::V6(a)) => n >> ((128 - self.prefix) as u32) == a >> ((128 - self.prefix) as u32),
            _ => false,
        }
    }

    /// The block of `network` with `prefix` leading bits; a missing prefix means the
    /// single address (`/32` or `/128`); `None` when the prefix exceeds the width.
    pub fn new(network: Ip, prefix: Option<u8>) -> (r: Option<Cidr>)
        ensures
            ({
                let p: int = match prefix {
                    Some(p) => p as int,
                    None => width(network) as int,
                };
                match r {
                    Some(c) => p <= width(network) && c.network == network && c.prefix == p && c.wf(),
                    None => p > width(network),
                }
            }),
    {
        let max: u8 = match network {
            Ip::V4(_) => 32,
            Ip::V6(_) => 128,
        };
        let p = match prefix {
            Some(p) => p,
            None => max,
        };
        if p > max {
            return None;
        }
        Some(Cidr { network, prefix: p })
    }

    /// Whether `ip` lies in this block. A v4 block never holds a v6 address, nor the
    /// reverse.
    pub fn contains(&self, ip: Ip) -> (b: bool)
        requires
            self.wf(),
        ensures
            b == self.holds(ip),
    {
        match (self.network, ip) {
            (Ip::V4(n), Ip::V4(a)) => {
                let prefix: u8 = self.prefix;
                if prefix == 0 {
                    assert((n >> 32u32) == (a >> 32u32)) by (bit_vector);
                    true
                } else {
                    let k: u32 = (32 - prefix) as u32;
                    let mask: u32 = u32::MAX << k;
                    assert(((n & mask) == (a & mask)) == ((n >> k) == (a >> k))) by (bit_vector)
                        requires
                            k < 32,
                            mask == u32::MAX << k,
                    ;
                    (n & mask) == (a & mask)
                }
            },
            (Ip::V6(n), Ip::V6(a)) => {
                let prefix: u8 = self.prefix;
                if prefix == 0 {
                    assert((n >> 128u32) == (a >> 128u32)) by (bit_vector);
                    true
                } else {
                    let k: u32 = (128 - prefix) as u32;
                    let mask: u128 = u128::MAX << k;
                    proof {
                        lemma_mask_is_shifted(n, k, mask);
                        lemma_mask_is_shifted(a, k, mask);
                    }
                    (n & mask) == (a & mask)
                }
            },
            _ => false,
        }
    }
}

/// The address text and the optional prefix length of a CIDR entry (`a.b.c.d/nn`,
/// `a:b::/nn`, or a bare address): the entry is trimmed and split at its first `/`;
/// the address part and the prefix are trimmed; the prefix is read as a `u8`. `None`
/// when a prefix is present and is not a `u8`.
pub open spec fn cidr_parts_of(s: Seq<char>) -> Option<(Seq<char>, Option<nat>)> {
    let t = trimmed(s);
    match split_once(t, '/') {
        Some((a, p)) => match parse_unsigned(trimmed(p), 255) {
            Some(n) => Some((trimmed(a), Some(n))),
            None => None,
        },
        None => Some((t, None)),
    }
}

/// Splits a CIDR entry into its address text and its prefix length; the address is
/// then read as an IP address and handed to `Cidr::new`.
pub fn cidr_parts(s: &str) -> (r: Option<(String, Option<u8>)>)
    ensures
        match (r, cidr_parts_of(s@)) {
            (Some((a, p)), Some((x, q))) => a@ == x && match (p, q) {
                (Some(n), Some(m)) => n == m,
                (None, None) => true,
                _ => false,
            },
            (None, None) => true,
            _ => false,
        },
{
    let cs = chars_of(s);
    let t = trim_chars(cs.as_slice());
    match split_once_chars(t.as_slice(), '/') {
        Some((a, p)) => {
            let pt = trim_chars(p.as_slice());
            match parse_unsigned_chars(pt.as_slice(), 255) {
                Some(n) => {
                    let at = trim_chars(a.as_slice());
                    Some((string_from_chars(at.as_slice()), Some(n as u8)))
                },
                None => None,
            }
        },
        None => Some((string_from_chars(t.as_slice()), None)),
    }
}

/// `ip` lies in one of the `trusted` blocks.
pub open spec fn is_trusted(trusted: Seq<Cidr>, ip: Ip) -> bool {
    exists|i: int| 0 <= i < trusted.len() && (#[trigger] trusted[i]).holds(ip)
}

/// Every block is well formed.
pub open spec fn all_wf(trusted: Seq<Cidr>) -> bool {
    forall|i: int| 0 <= i < trusted.len() ==> (#[trigger] trusted[i]).wf()
}

/// A header's address: its value trimmed, when that is not empty.
pub open spec fn header_ip(v: Option<Seq<char>>) -> Option<Seq<char>> {
    match v {
        Some(s) => if trimmed(s).len() > 0 {
            Some(trimmed(s))
        } else {
            None
        },
        None => None,
    }
}

/// The rightmost `X-Forwarded-For` hop (the one the own edge appended), trimmed, when
/// not empty.
pub open spec fn last_hop(v: Option<Seq<char>>) -> Option<Seq<char>> {
    match v {
        Some(s) => header_ip(Some(split_on(s, ',').last())),
        None => None,
    }
}

/// The client address that forwarding headers give, honoured only when the socket
/// peer (in canonical form) is a trusted proxy: `CF-Connecting-IP`, else the rightmost
/// `X-Forwarded-For` hop, else `X-Real-IP`. `None` means the peer's own address is the
/// client's.
pub open spec fn forwarded_ip(
    cf: Option<Seq<char>>,
    xff: Option<Seq<char>>,
    real_ip: Option<Seq<char>>,
    peer: Ip,
    trusted: Seq<Cidr>,
) -> Option<Seq<char>> {
    if !is_trusted(trusted, canonical(peer)) {
        None
    } else if header_ip(cf) is Some {
        header_ip(cf)
    } else if last_hop(xff) is Some {
        last_hop(xff)
    } else {
        header_ip(real_ip)
    }
}

fn header_value_ip(v: Option<&str>) -> (r: Option<String>)
    ensures
        match (r, header_ip(opt_str(v))) {
            (Some(a), Some(b)) => a@ == b,
            (None, None) => true,
            _ => false,
        },
{
    match v {
        Some(s) => {
            let cs = chars_of(s);
            let t = trim_chars(cs.as_slice());
            if t.len() > 0 {
                Some(string_from_chars(t.as_slice()))
            } else {
                None
            }
        },
        None => None,
    }
}

fn peer_is_trusted(trusted: &[Cidr], ip: Ip) -> (b: bool)
    requires
        all_wf(trusted@),
    ensures
        b == is_trusted(trusted@, ip),
{
    let mut i: usize = 0;
    while i < trusted.len()
        invariant
            i <= trusted.len(),
            all_wf(trusted@),
            forall|j: int| 0 <= j < i ==> !(#[trigger] trusted@[j]).holds(ip),
        decreases trusted.len() - i,
    {
        let c = trusted[i];
        assert(c.wf());
        if c.contains(ip) {
            return true;
        }
        i = i + 1;
    }
    false
}

/// The client address from the forwarding headers, honoured only behind a trusted
/// proxy; `None` when the rate limiter keys on the socket peer itself.
pub fn forwarded_client_ip(
    cf: Option<&str>,
    xff: Option<&str>,
    real_ip: Option<&str>,
    peer: Ip,
    trusted: &[Cidr],
) -> (r: Option<String>)
    requires
        all_wf(trusted@),
    ensures
        match (r, forwarded_ip(opt_str(cf), opt_str(xff), opt_str(real_ip), peer, trusted@)) {
            (Some(a), Some(b)) => a@ == b,
            (None, None) => true,
            _ => false,
        },
{
    let peer_ip = to_canonical(peer);
    if !peer_is_trusted(trusted, peer_ip) {
        return None;
    }
    if let Some(ip) = header_value_ip(cf) {
        return Some(ip);
    }
    if let Some(x) = xff {
        let cs = chars_of(x);
        let hops = split_chars(cs.as_slice(), ',');
        let last = &hops[hops.len() - 1];
        let t = trim_chars(last.as_slice());
        if t.len() > 0 {
            return Some(string_from_chars(t.as_slice()));
        }
    }
    header_value_ip(real_ip)
}

// ---------------------------------------------------------------------------
// The proxied image paths
// ---------------------------------------------------------------------------

/// A non-empty run of ASCII digits.
pub open spec fn numeric(s: Seq<char>) -> bool {
    s.len() > 0 && all_digits(s)
}

/// The tail after `/api/v1/manga/` is one of the two proxied image paths:
/// `{id}/thumbnail` or `{mangaId}/chapter/{chapterIndex}/page/{pageIndex}`, every id
/// numeric.
pub open spec fn image_path(rest: Seq<char>) -> bool {
    let p = split_on(rest, '/');
    ||| p.len() == 2 && p[1] == "thumbnail"@ && numeric(p[0])
    ||| p.len() == 5 && p[1] == "chapter"@ && p[3] == "page"@ && numeric(p[0]) && numeric(p[2])
        && numeric(p[4])
}

fn is_numeric(cs: &[char]) -> (b: bool)
    ensures
        b == numeric(cs@),
{
    cs.len() > 0 && are_digits(cs)
}

fn is_word(cs: &[char], w: &str) -> (b: bool)
    ensures
        b == (cs@ == w@),
{
    let wc = chars_of(w);
    chars_eq(cs, wc.as_slice())
}

/// Whether `rest` is one of the two proxied Suwayomi image paths.
pub fn is_suwayomi_image_path(rest: &str) -> (b: bool)
    ensures
        b == image_path(rest@),
{
    let cs = chars_of(rest);
    let p = split_chars(cs.as_slice(), '/');
    if p.len() == 2 {
        is_word(p[1].as_slice(), "thumbnail") && is_numeric(p[0].as_slice())
    } else if p.len() == 5 {
        is_word(p[1].as_slice(), "chapter") && is_word(p[3].as_slice(), "page") && is_numeric(
            p[0].as_slice(),
        ) && is_numeric(p[2].as_slice()) && is_numeric(p[4].as_slice())
    } else {
        false
    }
}

/// The manga id of a cover-thumbnail path (`{id}/thumbnail`), read as an `i64`;
/// `None` for any other path.
pub open spec fn thumbnail_id(rest: Seq<char>) -> Option<int> {
    let p = split_on(rest, '/');
    if p.len() == 2 && p[1] == "thumbnail"@ {
        parse_signed(p[0], 0x7fff_ffff_ffff_ffff)
    } else {
        None
    }
}

/// The manga id of a cover-thumbnail path.
pub fn thumbnail_manga_id(rest: &str) -> (r: Option<i64>)
    ensures
        match (r, thumbnail_id(rest@)) {
            (Some(v), Some(w)) => v == w,
            (None, None) => true,
            _ => false,
        },
{
    let cs = chars_of(rest);
    let p = split_chars(cs.as_slice(), '/');
    if p.len() == 2 && is_word(p[1].as_slice(), "thumbnail") {
        parse_i64_chars(p[0].as_slice())
    } else {
        None
    }
}

/// The id of a `{id}.webp` file name; `None` without that suffix.
pub fn webp_file_id(file: &str) -> (r: Option<String>)
    ensures
        match r {
            Some(id) => has_suffix(file@, ".webp"@) && id@ == file@.take(file@.len() - (".webp"@).len()),
            None => !has_suffix(file@, ".webp"@),
        },
{
    let cs = chars_of(file);
    let suffix = chars_of(".webp");
    match strip_suffix_chars(cs.as_slice(), suffix.as_slice()) {
        Some(v) => Some(string_from_chars(v.as_slice())),
        None => None,
    }
}

// ---------------------------------------------------------------------------
// The upload routes
// ---------------------------------------------------------------------------

/// The three multipart upload routes.
#[derive(Debug, Clone, Copy, PartialEq, Eq, Structural)]
pub enum UploadKind {
    Avatar,
    Cover,
    CommentMedia,
}

/// Why an upload is refused.
#[derive(Debug, Clone, Copy, PartialEq, Eq, Structural)]
pub enum UploadFailure {
    NoToken,
    UnknownUser,
    LookupFailed,
    NotAdmin,
    RateLimited,
    NoSuchWork,
    TooManyPending,
    FieldUnreadable,
    Malformed,
    NoFile,
    ProcessingPanicked,
    SaveFailed,
}

/// The HTTP status of a refusal.
pub open spec fn failure_status(f: UploadFailure) -> u16 {
    match f {
        UploadFailure::NoToken | UploadFailure::UnknownUser => 401,
        UploadFailure::NotAdmin => 403,
        UploadFailure::NoSuchWork => 404,
        UploadFailure::RateLimited | UploadFailure::TooManyPending => 429,
        UploadFailure::FieldUnreadable | UploadFailure::Malformed | UploadFailure::NoFile => 400,
        UploadFailure::LookupFailed | UploadFailure::ProcessingPanicked | UploadFailure::SaveFailed => 500,
    }
}

/// The message of a refusal.
pub open spec fn failure_message(kind: UploadKind, f: UploadFailure) -> Seq<char> {
    match f {
        UploadFailure::NoToken | UploadFailure::UnknownUser => "Not authenticated"@,
        UploadFailure::LookupFailed => "Internal error"@,
        UploadFailure::NotAdmin => "Admin only"@,
        UploadFailure::RateLimited => "Too many uploads \u{2014} please slow down"@,
        UploadFailure::NoSuchWork => "No such work"@,
        UploadFailure::TooManyPending => "Too many pending image uploads \u{2014} post or discard some first"@,
        UploadFailure::FieldUnreadable => "Upload too large or could not be read"@,
        UploadFailure::Malformed => "Malformed upload"@,
        UploadFailure::NoFile => "No image file provided"@,
        UploadFailure::ProcessingPanicked => "Could not process image"@,
        UploadFailure::SaveFailed => match kind {
            UploadKind::Avatar => "Could not save avatar"@,
            UploadKind::Cover => "Could not save cover"@,
            UploadKind::CommentMedia => "Could not save image"@,
        },
    }
}

/// The status and message an upload route answers a refusal with.
pub fn refusal(kind: UploadKind, f: UploadFailure) -> (r: (u16, &'static str))
    ensures
        r.0 == failure_status(f),
        r.1@ == failure_message(kind, f),
{
    match f {
        UploadFailure::NoToken => (401, "Not authenticated"),
        UploadFailure::UnknownUser => (401, "Not authenticated"),
        UploadFailure::LookupFailed => (500, "Internal error"),
        UploadFailure::NotAdmin => (403, "Admin only"),
        UploadFailure::RateLimited => (429, "Too many uploads \u{2014} please slow down"),
        UploadFailure::NoSuchWork => (404, "No such work"),
        UploadFailure::TooManyPending => (429, "Too many pending image uploads \u{2014} post or discard some first"),
        UploadFailure::FieldUnreadable => (400, "Upload too large or could not be read"),
        UploadFailure::Malformed => (400, "Malformed upload"),
        UploadFailure::NoFile => (400, "No image file provided"),
        UploadFailure::ProcessingPanicked => (500, "Could not process image"),
        UploadFailure::SaveFailed => match kind {
            UploadKind::Avatar => (500, "Could not save avatar"),
            UploadKind::Cover => (500, "Could not save cover"),
            UploadKind::CommentMedia => (500, "Could not save image"),
        },
    }
}

/// What the token lookup found.
#[derive(Debug, Clone, Copy, PartialEq, Eq, Structural)]
pub enum UserLookup {
    /// No user holds the token.
    Unknown,
    /// The lookup failed.
    Failed,
    /// A user, with its `is_admin` flag as stored.
    Found(i64),
}

/// The refusal after the token lookup, if any: an unknown token, a failed lookup, or a
/// non-admin on the admin-only cover route.
pub fn check_user(kind: UploadKind, lookup: UserLookup) -> (r: Option<UploadFailure>)
    ensures
        r == (match lookup {
            UserLookup::Unknown => Some(UploadFailure::UnknownUser),
            UserLookup::Failed => Some(UploadFailure::LookupFailed),
            UserLookup::Found(is_admin) => if kind == UploadKind::Cover && is_admin == 0 {
                Some(UploadFailure::NotAdmin)
            } else {
                None
            },
        }),
{
    match lookup {
        UserLookup::Unknown => Some(UploadFailure::UnknownUser),
        UserLookup::Failed => Some(UploadFailure::LookupFailed),
        UserLookup::Found(is_admin) => {
            if kind == UploadKind::Cover && is_admin == 0 {
                Some(UploadFailure::NotAdmin)
            } else {
                None
            }
        },
    }
}

/// At most this many staged (not yet posted) comment images per user.
pub const MAX_PENDING_MEDIA: i64 = 20;

/// The refusal for a user with `staged` unposted comment images (a failed count is
/// taken as none).
pub fn check_pending(staged: Option<i64>) -> (r: Option<UploadFailure>)
    ensures
        r == (match staged {
            Some(n) => if n >= MAX_PENDING_MEDIA {
                Some(UploadFailure::TooManyPending)
            } else {
                None
            },
            None => None,
        }),
{
    match staged {
        Some(n) => if n >= MAX_PENDING_MEDIA {
            Some(UploadFailure::TooManyPending)
        } else {
            None
        },
        None => None,
    }
}

/// The multipart field each route reads its file from.
pub open spec fn field_name_of(kind: UploadKind) -> Seq<char> {
    match kind {
        UploadKind::Avatar => "avatar"@,
        UploadKind::Cover => "cover"@,
        UploadKind::CommentMedia => "image"@,
    }
}

/// Whether a multipart field is the upload: it bears the route's field name, or it
/// carries a file name.
pub fn is_upload_field(kind: UploadKind, name: Option<&str>, has_file_name: bool) -> (b: bool)
    ensures
        b == (opt_str(name) == Some(field_name_of(kind)) || has_file_name),
{
    let expected = match kind {
        UploadKind::Avatar => "avatar",
        UploadKind::Cover => "cover",
        UploadKind::CommentMedia => "image",
    };
    let named = match name {
        Some(n) => crate::text::str_eq(n, expected),
        None => false,
    };
    named || has_file_name
}

/// The URL reported after an admin cover upload: the versioned cover path when the
/// work has a stored version, else `/covers/{work_id}.webp`.
pub fn cover_upload_url(work_id: &str, version: Option<i64>) -> (r: String)
    ensures
        r@ == (match version {
            Some(v) => crate::cover::cover_path_text(work_id@, v as int),
            None => "/covers/"@ + work_id@ + ".webp"@,
        }),
{
    match version {
        Some(v) => crate::cover::cover_path(work_id, v),
        None => {
            let mut r = String::new();
            push_str(&mut r, "/covers/");
            push_str(&mut r, work_id);
            push_str(&mut r, ".webp");
            r
        },
    }
}

} // verus!
