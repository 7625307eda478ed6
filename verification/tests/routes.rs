use komika::routes::{
    bearer, check_pending, check_user, cidr_parts, cover_upload_url, forwarded_client_ip,
    is_suwayomi_image_path, is_upload_field, refusal, thumbnail_manga_id, to_canonical,
    webp_file_id, Cidr, Ip, UploadFailure, UploadKind, UserLookup,
};

fn v4(a: u8, b: u8, c: u8, d: u8) -> Ip {
    Ip::V4(u32::from_be_bytes([a, b, c, d]))
}

fn v6(segments: [u16; 8]) -> Ip {
    let mut x: u128 = 0;
    for s in segments {
        x = (x << 16) | s as u128;
    }
    Ip::V6(x)
}

/// Reads a CIDR entry the way the server does, for IPv4 entries.
fn cidr4(s: &str) -> Option<Cidr> {
    let (addr, prefix) = cidr_parts(s)?;
    let parts: Vec<u8> = addr.split('.').map(|p| p.parse().ok()).collect::<Option<Vec<u8>>>()?;
    if parts.len() != 4 {
        return None;
    }
    Cidr::new(v4(parts[0], parts[1], parts[2], parts[3]), prefix)
}

fn ip_text(ip: Ip) -> String {
    match ip {
        Ip::V4(x) => {
            let b = x.to_be_bytes();
            format!("{}.{}.{}.{}", b[0], b[1], b[2], b[3])
        }
        Ip::V6(x) => format!("{x:x}"),
    }
}

/// The rate-limit key: the forwarded address, or the canonical peer.
fn client_ip(cf: Option<&str>, xff: Option<&str>, real: Option<&str>, peer: Ip, trusted: &[Cidr]) -> String {
    forwarded_client_ip(cf, xff, real, peer, trusted).unwrap_or_else(|| ip_text(to_canonical(peer)))
}

#[test]
fn suwayomi_image_path_allows_only_cover_and_page() {
    assert!(is_suwayomi_image_path("123/thumbnail"));
    assert!(is_suwayomi_image_path("123/chapter/4/page/0"));
    assert!(is_suwayomi_image_path("1/chapter/0/page/25"));
    assert!(!is_suwayomi_image_path("123"));
    assert!(!is_suwayomi_image_path("123/chapters"));
    assert!(!is_suwayomi_image_path("abc/thumbnail"));
    assert!(!is_suwayomi_image_path("123/thumbnail/../../graphql"));
    assert!(!is_suwayomi_image_path("123/chapter/4/page"));
    assert!(!is_suwayomi_image_path("123/chapter/x/page/0"));
    assert!(!is_suwayomi_image_path(""));
    assert!(!is_suwayomi_image_path("123/thumbnail/"));
}

#[test]
fn cidr_ipv4_contains() {
    let c = cidr4("10.0.0.0/8").unwrap();
    assert!(c.contains(v4(10, 1, 2, 3)));
    assert!(c.contains(v4(10, 255, 255, 255)));
    assert!(!c.contains(v4(11, 0, 0, 1)));
    assert!(!c.contains(v4(192, 168, 1, 1)));
}

#[test]
fn cidr_bare_ip_is_host_route() {
    let c = cidr4("127.0.0.1").unwrap();
    assert!(c.contains(v4(127, 0, 0, 1)));
    assert!(!c.contains(v4(127, 0, 0, 2)));
}

#[test]
fn cidr_ipv6_and_cross_family() {
    let c = Cidr::new(v6([0x2001, 0xdb8, 0, 0, 0, 0, 0, 0]), Some(32)).unwrap();
    assert!(c.contains(v6([0x2001, 0xdb8, 0, 0, 0, 0, 0, 1])));
    assert!(!c.contains(v6([0x2001, 0xdb9, 0, 0, 0, 0, 0, 1])));
    let v4_block = cidr4("10.0.0.0/8").unwrap();
    assert!(!v4_block.contains(v6([0, 0, 0, 0, 0, 0, 0, 1])));
}

#[test]
fn cidr_rejects_malformed() {
    assert!(cidr4("not-an-ip").is_none());
    assert!(cidr4("10.0.0.0/33").is_none());
    assert!(Cidr::new(v6([0, 0, 0, 0, 0, 0, 0, 1]), Some(129)).is_none());
}

#[test]
fn untrusted_peer_ignores_forwarded_headers() {
    let ip = client_ip(None, Some("1.2.3.4"), Some("5.6.7.8"), v4(203, 0, 113, 9), &[]);
    assert_eq!(ip, "203.0.113.9");
}

#[test]
fn trusted_peer_honors_xff_rightmost() {
    let trusted = vec![cidr4("10.0.0.0/8").unwrap()];
    let ip = client_ip(None, Some("1.2.3.4, 203.0.113.7"), None, v4(10, 0, 0, 5), &trusted);
    assert_eq!(ip, "203.0.113.7");
}

#[test]
fn cf_connecting_ip_wins_over_forged_xff() {
    let trusted = vec![cidr4("10.0.0.0/8").unwrap()];
    let ip = client_ip(Some("203.0.113.7"), Some("1.2.3.4"), None, v4(10, 0, 0, 5), &trusted);
    assert_eq!(ip, "203.0.113.7");
}

#[test]
fn spoofed_xff_cannot_pick_its_own_bucket() {
    let trusted = vec![cidr4("10.0.0.0/8").unwrap()];
    let a = client_ip(None, Some("9.9.9.9, 198.51.100.4"), None, v4(10, 0, 0, 5), &trusted);
    let v = client_ip(None, Some("9.9.9.9, 198.51.100.5"), None, v4(10, 0, 0, 5), &trusted);
    assert_ne!(a, v, "forged leftmost hop must not collapse two clients");
    assert_eq!(a, "198.51.100.4");
}

#[test]
fn trusted_peer_falls_back_to_x_real_ip() {
    let trusted = vec![cidr4("10.0.0.0/8").unwrap()];
    let ip = client_ip(None, None, Some("9.9.9.9"), v4(10, 0, 0, 5), &trusted);
    assert_eq!(ip, "9.9.9.9");
}

#[test]
fn trusted_peer_without_headers_uses_peer() {
    let trusted = vec![cidr4("10.0.0.0/8").unwrap()];
    let ip = client_ip(None, None, None, v4(10, 0, 0, 5), &trusted);
    assert_eq!(ip, "10.0.0.5");
}

#[test]
fn v4_mapped_v6_peer_matches_v4_cidr() {
    let trusted = vec![cidr4("127.0.0.0/8").unwrap()];
    let mapped = v6([0, 0, 0, 0, 0, 0xffff, 0x7f00, 0x0001]);
    let ip = client_ip(None, Some("1.2.3.4"), None, mapped, &trusted);
    assert_eq!(ip, "1.2.3.4");
    assert_eq!(to_canonical(mapped), v4(127, 0, 0, 1));
}

#[test]
fn bearer_tokens() {
    assert_eq!(bearer(Some("Bearer abc")).as_deref(), Some("abc"));
    assert_eq!(bearer(Some("bearer  abc  ")).as_deref(), Some("abc"));
    assert_eq!(bearer(Some("Bearer    ")), None);
    assert_eq!(bearer(Some("Basic abc")), None);
    assert_eq!(bearer(None), None);
}

#[test]
fn cidr_entries_split() {
    assert_eq!(cidr_parts(" 10.0.0.0 / 8 "), Some(("10.0.0.0".to_string(), Some(8))));
    assert_eq!(cidr_parts("::1"), Some(("::1".to_string(), None)));
    assert_eq!(cidr_parts("10.0.0.0/x"), None);
    assert_eq!(cidr_parts("10.0.0.0/256"), None);
    let zero = Cidr::new(v4(0, 0, 0, 0), Some(0)).unwrap();
    assert!(zero.contains(v4(255, 255, 255, 255)));
}

#[test]
fn thumbnail_ids_and_file_ids() {
    assert_eq!(thumbnail_manga_id("123/thumbnail"), Some(123));
    assert_eq!(thumbnail_manga_id("123/chapter/4/page/0"), None);
    assert_eq!(thumbnail_manga_id("-5/thumbnail"), Some(-5));
    assert_eq!(webp_file_id("w_1.webp").as_deref(), Some("w_1"));
    assert_eq!(webp_file_id("w_1.png"), None);
}

#[test]
fn upload_refusals() {
    assert_eq!(refusal(UploadKind::Avatar, UploadFailure::NoToken), (401, "Not authenticated"));
    assert_eq!(refusal(UploadKind::Cover, UploadFailure::NotAdmin), (403, "Admin only"));
    assert_eq!(refusal(UploadKind::Cover, UploadFailure::SaveFailed), (500, "Could not save cover"));
    assert_eq!(
        refusal(UploadKind::CommentMedia, UploadFailure::TooManyPending),
        (429, "Too many pending image uploads \u{2014} post or discard some first")
    );
    assert_eq!(check_user(UploadKind::Cover, UserLookup::Found(0)), Some(UploadFailure::NotAdmin));
    assert_eq!(check_user(UploadKind::Avatar, UserLookup::Found(0)), None);
    assert_eq!(check_user(UploadKind::Avatar, UserLookup::Unknown), Some(UploadFailure::UnknownUser));
    assert_eq!(check_user(UploadKind::Avatar, UserLookup::Failed), Some(UploadFailure::LookupFailed));
    assert_eq!(check_pending(Some(20)), Some(UploadFailure::TooManyPending));
    assert_eq!(check_pending(Some(19)), None);
    assert_eq!(check_pending(None), None);
    assert!(is_upload_field(UploadKind::Avatar, Some("avatar"), false));
    assert!(is_upload_field(UploadKind::Avatar, Some("other"), true));
    assert!(!is_upload_field(UploadKind::CommentMedia, Some("avatar"), false));
    assert_eq!(cover_upload_url("w_1", Some(3)), "/covers/w_1.webp?v=3");
    assert_eq!(cover_upload_url("w_1", None), "/covers/w_1.webp");
}
