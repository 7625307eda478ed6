use komika::ext_icon::{is_png, is_valid_pkg, keiyoushi_source_url};

#[test]
fn rejects_path_traversal_and_junk_package_names() {
    assert!(is_valid_pkg("eu.kanade.tachiyomi.extension.en.foo"));
    assert!(is_valid_pkg("some_pkg-1"));
    assert!(!is_valid_pkg("../../etc/passwd"));
    assert!(!is_valid_pkg("a/b"));
    assert!(!is_valid_pkg("a\\b"));
    assert!(!is_valid_pkg("a..b"));
    assert!(!is_valid_pkg(".hidden"));
    assert!(!is_valid_pkg("trailing."));
    assert!(!is_valid_pkg(""));
    assert!(!is_valid_pkg(&"a".repeat(201)));
    assert!(!is_valid_pkg("%2e%2e/x"));
}

#[test]
fn derives_keiyoushi_source_urls() {
    assert_eq!(
        keiyoushi_source_url("eu.kanade.tachiyomi.extension.en.foo").as_deref(),
        Some("https://cdn.jsdelivr.net/gh/keiyoushi/extensions-source@main/src/en/foo/res/mipmap-xhdpi/ic_launcher.png")
    );
    assert_eq!(
        keiyoushi_source_url("eu.kanade.tachiyomi.extension.all.mangadex").as_deref(),
        Some("https://cdn.jsdelivr.net/gh/keiyoushi/extensions-source@main/src/all/mangadex/res/mipmap-xhdpi/ic_launcher.png")
    );
    assert_eq!(keiyoushi_source_url("com.example.custom"), None);
    assert_eq!(keiyoushi_source_url("eu.kanade.tachiyomi.extension.en"), None);
    assert_eq!(keiyoushi_source_url("eu.kanade.tachiyomi.extension.en.foo.bar"), None);
}

#[test]
fn png_magic_rejects_html_error_bodies() {
    assert!(is_png(&[0x89, b'P', b'N', b'G', 0x0d, 0x0a, 0x1a, 0x0a, 0x00]));
    assert!(!is_png(b"<!DOCTYPE html><html>404"));
    assert!(!is_png(b""));
}

#[test]
fn package_name_edges() {
    assert!(is_valid_pkg(&"a".repeat(200)));
    assert!(!is_valid_pkg("caf\u{e9}"));
    assert!(!is_valid_pkg("a b"));
    assert_eq!(keiyoushi_source_url("eu.kanade.tachiyomi.extension..foo"), None);
    assert_eq!(keiyoushi_source_url("eu.kanade.tachiyomi.extension.en."), None);
    assert!(!is_png(&[0x89, b'P', b'N', b'G', 0x0d, 0x0a, 0x1a]));
}
