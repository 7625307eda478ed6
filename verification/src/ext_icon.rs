//! Extension icons: which package names are safe to use, where Keiyoushi hosts an
//! icon, and whether fetched bytes are a PNG.
use vstd::prelude::*;
use crate::text::{
    char_is_ascii_alnum, char_vecs_are, chars_of, contains_chars, has_prefix, has_substring,
    is_ascii_alnum, push_chars, push_str, split_chars, split_on, starts_with_chars,
};

verus! {

/// A character allowed in a package name: an ASCII letter or digit, `.`, `_` or `-`.
pub open spec fn pkg_char(c: char) -> bool {
    is_ascii_alnum(c) || c == '.' || c == '_' || c == '-'
}

/// A plain extension package name: 1 to 200 allowed characters, neither starting nor
/// ending with `.`, and without `..`. (Every allowed character is ASCII, so the count
/// of characters is the count of bytes.)
pub open spec fn valid_pkg(s: Seq<char>) -> bool {
    &&& 0 < s.len() <= 200
    &&& s[0] != '.'
    &&& s.last() != '.'
    &&& !has_substring(s, ".."@)
    &&& forall|i: int| 0 <= i < s.len() ==> pkg_char(#[trigger] s[i])
}

/// Whether `pkg` is a plain package name, safe to join onto a path or a URL.
pub fn is_valid_pkg(pkg: &str) -> (b: bool)
    ensures
        b == valid_pkg(pkg@),
{
    let cs = chars_of(pkg);
    let n = cs.len();
    if n == 0 || n > 200 {
        return false;
    }
    if cs[0] == '.' || cs[n - 1] == '.' {
        return false;
    }
    let dots = chars_of("..");
    if contains_chars(cs.as_slice(), dots.as_slice()) {
        return false;
    }
    let mut i: usize = 0;
    while i < n
        invariant
            i <= n,
            n == cs@.len(),
            cs@ == pkg@,
            forall|j: int| 0 <= j < i ==> pkg_char(#[trigger] cs@[j]),
        decreases n - i,
    {
        let c = cs[i];
        if !(char_is_ascii_alnum(c) || c == '.' || c == '_' || c == '-') {
            assert(!pkg_char(pkg@[i as int]));
            return false;
        }
        i = i + 1;
    }
    true
}

/// The package-name prefix of a Keiyoushi extension.
pub open spec fn keiyoushi_prefix() -> Seq<char> {
    "eu.kanade.tachiyomi.extension."@
}

/// The Keiyoushi icon URL for a package `eu.kanade.tachiyomi.extension.{lang}.{dir}`
/// with non-empty `lang` and `dir` and no further `.`; `None` for any other name.
pub open spec fn keiyoushi_url(pkg: Seq<char>) -> Option<Seq<char>> {
    if has_prefix(pkg, keiyoushi_prefix()) {
        let parts = split_on(pkg.skip(keiyoushi_prefix().len() as int), '.');
        if parts.len() == 2 && parts[0].len() > 0 && parts[1].len() > 0 {
            Some(
                "https://cdn.jsdelivr.net/gh/keiyoushi/extensions-source@main/src/"@ + parts[0]
                    + "/"@ + parts[1] + "/res/mipmap-xhdpi/ic_launcher.png"@,
            )
        } else {
            None
        }
    } else {
        None
    }
}

/// Keiyoushi's source-repo icon URL for a package, if it has one.
pub fn keiyoushi_source_url(pkg: &str) -> (r: Option<String>)
    ensures
        match (r, keiyoushi_url(pkg@)) {
            (Some(u), Some(w)) => u@ == w,
            (None, None) => true,
            _ => false,
        },
{
    let cs = chars_of(pkg);
    let prefix = chars_of("eu.kanade.tachiyomi.extension.");
    if !starts_with_chars(cs.as_slice(), prefix.as_slice()) {
        return None;
    }
    let rest = crate::text::slice_chars(cs.as_slice(), prefix.len(), cs.len());
    assert(rest@ == pkg@.skip(keiyoushi_prefix().len() as int));
    let parts = split_chars(rest.as_slice(), '.');
    if parts.len() != 2 || parts[0].len() == 0 || parts[1].len() == 0 {
        return None;
    }
    let mut r = String::new();
    push_str(&mut r, "https://cdn.jsdelivr.net/gh/keiyoushi/extensions-source@main/src/");
    push_chars(&mut r, parts[0].as_slice());
    push_str(&mut r, "/");
    push_chars(&mut r, parts[1].as_slice());
    push_str(&mut r, "/res/mipmap-xhdpi/ic_launcher.png");
    Some(r)
}

/// The eight-byte PNG signature.
pub open spec fn png_magic() -> Seq<u8> {
    seq![0x89u8, 0x50, 0x4e, 0x47, 0x0d, 0x0a, 0x1a, 0x0a]
}

/// Whether `bytes` begin with the PNG signature (an HTML error body does not).
pub fn is_png(bytes: &[u8]) -> (b: bool)
    ensures
        b == (bytes@.len() >= 8 && bytes@.take(8) == png_magic()),
{
    let magic: Vec<u8> = vec![0x89, 0x50, 0x4e, 0x47, 0x0d, 0x0a, 0x1a, 0x0a];
    assert(magic@ == png_magic());
    if bytes.len() < 8 {
        return false;
    }
    let mut i: usize = 0;
    while i < 8
        invariant
            i <= 8,
            bytes@.len() >= 8,
            magic@ == png_magic(),
            forall|j: int| 0 <= j < i ==> bytes@[j] == magic@[j],
        decreases 8 - i,
    {
        if bytes[i] != magic[i] {
            assert(bytes@.take(8)[i as int] != png_magic()[i as int]);
            return false;
        }
        i = i + 1;
    }
    assert(bytes@.take(8) =~= png_magic());
    true
}

} // verus!
