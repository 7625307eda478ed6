//! The Unicode-aware text rules: whitespace and trimming (specified here in full), and
//! std's case mapping and `char::is_alphanumeric`, whose results are named; each of
//! those wrappers states the ASCII behaviour that std documents and nothing more.
use vstd::prelude::*;
use crate::text::{ascii_lower, is_ascii_alnum};

verus! {

/// What `str::to_lowercase` returns for a string.
pub uninterp spec fn lowercased(s: Seq<char>) -> Seq<char>;

/// What `str::to_uppercase` returns for a string.
pub uninterp spec fn uppercased(s: Seq<char>) -> Seq<char>;

/// Unicode `White_Space`, the set `char::is_whitespace` tests: `\t` through `\r`, the
/// space, U+0085, U+00A0, U+1680, U+2000 through U+200A, U+2028, U+2029, U+202F,
/// U+205F and U+3000.
pub open spec fn white(c: char) -> bool {
    ||| ('\t' <= c && c <= '\r')
    ||| c == ' '
    ||| c == '\u{85}'
    ||| c == '\u{A0}'
    ||| c == '\u{1680}'
    ||| ('\u{2000}' <= c && c <= '\u{200A}')
    ||| c == '\u{2028}'
    ||| c == '\u{2029}'
    ||| c == '\u{202F}'
    ||| c == '\u{205F}'
    ||| c == '\u{3000}'
}

/// What `char::is_alphanumeric` returns for a character.
pub uninterp spec fn alnum(c: char) -> bool;

pub open spec fn is_ascii(c: char) -> bool {
    (c as u32) < 128
}

pub open spec fn all_ascii(s: Seq<char>) -> bool {
    forall|i: int| 0 <= i < s.len() ==> is_ascii(#[trigger] s[i])
}

/// ASCII uppercase of one character; every other character is unchanged.
pub open spec fn upper_char(c: char) -> char {
    if 'a' <= c && c <= 'z' {
        ((c as u32) - 32) as char
    } else {
        c
    }
}

pub open spec fn ascii_upper(s: Seq<char>) -> Seq<char> {
    s.map_values(|c: char| upper_char(c))
}

/// std `str::to_lowercase`. On ASCII text it lowercases `A`–`Z` and keeps every other
/// character, as std documents; beyond ASCII the result is only named.
#[verifier::external_body]
pub(crate) fn to_lowercase(s: &str) -> (r: String)
    ensures
        r@ == lowercased(s@),
        all_ascii(s@) ==> r@ == ascii_lower(s@),
{
    s.to_lowercase()
}

/// std `str::to_uppercase`. On ASCII text it uppercases `a`–`z` and keeps every other
/// character, as std documents; beyond ASCII the result is only named.
#[verifier::external_body]
pub(crate) fn to_uppercase(s: &str) -> (r: String)
    ensures
        r@ == uppercased(s@),
        all_ascii(s@) ==> r@ == ascii_upper(s@),
{
    s.to_uppercase()
}

/// Whether `c` is Unicode whitespace (as std's `char::is_whitespace`).
pub fn is_whitespace(c: char) -> (b: bool)
    ensures
        b == white(c),
{
    ('\t' <= c && c <= '\r') || c == ' ' || c == '\u{85}' || c == '\u{A0}' || c == '\u{1680}'
        || ('\u{2000}' <= c && c <= '\u{200A}') || c == '\u{2028}' || c == '\u{2029}' || c
        == '\u{202F}' || c == '\u{205F}' || c == '\u{3000}'
}

/// std `char::is_alphanumeric` (Unicode `Alphabetic` or `Numeric`). On ASCII it accepts
/// exactly the letters and digits.
#[verifier::external_body]
pub(crate) fn is_alphanumeric(c: char) -> (b: bool)
    ensures
        b == alnum(c),
        is_ascii(c) ==> (b == is_ascii_alnum(c)),
{
    c.is_alphanumeric()
}

/// `s` without its leading whitespace (std `str::trim_start`).
pub open spec fn trim_start(s: Seq<char>) -> Seq<char>
    decreases s.len(),
{
    if s.len() > 0 && white(s[0]) {
        trim_start(s.drop_first())
    } else {
        s
    }
}

/// `s` without its trailing whitespace (std `str::trim_end`).
pub open spec fn trim_end(s: Seq<char>) -> Seq<char>
    decreases s.len(),
{
    if s.len() > 0 && white(s.last()) {
        trim_end(s.drop_last())
    } else {
        s
    }
}

/// `s` without leading and trailing whitespace (std `str::trim`).
pub open spec fn trimmed(s: Seq<char>) -> Seq<char> {
    trim_end(trim_start(s))
}

/// Trimming leaves a string whose ends are not whitespace unchanged.
pub proof fn lemma_trim_noop(s: Seq<char>)
    requires
        s.len() == 0 || (!white(s[0]) && !white(s.last())),
    ensures
        trimmed(s) == s,
{
}

/// What `str::to_uppercase` gives: ASCII uppercase on ASCII text (as std documents it),
/// the named result otherwise.
pub open spec fn upper_text(s: Seq<char>) -> Seq<char> {
    if all_ascii(s) {
        ascii_upper(s)
    } else {
        uppercased(s)
    }
}

proof fn lemma_trim_start_suffix(s: Seq<char>)
    ensures
        trim_start(s).len() <= s.len(),
        trim_start(s) == s.subrange(s.len() - trim_start(s).len(), s.len() as int),
        trim_start(s).len() > 0 ==> !white(trim_start(s)[0]),
    decreases s.len(),
{
    if s.len() > 0 && white(s[0]) {
        lemma_trim_start_suffix(s.drop_first());
        assert(s.drop_first().subrange(s.drop_first().len() - trim_start(s).len(), s.drop_first().len() as int)
            =~= s.subrange(s.len() - trim_start(s).len(), s.len() as int));
    } else {
        assert(s.subrange(0, s.len() as int) =~= s);
    }
}

proof fn lemma_trim_end_prefix(s: Seq<char>)
    ensures
        trim_end(s).len() <= s.len(),
        trim_end(s) == s.subrange(0, trim_end(s).len() as int),
        trim_end(s).len() > 0 ==> !white(trim_end(s).last()),
    decreases s.len(),
{
    if s.len() > 0 && white(s.last()) {
        lemma_trim_end_prefix(s.drop_last());
        assert(s.drop_last().subrange(0, trim_end(s).len() as int) =~= s.subrange(0, trim_end(s).len() as int));
    } else {
        assert(s.subrange(0, s.len() as int) =~= s);
    }
}

/// Trimmed text is a piece of the text, and neither of its ends is whitespace.
pub proof fn lemma_trimmed_ends(s: Seq<char>)
    ensures
        trimmed(s).len() == 0 || (!white(trimmed(s)[0]) && !white(trimmed(s).last())),
        all_ascii(s) ==> all_ascii(trimmed(s)),
{
    let a = trim_start(s);
    lemma_trim_start_suffix(s);
    lemma_trim_end_prefix(a);
    let t = trim_end(a);
    if t.len() > 0 {
        assert(t[0] == a[0]);
    }
    if all_ascii(s) {
        assert forall|i: int| 0 <= i < t.len() implies is_ascii(#[trigger] t[i]) by {
            assert(t[i] == a[i]);
            assert(a[i] == s[s.len() - a.len() + i]);
        }
    }
}

/// ASCII uppercase keeps ASCII text ASCII, is idempotent, and keeps which characters
/// are whitespace.
pub proof fn lemma_ascii_upper(s: Seq<char>)
    requires
        all_ascii(s),
    ensures
        all_ascii(ascii_upper(s)),
        ascii_upper(ascii_upper(s)) == ascii_upper(s),
        forall|i: int| 0 <= i < s.len() ==> white(#[trigger] ascii_upper(s)[i]) == white(s[i]),
{
    let u = ascii_upper(s);
    assert forall|i: int| 0 <= i < s.len() implies is_ascii(#[trigger] u[i]) && upper_char(u[i]) == u[i]
        && white(u[i]) == white(s[i]) by {
        assert(is_ascii(s[i]));
    }
    assert(ascii_upper(u) =~= u);
}

/// Uppercasing trimmed ASCII text and reading it again, trimmed and uppercased, gives
/// the same text.
pub proof fn lemma_upper_trimmed_stable(s: Seq<char>)
    requires
        all_ascii(s),
    ensures
        upper_text(trimmed(upper_text(trimmed(s)))) == upper_text(trimmed(s)),
        upper_text(trimmed(s)) == ascii_upper(trimmed(s)),
{
    let t = trimmed(s);
    lemma_trimmed_ends(s);
    lemma_ascii_upper(t);
    let u = ascii_upper(t);
    if u.len() > 0 {
        assert(white(u[0]) == white(t[0]));
        assert(white(u[u.len() - 1]) == white(t[t.len() - 1]));
    }
    lemma_trim_noop(u);
}

/// The length of the run of non-whitespace characters that `s` starts with.
pub open spec fn word_len(s: Seq<char>) -> nat
    decreases s.len(),
{
    if s.len() == 0 || white(s[0]) {
        0
    } else {
        1 + word_len(s.drop_first())
    }
}

/// The first whitespace-separated word of `s`, if it has one (std
/// `str::split_whitespace().next()`).
pub open spec fn first_word(s: Seq<char>) -> Option<Seq<char>> {
    let t = trim_start(s);
    if t.len() == 0 {
        None
    } else {
        Some(t.take(word_len(t) as int))
    }
}

/// The first whitespace-separated word of `cs`.
pub fn first_word_chars(cs: &[char]) -> (r: Option<Vec<char>>)
    ensures
        match (r, first_word(cs@)) {
            (Some(v), Some(w)) => v@ == w,
            (None, None) => true,
            _ => false,
        },
{
    let mut lo: usize = 0;
    assert(cs@.skip(0) == cs@);
    while lo < cs.len() && is_whitespace(cs[lo])
        invariant
            lo <= cs.len(),
            trim_start(cs@) == trim_start(cs@.skip(lo as int)),
        decreases cs.len() - lo,
    {
        assert(cs@.skip(lo as int).drop_first() == cs@.skip(lo as int + 1));
        lo = lo + 1;
    }
    let ghost t = cs@.skip(lo as int);
    assert(trim_start(cs@) == t);
    if lo == cs.len() {
        return None;
    }
    let mut hi: usize = lo;
    while hi < cs.len() && !is_whitespace(cs[hi])
        invariant
            lo <= hi <= cs.len(),
            t == cs@.skip(lo as int),
            word_len(t) == (hi - lo) + word_len(cs@.skip(hi as int)),
        decreases cs.len() - hi,
    {
        assert(cs@.skip(hi as int).drop_first() == cs@.skip(hi as int + 1));
        hi = hi + 1;
    }
    assert(word_len(cs@.skip(hi as int)) == 0);
    assert(cs@.subrange(lo as int, hi as int) == t.take(word_len(t) as int));
    Some(crate::text::slice_chars(cs, lo, hi))
}

/// The finished words and the word in progress after scanning `s` left to right.
pub open spec fn ws_state(s: Seq<char>) -> (Seq<Seq<char>>, Seq<char>)
    decreases s.len(),
{
    if s.len() == 0 {
        (Seq::<Seq<char>>::empty(), Seq::<char>::empty())
    } else {
        let (done, cur) = ws_state(s.drop_last());
        if !white(s.last()) {
            (done, cur.push(s.last()))
        } else if cur.len() > 0 {
            (done.push(cur), Seq::<char>::empty())
        } else {
            (done, Seq::<char>::empty())
        }
    }
}

/// The whitespace-separated words of `s`, in order (std `str::split_whitespace`).
pub open spec fn ws_words(s: Seq<char>) -> Seq<Seq<char>> {
    let (done, cur) = ws_state(s);
    if cur.len() > 0 {
        done.push(cur)
    } else {
        done
    }
}

/// The whitespace-separated words of `cs`.
pub fn whitespace_words(cs: &[char]) -> (r: Vec<Vec<char>>)
    ensures
        crate::text::char_vecs_are(r@, ws_words(cs@)),
{
    let mut done: Vec<Vec<char>> = Vec::new();
    let mut cur: Vec<char> = Vec::new();
    let mut i: usize = 0;
    while i < cs.len()
        invariant
            i <= cs.len(),
            crate::text::char_vecs_are(done@, ws_state(cs@.take(i as int)).0),
            cur@ == ws_state(cs@.take(i as int)).1,
        decreases cs.len() - i,
    {
        let c = cs[i];
        let ghost pre = cs@.take(i as int + 1);
        assert(pre.drop_last() == cs@.take(i as int));
        assert(pre.last() == c);
        if !is_whitespace(c) {
            cur.push(c);
        } else if cur.len() > 0 {
            let w = cur;
            done.push(w);
            cur = Vec::new();
        } else {
            cur = Vec::new();
        }
        i = i + 1;
    }
    assert(cs@.take(cs.len() as int) == cs@);
    if cur.len() > 0 {
        done.push(cur);
    }
    done
}

/// `cs` without leading and trailing whitespace.
pub fn trim_chars(cs: &[char]) -> (r: Vec<char>)
    ensures
        r@ == trimmed(cs@),
{
    let mut lo: usize = 0;
    assert(cs@.skip(0) == cs@);
    while lo < cs.len() && is_whitespace(cs[lo])
        invariant
            lo <= cs.len(),
            trim_start(cs@) == trim_start(cs@.skip(lo as int)),
        decreases cs.len() - lo,
    {
        assert(cs@.skip(lo as int).drop_first() == cs@.skip(lo as int + 1));
        lo = lo + 1;
    }
    let ghost t = cs@.skip(lo as int);
    assert(trim_start(cs@) == t);
    let mut hi: usize = cs.len();
    while hi > lo && is_whitespace(cs[hi - 1])
        invariant
            lo <= hi <= cs.len(),
            t == cs@.skip(lo as int),
            trim_end(t) == trim_end(cs@.subrange(lo as int, hi as int)),
        decreases hi - lo,
    {
        assert(cs@.subrange(lo as int, hi as int).drop_last() == cs@.subrange(lo as int, hi - 1));
        hi = hi - 1;
    }
    assert(cs@.subrange(lo as int, cs.len() as int) == t);
    crate::text::slice_chars(cs, lo, hi)
}

/// `s` without leading and trailing whitespace, as characters.
pub fn trim_str(s: &str) -> (r: Vec<char>)
    ensures
        r@ == trimmed(s@),
{
    let cs = crate::text::chars_of(s);
    trim_chars(cs.as_slice())
}

} // verus!
