//! The dedup matcher's exact rules: the candidate a source series is matched as, the
//! cover-hash signal it may trust, the author and year corroboration, and the title
//! tokens the fuzzy block keys on.
use vstd::prelude::*;
use crate::text::opt_string;
use crate::text::{all_hex, is_hex_digit, lemma_lt_asymmetric, lemma_lt_irreflexive, lemma_lt_total, lemma_lt_transitive, seq_lt, str_eq, str_less, string_from_chars, chars_of};
use crate::unicode::{alnum, is_alphanumeric, lowercased, to_lowercase, ws_words};

verus! {

/// A source series to resolve against the canonical works.
#[derive(Debug, Clone, Default)]
pub struct Candidate {
    pub title: String,
    pub alt_titles: Vec<String>,
    pub description: Option<String>,
    pub author: Option<String>,
    pub year: Option<i64>,
    pub cover_phash: Option<String>,
    /// `(provider, external_id)` the source exposes, if any.
    pub external_ids: Vec<(String, String)>,
}

// ---------------------------------------------------------------------------
// Cover hashes
// ---------------------------------------------------------------------------

/// The value of a hex digit (either case).
pub open spec fn hex_val(c: char) -> nat {
    if '0' <= c && c <= '9' {
        ((c as u32) - 48) as nat
    } else if 'a' <= c && c <= 'f' {
        ((c as u32) - 87) as nat
    } else {
        ((c as u32) - 55) as nat
    }
}

/// The bytes that an even-length hex string spells, two digits per byte.
pub open spec fn hex_bytes_of(s: Seq<char>, b: Seq<u8>) -> bool {
    &&& b.len() * 2 == s.len()
    &&& forall|i: int| 0 <= i < b.len() ==> #[trigger] b[i] == hex_val(s[2 * i]) * 16 + hex_val(s[2 * i + 1])
}

/// `hex::decode`: the bytes of a hex string with an even number of digits, either case;
/// `None` for an odd length or a character that is not a hex digit (a non-ASCII
/// character is never a hex digit, so counting characters or bytes agrees).
#[verifier::external_body]
fn hex_decode(s: &str) -> (r: Option<Vec<u8>>)
    ensures
        r is Some <==> (s@.len() % 2 == 0 && all_hex(s@)),
        r matches Some(b) ==> hex_bytes_of(s@, b@),
{
    hex::decode(s).ok()
}

/// The number of one bits of a byte.
pub open spec fn ones(b: u8) -> nat {
    ((b & 1) + ((b >> 1u8) & 1) + ((b >> 2u8) & 1) + ((b >> 3u8) & 1) + ((b >> 4u8) & 1) + ((b
        >> 5u8) & 1) + ((b >> 6u8) & 1) + ((b >> 7u8) & 1)) as nat
}

/// The number of one bits over a byte string.
pub open spec fn total_ones(s: Seq<u8>) -> nat
    decreases s.len(),
{
    if s.len() == 0 {
        0
    } else {
        total_ones(s.drop_last()) + ones(s.last())
    }
}

fn count_ones(b: u8) -> (n: u32)
    ensures
        n == ones(b),
        n <= 8,
{
    assert((b & 1) <= 1 && ((b >> 1u8) & 1) <= 1 && ((b >> 2u8) & 1) <= 1 && ((b >> 3u8) & 1) <= 1
        && ((b >> 4u8) & 1) <= 1 && ((b >> 5u8) & 1) <= 1 && ((b >> 6u8) & 1) <= 1 && ((b >> 7u8)
        & 1) <= 1) by (bit_vector);
    ((b & 1) + ((b >> 1u8) & 1) + ((b >> 2u8) & 1) + ((b >> 3u8) & 1) + ((b >> 4u8) & 1) + ((b
        >> 5u8) & 1) + ((b >> 6u8) & 1) + ((b >> 7u8) & 1)) as u32
}

/// A cover hash that carries signal: 16 hex digits (64 bits) of which 12 to 52 are
/// set. Near-uniform hashes come from flat, letterboxed or dark covers, which two
/// different series can share.
pub open spec fn discriminative(hex: Seq<char>) -> bool {
    hex.len() == 16 && all_hex(hex) && exists|b: Seq<u8>| hex_bytes_of(hex, b) && 12 <= total_ones(b) <= 52
}

/// Whether a cover hash is discriminative enough to corroborate a merge.
pub fn is_discriminative_phash(hex: &str) -> (r: bool)
    ensures
        r == discriminative(hex@),
{
    let bytes = match hex_decode(hex) {
        Some(b) => b,
        None => return false,
    };
    if bytes.len() != 8 {
        proof {
            assert forall|b: Seq<u8>| hex_bytes_of(hex@, b) implies b.len() != 8 by {}
        }
        return false;
    }
    let mut total: u32 = 0;
    let mut i: usize = 0;
    while i < bytes.len()
        invariant
            i <= bytes.len(),
            bytes.len() == 8,
            total == total_ones(bytes@.take(i as int)),
            total <= 8 * i,
        decreases bytes.len() - i,
    {
        let n = count_ones(bytes[i]);
        assert(bytes@.take(i as int + 1).drop_last() == bytes@.take(i as int));
        total = total + n;
        i = i + 1;
    }
    assert(bytes@.take(8) == bytes@);
    proof {
        assert forall|b: Seq<u8>| hex_bytes_of(hex@, b) implies b == bytes@ by {
            assert(b =~= bytes@);
        }
    }
    12 <= total && total <= 52
}

/// Whether two release years are within one year of each other.
pub fn year_close(a: Option<i64>, b: Option<i64>) -> (r: bool)
    ensures
        r == (match (a, b) {
            (Some(x), Some(y)) => -1 <= x - y <= 1,
            _ => false,
        }),
{
    match (a, b) {
        (Some(x), Some(y)) => {
            let d: i128 = (x as i128) - (y as i128);
            -1 <= d && d <= 1
        },
        _ => false,
    }
}

// ---------------------------------------------------------------------------
// Author names
// ---------------------------------------------------------------------------

/// The finished runs and the run in progress after scanning `s` left to right.
pub open spec fn runs_state(s: Seq<char>) -> (Seq<Seq<char>>, Seq<char>)
    decreases s.len(),
{
    if s.len() == 0 {
        (Seq::<Seq<char>>::empty(), Seq::<char>::empty())
    } else {
        let (done, cur) = runs_state(s.drop_last());
        if alnum(s.last()) {
            (done, cur.push(s.last()))
        } else if cur.len() > 0 {
            (done.push(cur), Seq::<char>::empty())
        } else {
            (done, Seq::<char>::empty())
        }
    }
}

/// The maximal runs of alphanumeric characters of `s`, in order: the non-empty pieces
/// of `s` split at every character that is not alphanumeric.
pub open spec fn word_runs(s: Seq<char>) -> Seq<Seq<char>> {
    let (done, cur) = runs_state(s);
    if cur.len() > 0 {
        done.push(cur)
    } else {
        done
    }
}

/// The word tokens of an author name: the alphanumeric runs of the lowercased name.
pub open spec fn name_tokens(name: Seq<char>) -> Seq<Seq<char>> {
    word_runs(lowercased(name))
}

pub open spec fn str_views(v: Seq<String>) -> Seq<Seq<char>> {
    v.map_values(|s: String| s@)
}

/// `s` is in non-decreasing lexicographic order.
pub open spec fn strings_sorted(s: Seq<Seq<char>>) -> bool {
    forall|i: int, j: int| 0 <= i < j < s.len() ==> !seq_lt(#[trigger] s[j], #[trigger] s[i])
}

/// The word tokens of an author name, in order of appearance.
pub fn author_tokens(name: &str) -> (r: Vec<String>)
    ensures
        str_views(r@) == name_tokens(name@),
{
    let low = to_lowercase(name);
    let cs = chars_of(low.as_str());
    let mut done: Vec<String> = Vec::new();
    let mut cur: Vec<char> = Vec::new();
    let mut i: usize = 0;
    while i < cs.len()
        invariant
            i <= cs.len(),
            cs@ == lowercased(name@),
            str_views(done@) == runs_state(cs@.take(i as int)).0,
            cur@ == runs_state(cs@.take(i as int)).1,
        decreases cs.len() - i,
    {
        let c = cs[i];
        let ghost pre = cs@.take(i as int + 1);
        assert(pre.drop_last() == cs@.take(i as int));
        assert(pre.last() == c);
        if is_alphanumeric(c) {
            cur.push(c);
        } else if cur.len() > 0 {
            let w = string_from_chars(cur.as_slice());
            done.push(w);
            assert(str_views(done@) =~= runs_state(pre).0);
            cur = Vec::new();
        } else {
            cur = Vec::new();
        }
        i = i + 1;
    }
    assert(cs@.take(cs.len() as int) == cs@);
    if cur.len() > 0 {
        let w = string_from_chars(cur.as_slice());
        done.push(w);
        assert(str_views(done@) =~= word_runs(cs@));
    }
    done
}

/// `v` sorted lexicographically (std `sort` on `Vec<String>`).
pub fn sort_strings(v: Vec<String>) -> (r: Vec<String>)
    ensures
        strings_sorted(str_views(r@)),
        str_views(r@).to_multiset() == str_views(v@).to_multiset(),
{
    broadcast use vstd::seq_lib::group_to_multiset_ensures;
    let mut out: Vec<String> = Vec::new();
    let mut i: usize = 0;
    while i < v.len()
        invariant
            i <= v.len(),
            strings_sorted(str_views(out@)),
            str_views(out@).to_multiset() == str_views(v@.take(i as int)).to_multiset(),
        decreases v.len() - i,
    {
        let x = v[i].clone();
        let ghost xv = x@;
        let ghost ov = str_views(out@);
        let mut p: usize = 0;
        let mut stop = false;
        while p < out.len() && !stop
            invariant
                p <= out.len(),
                ov == str_views(out@),
                xv == x@,
                forall|k: int| 0 <= k < p ==> !seq_lt(xv, #[trigger] ov[k]),
                stop ==> p < out.len() && seq_lt(xv, ov[p as int]),
            decreases out.len() - p, if stop { 0int } else { 1int },
        {
            if str_less(x.as_str(), out[p].as_str()) {
                stop = true;
            } else {
                p = p + 1;
            }
        }
        proof {
            assert forall|k: int| p <= k < ov.len() implies !seq_lt(#[trigger] ov[k], xv) by {
                if seq_lt(ov[k], xv) {
                    lemma_lt_transitive(ov[k], xv, ov[p as int]);
                    if k == p {
                        lemma_lt_irreflexive(ov[k]);
                    }
                }
            }
        }
        out.insert(p, x);
        let ghost nv = str_views(out@);
        assert(nv =~= ov.insert(p as int, xv));
        proof {
            assert forall|a: int, b: int| 0 <= a < b < nv.len() implies !seq_lt(
                #[trigger] nv[b],
                #[trigger] nv[a],
            ) by {
                if a < p && b < p {
                } else if a < p && b == p {
                } else if a < p && b > p {
                    assert(nv[b] == ov[b - 1]);
                    if seq_lt(nv[b], nv[a]) {
                        assert(!seq_lt(ov[b - 1], ov[a]));
                    }
                } else if a == p {
                    assert(nv[b] == ov[b - 1]);
                } else {
                    assert(nv[a] == ov[a - 1]);
                    assert(nv[b] == ov[b - 1]);
                }
            }
            assert(v@.take(i as int + 1) == v@.take(i as int).push(v@[i as int]));
            assert(str_views(v@.take(i as int + 1)) =~= str_views(v@.take(i as int)).push(xv));
            vstd::seq_lib::to_multiset_insert(ov, p as int, xv);
            vstd::seq_lib::to_multiset_build(str_views(v@.take(i as int)), xv);
        }
        i = i + 1;
    }
    assert(v@.take(v.len() as int) == v@);
    out
}

/// The order-insensitive key of an author name: its word tokens, sorted.
pub fn author_key(name: &str) -> (r: Vec<String>)
    ensures
        strings_sorted(str_views(r@)),
        str_views(r@).to_multiset() == name_tokens(name@).to_multiset(),
{
    let toks = author_tokens(name);
    sort_strings(toks)
}

/// Two sorted sequences with the same elements are equal.
pub proof fn lemma_sorted_unique(a: Seq<Seq<char>>, b: Seq<Seq<char>>)
    requires
        strings_sorted(a),
        strings_sorted(b),
        a.to_multiset() == b.to_multiset(),
    ensures
        a == b,
    decreases a.len(),
{
    broadcast use vstd::seq_lib::group_to_multiset_ensures;
    assert(a.len() == a.to_multiset().len());
    assert(b.len() == b.to_multiset().len());
    if a.len() > 0 {
        assert(a.to_multiset().count(a[0]) > 0);
        assert(b.contains(a[0]));
        let j = choose|j: int| 0 <= j < b.len() && b[j] == a[0];
        assert(b.to_multiset().count(b[0]) > 0);
        assert(a.contains(b[0]));
        let i = choose|i: int| 0 <= i < a.len() && a[i] == b[0];
        if j > 0 {
            assert(!seq_lt(b[j], b[0]));
        }
        if i > 0 {
            assert(!seq_lt(a[i], a[0]));
        }
        lemma_lt_total(a[0], b[0]);
        assert(a[0] == b[0]);
        assert(a.remove(0) == a.drop_first());
        assert(b.remove(0) == b.drop_first());
        lemma_sorted_unique(a.drop_first(), b.drop_first());
        assert(a =~= seq![a[0]] + a.drop_first());
        assert(b =~= seq![b[0]] + b.drop_first());
    } else {
        assert(a =~= b);
    }
}

fn keys_equal(a: &Vec<String>, b: &Vec<String>) -> (r: bool)
    ensures
        r == (str_views(a@) == str_views(b@)),
{
    if a.len() != b.len() {
        assert(str_views(a@).len() != str_views(b@).len());
        return false;
    }
    let mut i: usize = 0;
    while i < a.len()
        invariant
            i <= a.len(),
            a.len() == b.len(),
            forall|k: int| 0 <= k < i ==> a@[k]@ == b@[k]@,
        decreases a.len() - i,
    {
        if !str_eq(a[i].as_str(), b[i].as_str()) {
            assert(str_views(a@)[i as int] != str_views(b@)[i as int]);
            return false;
        }
        i = i + 1;
    }
    assert(str_views(a@) =~= str_views(b@));
    true
}

/// Two author names corroborate when both are present, the first has a word, and they
/// have the same words in any order (the same token multiset).
pub open spec fn authors_match(a: Option<Seq<char>>, b: Option<Seq<char>>) -> bool {
    match (a, b) {
        (Some(x), Some(y)) => name_tokens(x).len() > 0 && name_tokens(x).to_multiset()
            == name_tokens(y).to_multiset(),
        _ => false,
    }
}

/// Whether two author names corroborate a match, whatever their word order.
pub fn author_matches(a: &Option<String>, b: &Option<String>) -> (r: bool)
    ensures
        r == authors_match(opt_string(*a), opt_string(*b)),
{
    broadcast use vstd::seq_lib::group_to_multiset_ensures;
    match (a, b) {
        (Some(x), Some(y)) => {
            let ka = author_key(x.as_str());
            if ka.len() == 0 {
                assert(str_views(ka@).to_multiset().len() == 0);
                assert(name_tokens(x@).len() == name_tokens(x@).to_multiset().len());
                return false;
            }
            assert(str_views(ka@).len() == str_views(ka@).to_multiset().len());
            assert(name_tokens(x@).len() == name_tokens(x@).to_multiset().len());
            let kb = author_key(y.as_str());
            let same = keys_equal(&ka, &kb);
            proof {
                if name_tokens(x@).to_multiset() == name_tokens(y@).to_multiset() {
                    lemma_sorted_unique(str_views(ka@), str_views(kb@));
                }
            }
            same
        },
        _ => false,
    }
}

/// Author corroboration is symmetric: when `a` matches `b`, `b` matches `a` (both have a
/// word and the same words, in whatever order).
pub proof fn lemma_author_match_is_symmetric(a: Seq<char>, b: Seq<char>)
    requires
        authors_match(Some(a), Some(b)),
    ensures
        authors_match(Some(b), Some(a)),
{
    broadcast use vstd::seq_lib::group_to_multiset_ensures;
    assert(name_tokens(a).len() == name_tokens(a).to_multiset().len());
    assert(name_tokens(b).len() == name_tokens(b).to_multiset().len());
}

// ---------------------------------------------------------------------------
// Fuzzy-block tokens
// ---------------------------------------------------------------------------

/// Every whitespace-separated word of the titles, title by title.
pub open spec fn title_words(titles: Seq<Seq<char>>) -> Seq<Seq<char>>
    decreases titles.len(),
{
    if titles.len() == 0 {
        Seq::empty()
    } else {
        title_words(titles.drop_last()) + ws_words(titles.last())
    }
}

/// A word the fuzzy block may key on: at least three characters, from one of the
/// titles.
pub open spec fn block_token(titles: Seq<Seq<char>>, w: Seq<char>) -> bool {
    w.len() >= 3 && title_words(titles).contains(w)
}

/// `a` comes before `b` in the block order: longer first, then lexicographic.
pub open spec fn tok_before(a: Seq<char>, b: Seq<char>) -> bool {
    a.len() > b.len() || (a.len() == b.len() && seq_lt(a, b))
}

/// `s` is strictly increasing in the block order (so no token repeats).
pub open spec fn tokens_ordered(s: Seq<Seq<char>>) -> bool {
    forall|i: int, j: int| 0 <= i < j < s.len() ==> tok_before(#[trigger] s[i], #[trigger] s[j])
}

proof fn lemma_tok_before_transitive(a: Seq<char>, b: Seq<char>, c: Seq<char>)
    requires
        tok_before(a, b),
        tok_before(b, c),
    ensures
        tok_before(a, c),
{
    if a.len() == b.len() && b.len() == c.len() {
        lemma_lt_transitive(a, b, c);
    }
}

proof fn lemma_tok_before_total(a: Seq<char>, b: Seq<char>)
    ensures
        a == b || tok_before(a, b) || tok_before(b, a),
{
    lemma_lt_total(a, b);
}

proof fn lemma_tok_before_irreflexive(a: Seq<char>)
    ensures
        !tok_before(a, a),
{
    lemma_lt_irreflexive(a);
}

pub open spec fn char_views(v: Seq<Vec<char>>) -> Seq<Seq<char>> {
    v.map_values(|w: Vec<char>| w@)
}

/// Inserts `x` into the ordered, repeat-free `list` unless it is already there.
fn insert_token(list: &mut Vec<Vec<char>>, x: Vec<char>)
    requires
        tokens_ordered(char_views(old(list)@)),
    ensures
        tokens_ordered(char_views(final(list)@)),
        forall|q: Seq<char>| char_views(final(list)@).contains(q) <==> (char_views(old(list)@).contains(q) || q == x@),
{
    let ghost ov = char_views(list@);
    let mut p: usize = 0;
    let mut stop = false;
    while p < list.len() && !stop
        invariant
            p <= list.len(),
            ov == char_views(list@),
            tokens_ordered(ov),
            forall|k: int| 0 <= k < p ==> tok_before(#[trigger] ov[k], x@),
            stop ==> p < list.len() && !tok_before(ov[p as int], x@),
        decreases list.len() - p, if stop { 0int } else { 1int },
    {
        let before = x.len() < list[p].len() || (x.len() == list[p].len() && crate::text::less_chars(list[p].as_slice(), x.as_slice()));
        assert(ov[p as int] == list@[p as int]@);
        if before {
            p = p + 1;
        } else {
            stop = true;
        }
    }
    if p < list.len() && crate::text::chars_eq(list[p].as_slice(), x.as_slice()) {
        assert(ov[p as int] == x@);
        return;
    }
    proof {
        if p < ov.len() {
            assert(!tok_before(ov[p as int], x@));
            lemma_tok_before_total(ov[p as int], x@);
            assert(ov[p as int] != x@);
            assert(tok_before(x@, ov[p as int]));
            assert forall|k: int| p <= k < ov.len() implies tok_before(x@, #[trigger] ov[k]) by {
                if k > p {
                    lemma_tok_before_transitive(x@, ov[p as int], ov[k]);
                }
            }
        }
        assert forall|k: int| 0 <= k < ov.len() implies ov[k] != x@ by {
            if k < p {
                lemma_tok_before_irreflexive(x@);
            } else {
                lemma_tok_before_irreflexive(x@);
            }
        }
    }
    list.insert(p, x);
    proof {
        let nv = char_views(list@);
        assert(nv =~= ov.insert(p as int, x@));
        assert forall|a: int, b: int| 0 <= a < b < nv.len() implies tok_before(#[trigger] nv[a], #[trigger] nv[b]) by {
            if a < p && b == p {
            } else if a < p && b > p {
                assert(nv[b] == ov[b - 1]);
                if b - 1 > a {
                } else {
                }
            } else if a == p {
                assert(nv[b] == ov[b - 1]);
            } else if a > p {
                assert(nv[a] == ov[a - 1]);
                assert(nv[b] == ov[b - 1]);
            }
        }
        assert forall|q: Seq<char>| nv.contains(q) <==> (ov.contains(q) || q == x@) by {
            if nv.contains(q) {
                let k = choose|k: int| 0 <= k < nv.len() && nv[k] == q;
                if k < p {
                    assert(ov[k] == q);
                } else if k > p {
                    assert(ov[k - 1] == q);
                }
            }
            if ov.contains(q) {
                let k = choose|k: int| 0 <= k < ov.len() && ov[k] == q;
                if k < p {
                    assert(nv[k] == q);
                } else {
                    assert(nv[k + 1] == q);
                }
            }
            if q == x@ {
                assert(nv[p as int] == q);
            }
        }
    }
}

/// The `n` first tokens of the titles in block order (longest first, then
/// lexicographic), each at least three characters long and none repeated: the tokens
/// the fuzzy block keys on.
pub fn top_tokens(norm_titles: &[String], n: usize) -> (r: Vec<String>)
    ensures
        r@.len() <= n,
        tokens_ordered(str_views(r@)),
        forall|i: int| 0 <= i < r@.len() ==> block_token(str_views(norm_titles@), #[trigger] r@[i]@),
        forall|q: Seq<char>| block_token(str_views(norm_titles@), q) && !str_views(r@).contains(q)
            ==> r@.len() == n && forall|i: int| 0 <= i < r@.len() ==> tok_before(#[trigger] r@[i]@, q),
{
    let ghost titles = str_views(norm_titles@);
    let mut list: Vec<Vec<char>> = Vec::new();
    let mut t: usize = 0;
    while t < norm_titles.len()
        invariant
            t <= norm_titles.len(),
            titles == str_views(norm_titles@),
            tokens_ordered(char_views(list@)),
            forall|q: Seq<char>| #[trigger] char_views(list@).contains(q) <==> block_token(titles.take(t as int), q),
        decreases norm_titles.len() - t,
    {
        let cs = chars_of(norm_titles[t].as_str());
        let words = crate::unicode::whitespace_words(cs.as_slice());
        let ghost before = titles.take(t as int);
        let ghost next = titles.take(t as int + 1);
        let ghost ws = ws_words(cs@);
        assert(next.drop_last() == before);
        assert(next.last() == cs@);
        assert(title_words(next) == title_words(before) + ws);
        let mut k: usize = 0;
        while k < words.len()
            invariant
                k <= words.len(),
                crate::text::char_vecs_are(words@, ws),
                tokens_ordered(char_views(list@)),
                forall|q: Seq<char>| #[trigger] char_views(list@).contains(q) <==> (
                    (q.len() >= 3 && title_words(before).contains(q)) || (q.len() >= 3 && ws.take(k as int).contains(q))),
            decreases words.len() - k,
        {
            let w = crate::text::slice_chars(words[k].as_slice(), 0, words[k].len());
            assert(w@ =~= ws[k as int]);
            let ghost lv0 = char_views(list@);
            let ghost wv = w@;
            let ghost kk = k as int;
            let ghost w0 = ws.take(kk);
            let ghost w1 = ws.take(kk + 1);
            let ghost tb = title_words(before);
            if w.len() >= 3 {
                insert_token(&mut list, w);
            }
            proof {
                assert forall|q: Seq<char>| w1.contains(q) <==> (w0.contains(q) || q == ws[kk]) by {
                    if w1.contains(q) {
                        let j = choose|j: int| 0 <= j < w1.len() && w1[j] == q;
                        if j < kk {
                            assert(w0[j] == q);
                        }
                    }
                    if w0.contains(q) {
                        let j = choose|j: int| 0 <= j < w0.len() && w0[j] == q;
                        assert(w1[j] == q);
                    }
                    if q == ws[kk] {
                        assert(w1[kk] == q);
                    }
                }
                assert forall|q: Seq<char>| char_views(list@).contains(q) <==> ((q.len() >= 3
                    && tb.contains(q)) || (q.len() >= 3 && w1.contains(q))) by {
                    assert(lv0.contains(q) <==> ((q.len() >= 3 && tb.contains(q)) || (q.len() >= 3
                        && w0.contains(q))));
                    if wv.len() >= 3 {
                        assert(char_views(list@).contains(q) <==> (lv0.contains(q) || q == wv));
                    } else {
                        assert(char_views(list@) == lv0);
                    }
                }
            }
            k = k + 1;
            assert(ws.take(k as int) == w1);
        }
        assert(ws.take(words.len() as int) == ws);
        proof {
            assert forall|q: Seq<char>| #[trigger] char_views(list@).contains(q) <==> block_token(next, q) by {
                let tb = title_words(before);
                assert(title_words(next) == tb + ws);
                assert(char_views(list@).contains(q) <==> ((q.len() >= 3 && tb.contains(q)) || (q.len() >= 3
                    && ws.take(words.len() as int).contains(q))));
                if (tb + ws).contains(q) {
                    let j = choose|j: int| 0 <= j < (tb + ws).len() && (tb + ws)[j] == q;
                    if j < tb.len() {
                        assert(tb[j] == q);
                    } else {
                        assert(ws[j - tb.len()] == q);
                    }
                }
                if tb.contains(q) {
                    let j = choose|j: int| 0 <= j < tb.len() && tb[j] == q;
                    assert((tb + ws)[j] == q);
                }
                if ws.contains(q) {
                    let j = choose|j: int| 0 <= j < ws.len() && ws[j] == q;
                    assert((tb + ws)[tb.len() + j] == q);
                }
            }
        }
        t = t + 1;
        assert(titles.take(t as int) == next);
    }
    assert(titles.take(norm_titles.len() as int) == titles);
    let mut r: Vec<String> = Vec::new();
    let mut i: usize = 0;
    while i < list.len() && i < n
        invariant
            i <= list.len(),
            i <= n,
            r@.len() == i,
            forall|j: int| 0 <= j < i ==> (#[trigger] r@[j])@ == list@[j]@,
        decreases list.len() - i,
    {
        r.push(string_from_chars(list[i].as_slice()));
        i = i + 1;
    }
    proof {
        let lv = char_views(list@);
        let rv = str_views(r@);
        assert(rv =~= lv.take(i as int));
        assert forall|q: Seq<char>| block_token(titles, q) && !rv.contains(q) implies r@.len() == n
            && forall|j: int| 0 <= j < r@.len() ==> tok_before(#[trigger] r@[j]@, q) by {
            assert(lv.contains(q));
            let m = choose|m: int| 0 <= m < lv.len() && lv[m] == q;
            if m < i {
                assert(rv[m] == q);
            }
            assert forall|j: int| 0 <= j < r@.len() implies tok_before(#[trigger] r@[j]@, q) by {
                assert(r@[j]@ == lv[j]);
            }
        }
        assert forall|j: int| 0 <= j < r@.len() implies block_token(titles, #[trigger] r@[j]@) by {
            assert(lv.contains(lv[j]));
        }
    }
    r
}

} // verus!
