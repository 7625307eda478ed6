//! The catalogue's enums and their stored words, the content-rating tiers Browse
//! filters by, and the rule that resolves a work's comic type from an admin override,
//! its original language, its genre tags and the script of its title.
use vstd::prelude::*;
use crate::text::{chars_of, contains_chars, has_prefix, has_substring, opt_string, opt_str, parse_i64_chars, parse_signed, starts_with_chars, str_eq, string_from_chars};
use crate::unicode::{all_ascii, ascii_upper, lemma_trim_noop, lemma_upper_trimmed_stable, lowercased, to_lowercase, to_uppercase, trim_str, trimmed, upper_text, uppercased};

verus! {

#[derive(Copy, Clone, Eq, PartialEq, Debug, Structural)]
pub enum ComicType {
    Manga,
    Manhwa,
    Manhua,
    Webtoon,
    Comic,
}

#[derive(Copy, Clone, Eq, PartialEq, Debug, Structural)]
pub enum SeriesStatus {
    Ongoing,
    Completed,
    Hiatus,
    Cancelled,
    Unknown,
}

/// How Browse orders the catalogue.
#[derive(Copy, Clone, Eq, PartialEq, Debug, Structural)]
pub enum BrowseSort {
    /// Most-viewed over the last 24 hours first, then newest release.
    Trending,
    /// Newest upstream chapter release first.
    Newest,
    /// Highest user-review average first, then newest release for the unrated.
    Rating,
    /// Most English chapters first.
    Chapters,
}

/// The content-rating floor Browse filters by. Cumulative, except `NsfwOnly`.
#[derive(Copy, Clone, Eq, PartialEq, Debug, Structural)]
pub enum ContentRatingFilter {
    /// No rating clause at all.
    All,
    Safe,
    Suggestive,
    Erotica,
    /// Admits every stored rating, like `All`.
    Pornographic,
    /// Adult-rated works only: the complement of `Safe`, filtered on `is_nsfw`.
    NsfwOnly,
}

#[derive(Copy, Clone, Eq, PartialEq, Debug, Structural)]
pub enum DiscoveryFeedKind {
    Popular,
    Trending,
    RecentlyUpdated,
    RecentlyAdded,
    Genre,
}

/// Which listing of a source to browse.
#[derive(Copy, Clone, Eq, PartialEq, Debug, Structural)]
pub enum SourceBrowseType {
    Popular,
    Latest,
    Search,
}

/// The `content_rating` values one cumulative tier admits (`None`: no clause).
pub open spec fn rating_tier(f: ContentRatingFilter) -> Option<Seq<Seq<char>>> {
    match f {
        ContentRatingFilter::All | ContentRatingFilter::Pornographic
        | ContentRatingFilter::NsfwOnly => None,
        ContentRatingFilter::Safe => Some(seq!["safe"@]),
        ContentRatingFilter::Suggestive => Some(seq!["safe"@, "suggestive"@]),
        ContentRatingFilter::Erotica => Some(seq!["safe"@, "suggestive"@, "erotica"@]),
    }
}

/// The `content_rating` values one cumulative tier admits, or `None` for "no clause".
pub fn content_rating_tier(f: ContentRatingFilter) -> (r: Option<Vec<&'static str>>)
    ensures
        match (r, rating_tier(f)) {
            (Some(v), Some(w)) => v@.map_values(|s: &'static str| s@) == w,
            (None, None) => true,
            _ => false,
        },
{
    match f {
        ContentRatingFilter::All | ContentRatingFilter::Pornographic
        | ContentRatingFilter::NsfwOnly => None,
        ContentRatingFilter::Safe => {
            let v = vec!["safe"];
            assert(v@.map_values(|s: &'static str| s@) =~= seq!["safe"@]);
            Some(v)
        },
        ContentRatingFilter::Suggestive => {
            let v = vec!["safe", "suggestive"];
            assert(v@.map_values(|s: &'static str| s@) =~= seq!["safe"@, "suggestive"@]);
            Some(v)
        },
        ContentRatingFilter::Erotica => {
            let v = vec!["safe", "suggestive", "erotica"];
            assert(v@.map_values(|s: &'static str| s@) =~= seq![
                "safe"@,
                "suggestive"@,
                "erotica"@,
            ]);
            Some(v)
        },
    }
}

/// Whether this filter restricts to adult-rated works only (`is_nsfw = 1`).
pub fn content_rating_nsfw_only(f: ContentRatingFilter) -> (r: bool)
    ensures
        r == (f == ContentRatingFilter::NsfwOnly),
{
    match f {
        ContentRatingFilter::NsfwOnly => true,
        _ => false,
    }
}

/// The collapsed format word the feed stores: `WEBTOON` folds into `MANHWA` and
/// `COMIC` into `MANGA`.
pub fn collapsed_comic_type_word(t: ComicType) -> (r: &'static str)
    ensures
        r@ == match t {
            ComicType::Manhwa | ComicType::Webtoon => "MANHWA"@,
            ComicType::Manhua => "MANHUA"@,
            ComicType::Manga | ComicType::Comic => "MANGA"@,
        },
{
    match t {
        ComicType::Manhwa | ComicType::Webtoon => "MANHWA",
        ComicType::Manhua => "MANHUA",
        ComicType::Manga | ComicType::Comic => "MANGA",
    }
}

pub open spec fn status_text(s: SeriesStatus) -> Seq<char> {
    match s {
        SeriesStatus::Ongoing => "ONGOING"@,
        SeriesStatus::Completed => "COMPLETED"@,
        SeriesStatus::Hiatus => "HIATUS"@,
        SeriesStatus::Cancelled => "CANCELLED"@,
        SeriesStatus::Unknown => "UNKNOWN"@,
    }
}

/// A `SeriesStatus` as its stored word.
pub fn status_word(s: SeriesStatus) -> (r: &'static str)
    ensures
        r@ == status_text(s),
{
    match s {
        SeriesStatus::Ongoing => "ONGOING",
        SeriesStatus::Completed => "COMPLETED",
        SeriesStatus::Hiatus => "HIATUS",
        SeriesStatus::Cancelled => "CANCELLED",
        SeriesStatus::Unknown => "UNKNOWN",
    }
}

pub open spec fn status_from_rule(s: Seq<char>) -> SeriesStatus {
    if s == "ONGOING"@ {
        SeriesStatus::Ongoing
    } else if s == "COMPLETED"@ || s == "PUBLISHING_FINISHED"@ || s == "LICENSED"@ {
        SeriesStatus::Completed
    } else if s == "CANCELLED"@ {
        SeriesStatus::Cancelled
    } else if s == "ON_HIATUS"@ {
        SeriesStatus::Hiatus
    } else {
        SeriesStatus::Unknown
    }
}

/// Maps a Suwayomi status string onto the Komika `SeriesStatus`.
pub fn status_from(s: &str) -> (r: SeriesStatus)
    ensures
        r == status_from_rule(s@),
{
    if str_eq(s, "ONGOING") {
        SeriesStatus::Ongoing
    } else if str_eq(s, "COMPLETED") || str_eq(s, "PUBLISHING_FINISHED") || str_eq(s, "LICENSED") {
        SeriesStatus::Completed
    } else if str_eq(s, "CANCELLED") {
        SeriesStatus::Cancelled
    } else if str_eq(s, "ON_HIATUS") {
        SeriesStatus::Hiatus
    } else {
        SeriesStatus::Unknown
    }
}

/// The scanner auto-pauses for these statuses.
pub fn paused_for_status(status: SeriesStatus) -> (r: bool)
    ensures
        r == (status == SeriesStatus::Completed || status == SeriesStatus::Hiatus || status
            == SeriesStatus::Cancelled),
{
    match status {
        SeriesStatus::Completed | SeriesStatus::Hiatus | SeriesStatus::Cancelled => true,
        _ => false,
    }
}

pub open spec fn komika_status_rule(s: Seq<char>) -> Option<SeriesStatus> {
    if s == "ONGOING"@ {
        Some(SeriesStatus::Ongoing)
    } else if s == "COMPLETED"@ {
        Some(SeriesStatus::Completed)
    } else if s == "HIATUS"@ {
        Some(SeriesStatus::Hiatus)
    } else if s == "CANCELLED"@ {
        Some(SeriesStatus::Cancelled)
    } else if s == "UNKNOWN"@ {
        Some(SeriesStatus::Unknown)
    } else {
        None
    }
}

/// Parses a stored status-override word back into the enum.
pub fn komika_status(s: &str) -> (r: Option<SeriesStatus>)
    ensures
        r == komika_status_rule(s@),
{
    if str_eq(s, "ONGOING") {
        Some(SeriesStatus::Ongoing)
    } else if str_eq(s, "COMPLETED") {
        Some(SeriesStatus::Completed)
    } else if str_eq(s, "HIATUS") {
        Some(SeriesStatus::Hiatus)
    } else if str_eq(s, "CANCELLED") {
        Some(SeriesStatus::Cancelled)
    } else if str_eq(s, "UNKNOWN") {
        Some(SeriesStatus::Unknown)
    } else {
        None
    }
}

pub open spec fn type_text(t: ComicType) -> Seq<char> {
    match t {
        ComicType::Manga => "MANGA"@,
        ComicType::Manhwa => "MANHWA"@,
        ComicType::Manhua => "MANHUA"@,
        ComicType::Webtoon => "WEBTOON"@,
        ComicType::Comic => "COMIC"@,
    }
}

/// The stored word for a comic type.
pub fn content_type_word(t: ComicType) -> (r: &'static str)
    ensures
        r@ == type_text(t),
{
    match t {
        ComicType::Manga => "MANGA",
        ComicType::Manhwa => "MANHWA",
        ComicType::Manhua => "MANHUA",
        ComicType::Webtoon => "WEBTOON",
        ComicType::Comic => "COMIC",
    }
}

/// The comic type named by an upper-case word.
pub open spec fn type_of_upper(w: Seq<char>) -> Option<ComicType> {
    if w == "MANGA"@ {
        Some(ComicType::Manga)
    } else if w == "MANHWA"@ {
        Some(ComicType::Manhwa)
    } else if w == "MANHUA"@ {
        Some(ComicType::Manhua)
    } else if w == "WEBTOON"@ {
        Some(ComicType::Webtoon)
    } else if w == "COMIC"@ {
        Some(ComicType::Comic)
    } else {
        None
    }
}

/// A stored comic-type word read back: trimmed, then case-insensitive.
pub open spec fn type_word_rule(s: Seq<char>) -> Option<ComicType> {
    type_of_upper(upper_text(trimmed(s)))
}

/// Every stored comic-type word reads back as its type.
pub proof fn lemma_type_word_round_trip(t: ComicType)
    ensures
        type_word_rule(type_text(t)) == Some(t),
{
    lemma_type_text_reads_back(t);
}

/// Reading a word is stable under trimming and uppercasing it first: for ASCII text
/// `s`, `s` and its trimmed, uppercased form name the same type (or both none).
pub proof fn lemma_type_word_reads_trimmed_upper(s: Seq<char>)
    requires
        all_ascii(s),
    ensures
        type_word_rule(upper_text(trimmed(s))) == type_word_rule(s),
        type_word_rule(ascii_upper(trimmed(s))) == type_word_rule(s),
{
    lemma_upper_trimmed_stable(s);
}

/// Parses a stored comic-type word back to the enum (trimmed, case-insensitive).
pub fn comic_type_from_word(s: &str) -> (r: Option<ComicType>)
    ensures
        r == type_word_rule(s@),
        forall|t: ComicType| s@ == type_text(t) ==> r == Some(t),
        all_ascii(s@) ==> r == type_word_rule(ascii_upper(trimmed(s@))),
{
    proof {
        if all_ascii(s@) {
            lemma_upper_trimmed_stable(s@);
        }
    }
    let t = trim_str(s);
    let t = string_from_chars(t.as_slice());
    let u = to_uppercase(t.as_str());
    proof {
        assert forall|k: ComicType| s@ == type_text(k) implies type_word_rule(s@) == Some(k) by {
            lemma_type_text_reads_back(k);
        }
    }
    let u = u.as_str();
    if str_eq(u, "MANGA") {
        Some(ComicType::Manga)
    } else if str_eq(u, "MANHWA") {
        Some(ComicType::Manhwa)
    } else if str_eq(u, "MANHUA") {
        Some(ComicType::Manhua)
    } else if str_eq(u, "WEBTOON") {
        Some(ComicType::Webtoon)
    } else if str_eq(u, "COMIC") {
        Some(ComicType::Comic)
    } else {
        None
    }
}

proof fn lemma_type_text_reads_back(t: ComicType)
    ensures
        all_ascii(type_text(t)),
        trimmed(type_text(t)) == type_text(t),
        ascii_upper(type_text(t)) == type_text(t),
        type_of_upper(type_text(t)) == Some(t),
{
    reveal_strlit("MANGA");
    reveal_strlit("MANHWA");
    reveal_strlit("MANHUA");
    reveal_strlit("WEBTOON");
    reveal_strlit("COMIC");
    let w = type_text(t);
    assert(ascii_upper(w) =~= w);
    lemma_trim_noop(w);
    assert("MANHUA"@[4] != "MANHWA"@[4]);
    assert("COMIC"@[0] != "MANGA"@[0]);
    if t == ComicType::Manhua {
        assert(w != "MANHWA"@);
        assert(w != "MANGA"@);
    }
    if t == ComicType::Comic {
        assert(w != "MANGA"@);
        assert(w != "MANHWA"@);
        assert(w != "MANHUA"@);
        assert(w != "WEBTOON"@);
    }
    if t == ComicType::Manhwa {
        assert(w != "MANGA"@);
    }
    if t == ComicType::Webtoon {
        assert(w != "MANGA"@);
        assert(w != "MANHWA"@);
        assert(w != "MANHUA"@);
    }
}

/// Reading back the stored word of a status gives the status again.
pub proof fn lemma_status_word_round_trip(s: SeriesStatus)
    ensures
        komika_status_rule(status_text(s)) == Some(s),
{
    reveal_strlit("ONGOING");
    reveal_strlit("COMPLETED");
    reveal_strlit("HIATUS");
    reveal_strlit("CANCELLED");
    reveal_strlit("UNKNOWN");
    let w = status_text(s);
    assert("CANCELLED"@[1] != "COMPLETED"@[1]);
    assert("UNKNOWN"@[0] != "ONGOING"@[0]);
    if s == SeriesStatus::Completed {
        assert(w != "ONGOING"@);
    }
    if s == SeriesStatus::Hiatus {
        assert(w != "ONGOING"@);
        assert(w != "COMPLETED"@);
    }
    if s == SeriesStatus::Cancelled {
        assert(w != "ONGOING"@);
        assert(w != "COMPLETED"@);
        assert(w != "HIATUS"@);
    }
    if s == SeriesStatus::Unknown {
        assert(w != "ONGOING"@);
        assert(w != "COMPLETED"@);
        assert(w != "HIATUS"@);
        assert(w != "CANCELLED"@);
    }
}

// ---------------------------------------------------------------------------
// Resolving a work's comic type
// ---------------------------------------------------------------------------

/// A Hangul syllable or jamo.
pub open spec fn hangul_char(c: char) -> bool {
    ||| ('\u{AC00}' <= c && c <= '\u{D7A3}')
    ||| ('\u{1100}' <= c && c <= '\u{11FF}')
    ||| ('\u{3130}' <= c && c <= '\u{318F}')
}

pub open spec fn kana_char(c: char) -> bool {
    ||| ('\u{3040}' <= c && c <= '\u{309F}')
    ||| ('\u{30A0}' <= c && c <= '\u{30FF}')
}

pub open spec fn han_char(c: char) -> bool {
    ||| ('\u{4E00}' <= c && c <= '\u{9FFF}')
    ||| ('\u{3400}' <= c && c <= '\u{4DBF}')
}

fn is_hangul(c: char) -> (b: bool)
    ensures
        b == hangul_char(c),
{
    ('\u{AC00}' <= c && c <= '\u{D7A3}') || ('\u{1100}' <= c && c <= '\u{11FF}') || ('\u{3130}'
        <= c && c <= '\u{318F}')
}

fn is_kana(c: char) -> (b: bool)
    ensures
        b == kana_char(c),
{
    ('\u{3040}' <= c && c <= '\u{309F}') || ('\u{30A0}' <= c && c <= '\u{30FF}')
}

fn is_han(c: char) -> (b: bool)
    ensures
        b == han_char(c),
{
    ('\u{4E00}' <= c && c <= '\u{9FFF}') || ('\u{3400}' <= c && c <= '\u{4DBF}')
}

/// The comic type an original-language tag implies (ko, zh, ja; case-insensitive).
pub open spec fn language_type(l: Seq<char>) -> Option<ComicType> {
    let low = lowercased(l);
    if has_prefix(low, "ko"@) {
        Some(ComicType::Manhwa)
    } else if has_prefix(low, "zh"@) {
        Some(ComicType::Manhua)
    } else if has_prefix(low, "ja"@) {
        Some(ComicType::Manga)
    } else {
        None
    }
}

/// The comic type an explicit origin tag names, if it names one.
pub open spec fn origin_tag_type(g: Seq<char>) -> Option<ComicType> {
    let low = lowercased(g);
    if has_substring(low, "manhwa"@) || has_substring(low, "korean"@) {
        Some(ComicType::Manhwa)
    } else if has_substring(low, "manhua"@) || has_substring(low, "chinese"@) {
        Some(ComicType::Manhua)
    } else if has_substring(low, "japanese"@) {
        Some(ComicType::Manga)
    } else {
        None
    }
}

/// The type named by the first origin tag among `genres`.
pub open spec fn first_origin(genres: Seq<Seq<char>>) -> Option<ComicType>
    decreases genres.len(),
{
    if genres.len() == 0 {
        None
    } else {
        match origin_tag_type(genres[0]) {
            Some(t) => Some(t),
            None => first_origin(genres.drop_first()),
        }
    }
}

/// A webtoon-format tag (`webtoon`, `long strip`, `web comic`; case-insensitive).
pub open spec fn webtoon_tag(g: Seq<char>) -> bool {
    let low = lowercased(g);
    has_substring(low, "webtoon"@) || has_substring(low, "long strip"@) || has_substring(
        low,
        "web comic"@,
    )
}

pub open spec fn any_webtoon(genres: Seq<Seq<char>>) -> bool {
    exists|i: int| 0 <= i < genres.len() && webtoon_tag(#[trigger] genres[i])
}

pub open spec fn any_char(s: Seq<char>, p: spec_fn(char) -> bool) -> bool {
    exists|i: int| 0 <= i < s.len() && p(#[trigger] s[i])
}

/// The title-script heuristic: Hangul reads as Manhwa, Han without kana as Manhua.
pub open spec fn script_type(title: Seq<char>) -> ComicType {
    if any_char(title, |c: char| hangul_char(c)) {
        ComicType::Manhwa
    } else if any_char(title, |c: char| han_char(c)) && !any_char(title, |c: char| kana_char(c)) {
        ComicType::Manhua
    } else {
        ComicType::Manga
    }
}

/// The effective comic type, in precedence order: admin override, original language,
/// an explicit origin tag, a webtoon-format tag, the title's script, default Manga.
pub open spec fn comic_type_rule(
    override_word: Option<Seq<char>>,
    original_language: Option<Seq<char>>,
    genres: Seq<Seq<char>>,
    title: Seq<char>,
) -> ComicType {
    match (
        match override_word { Some(w) => type_word_rule(w), None => None },
        match original_language { Some(l) => language_type(l), None => None },
    ) {
        (Some(t), _) => t,
        (None, Some(t)) => t,
        (None, None) => match first_origin(genres) {
            Some(t) => t,
            None => if any_webtoon(genres) {
                ComicType::Manhwa
            } else {
                script_type(title)
            },
        },
    }
}

/// A known original language decides before any tag or title heuristic: when no
/// override names a type and the language maps to one, that type is the result, whatever
/// the genres and the title.
pub proof fn lemma_language_decides_before_tags(
    override_word: Option<Seq<char>>,
    l: Seq<char>,
    t: ComicType,
    genres: Seq<Seq<char>>,
    title: Seq<char>,
    other_genres: Seq<Seq<char>>,
    other_title: Seq<char>,
)
    requires
        (match override_word { Some(w) => type_word_rule(w), None => None }) is None,
        language_type(l) == Some(t),
    ensures
        comic_type_rule(override_word, Some(l), genres, title) == t,
        comic_type_rule(override_word, Some(l), genres, title) == comic_type_rule(override_word, Some(l), other_genres, other_title),
{
}

/// An override that names a type wins over everything else.
pub proof fn lemma_override_decides_first(
    w: Seq<char>,
    t: ComicType,
    l: Option<Seq<char>>,
    genres: Seq<Seq<char>>,
    title: Seq<char>,
)
    requires
        type_word_rule(w) == Some(t),
    ensures
        comic_type_rule(Some(w), l, genres, title) == t,
{
}

pub open spec fn string_views(v: Seq<String>) -> Seq<Seq<char>> {
    v.map_values(|s: String| s@)
}

fn language_type_of(l: &str) -> (r: Option<ComicType>)
    ensures
        r == language_type(l@),
{
    let low = to_lowercase(l);
    let low = chars_of(low.as_str());
    if starts_with_chars(low.as_slice(), chars_of("ko").as_slice()) {
        Some(ComicType::Manhwa)
    } else if starts_with_chars(low.as_slice(), chars_of("zh").as_slice()) {
        Some(ComicType::Manhua)
    } else if starts_with_chars(low.as_slice(), chars_of("ja").as_slice()) {
        Some(ComicType::Manga)
    } else {
        None
    }
}

fn contains_word(low: &[char], w: &str) -> (b: bool)
    ensures
        b == has_substring(low@, w@),
{
    let pat = chars_of(w);
    contains_chars(low, pat.as_slice())
}

fn origin_tag_type_of(g: &str) -> (r: Option<ComicType>)
    ensures
        r == origin_tag_type(g@),
{
    let low = to_lowercase(g);
    let low = chars_of(low.as_str());
    let low = low.as_slice();
    if contains_word(low, "manhwa") || contains_word(low, "korean") {
        Some(ComicType::Manhwa)
    } else if contains_word(low, "manhua") || contains_word(low, "chinese") {
        Some(ComicType::Manhua)
    } else if contains_word(low, "japanese") {
        Some(ComicType::Manga)
    } else {
        None
    }
}

fn webtoon_tag_of(g: &str) -> (b: bool)
    ensures
        b == webtoon_tag(g@),
{
    let low = to_lowercase(g);
    let low = chars_of(low.as_str());
    let low = low.as_slice();
    contains_word(low, "webtoon") || contains_word(low, "long strip") || contains_word(
        low,
        "web comic",
    )
}

fn script_type_of(title: &str) -> (r: ComicType)
    ensures
        r == script_type(title@),
{
    let cs = chars_of(title);
    let mut has_hangul = false;
    let mut has_han = false;
    let mut has_kana = false;
    let mut i: usize = 0;
    while i < cs.len()
        invariant
            i <= cs.len(),
            cs@ == title@,
            has_hangul == exists|j: int| 0 <= j < i && hangul_char(#[trigger] cs@[j]),
            has_han == exists|j: int| 0 <= j < i && han_char(#[trigger] cs@[j]),
            has_kana == exists|j: int| 0 <= j < i && kana_char(#[trigger] cs@[j]),
        decreases cs.len() - i,
    {
        let c = cs[i];
        if is_hangul(c) {
            has_hangul = true;
        }
        if is_han(c) {
            has_han = true;
        }
        if is_kana(c) {
            has_kana = true;
        }
        i = i + 1;
    }
    assert(has_hangul == any_char(title@, |c: char| hangul_char(c)));
    assert(has_han == any_char(title@, |c: char| han_char(c)));
    assert(has_kana == any_char(title@, |c: char| kana_char(c)));
    if has_hangul {
        ComicType::Manhwa
    } else if has_han && !has_kana {
        ComicType::Manhua
    } else {
        ComicType::Manga
    }
}

/// Resolves the effective comic type, in precedence order:
/// 1. explicit admin override (`content_type_override`),
/// 2. the original language (ko -> Manhwa, zh -> Manhua, ja -> Manga),
/// 3. a genre/tag heuristic (an explicit origin tag, then a webtoon-format tag),
/// 4. a title-script heuristic (Hangul -> Manhwa; Han without kana -> Manhua),
/// 5. default Manga.
pub fn resolve_comic_type(
    override_word: Option<&str>,
    original_language: Option<&str>,
    genres: &[String],
    title: &str,
) -> (r: ComicType)
    ensures
        r == comic_type_rule(
            match override_word { Some(w) => Some(w@), None => None },
            match original_language { Some(l) => Some(l@), None => None },
            string_views(genres@),
            title@,
        ),
{
    if let Some(w) = override_word {
        if let Some(t) = comic_type_from_word(w) {
            return t;
        }
    }
    if let Some(l) = original_language {
        if let Some(t) = language_type_of(l) {
            return t;
        }
    }
    let ghost gv = string_views(genres@);
    let mut i: usize = 0;
    assert(gv.skip(0) == gv);
    while i < genres.len()
        invariant
            i <= genres.len(),
            gv == string_views(genres@),
            (match override_word { Some(w) => type_word_rule(w@), None => None }) is None,
            (match original_language { Some(l) => language_type(l@), None => None }) is None,
            first_origin(gv) == first_origin(gv.skip(i as int)),
        decreases genres.len() - i,
    {
        assert(gv.skip(i as int)[0] == genres@[i as int]@);
        if let Some(t) = origin_tag_type_of(genres[i].as_str()) {
            assert(gv.skip(i as int).len() > 0);
            assert(first_origin(gv.skip(i as int)) == Some(t));
            return t;
        }
        assert(gv.skip(i as int).drop_first() == gv.skip(i as int + 1));
        i = i + 1;
    }
    assert(gv.skip(genres.len() as int).len() == 0);
    assert(first_origin(gv.skip(genres.len() as int)) is None);
    let mut j: usize = 0;
    while j < genres.len()
        invariant
            j <= genres.len(),
            gv == string_views(genres@),
            (match override_word { Some(w) => type_word_rule(w@), None => None }) is None,
            (match original_language { Some(l) => language_type(l@), None => None }) is None,
            first_origin(gv) is None,
            forall|k: int| 0 <= k < j ==> !webtoon_tag(#[trigger] gv[k]),
        decreases genres.len() - j,
    {
        if webtoon_tag_of(genres[j].as_str()) {
            assert(webtoon_tag(gv[j as int]));
            return ComicType::Manhwa;
        }
        j = j + 1;
    }
    script_type_of(title)
}

// ---------------------------------------------------------------------------
// Plain records of the API
// ---------------------------------------------------------------------------

/// One localized description of a work, keyed by language tag.
pub struct LocalizedDescription {
    pub lang: String,
    pub description: String,
}

/// One author/artist credit of a work. `role` is `"author"` or `"artist"`.
pub struct Credit {
    pub role: String,
    pub name: String,
}

/// One cover of a work: proxy-ready URLs plus its language, volume and whether it is
/// the main cover.
pub struct Cover {
    /// The cover's `fileName` leaf (`covers/{mangadexId}/{fileName}`).
    pub file_name: String,
    /// Proxy-ready full cover URL.
    pub url: String,
    /// Proxy-ready 512px thumbnail URL.
    pub thumbnail_url: String,
    pub lang: Option<String>,
    pub volume: Option<String>,
    pub is_primary: bool,
}

/// Per-series view counts across three windows.
#[derive(Clone, Copy, Default)]
pub struct SeriesViews {
    pub total: i32,
    pub last7d: i32,
    pub last24h: i32,
}

pub struct Page {
    pub index: i32,
    pub source_url: String,
    pub width: Option<i32>,
    pub height: Option<i32>,
}

/// The install/pin coordinates for one Suwayomi source's extension.
pub struct SourceExtension {
    pub pkg_name: String,
    pub repo_url: String,
    pub apk_name: Option<String>,
    pub version_code: Option<i32>,
    pub lang: Option<String>,
}

/// One catalogued source mapping for a canonical work.
pub struct WorkSource {
    pub source_type: String,
    pub source_id: String,
    pub source_key: String,
    pub source_url: Option<String>,
    pub is_nsfw: bool,
    pub lang: Option<String>,
    pub extension: Option<SourceExtension>,
}

/// A comment's vote counts and the viewer's own vote.
#[derive(Clone, Copy)]
pub struct CommentVote {
    pub likes: i32,
    pub dislikes: i32,
    pub my_vote: i32,
}

pub struct UpdateProfileInput {
    /// New display name; `None` or blank clears it.
    pub display_name: Option<String>,
    /// New bio; `None` or blank clears it.
    pub bio: Option<String>,
}

/// Aggregate health of the background scan scheduler.
pub struct ScanStatus {
    pub library_size: i32,
    pub overdue_count: i32,
    pub last_tick_at: Option<String>,
    pub next_due_at: Option<String>,
    pub scanned_ok: i32,
    pub scanned_failed: i32,
    pub last_success_at: Option<String>,
    pub stuck_ticks: i32,
}

pub struct RegisterInput {
    pub username: String,
    pub email: String,
    pub password: String,
}

/// One extension as known to the Suwayomi engine.
pub struct ExtensionInfo {
    pub pkg_name: String,
    pub name: String,
    pub lang: String,
    pub version_name: String,
    pub is_installed: bool,
    pub has_update: bool,
    pub is_nsfw: bool,
    pub icon_url: Option<String>,
    pub repo: Option<String>,
    /// Whether this extension is subscribed for background source-sync.
    pub subscribed: bool,
}

/// One genre facet for the search filter: a genre and how many series carry it.
pub struct GenreFacet {
    pub genre: String,
    pub count: i32,
}


/// What chrono renders for a millisecond UNIX timestamp.
pub uninterp spec fn rfc3339_of_millis(ms: i64) -> Option<Seq<char>>;

/// `chrono::DateTime::from_timestamp_millis`, then `to_rfc3339` (UTC, `+00:00`);
/// `None` when chrono's date range cannot hold the instant. The text is only named.
#[verifier::external_body]
fn millis_to_rfc3339(ms: i64) -> (r: Option<String>)
    ensures
        opt_string(r) == rfc3339_of_millis(ms),
{
    match chrono::DateTime::from_timestamp_millis(ms) {
        Some(dt) => Some(dt.to_rfc3339()),
        None => None,
    }
}

/// The millisecond instant of a positive epoch timestamp given in seconds or in
/// milliseconds (values above 10^12 are already milliseconds); `None` when it is not
/// positive or its milliseconds overflow an `i64`.
pub open spec fn epoch_millis(n: int) -> Option<int> {
    if n <= 0 {
        None
    } else if n > 1_000_000_000_000 {
        Some(n)
    } else if n * 1000 <= i64::MAX {
        Some(n * 1000)
    } else {
        None
    }
}

/// What `to_iso` gives: the ISO 8601 text of an epoch timestamp written as an `i64`.
pub open spec fn iso_of(v: Option<Seq<char>>) -> Option<Seq<char>> {
    match v {
        None => None,
        Some(s) => match parse_signed(s, 0x7fff_ffff_ffff_ffff) {
            None => None,
            Some(n) => match epoch_millis(n) {
                None => None,
                Some(ms) => rfc3339_of_millis(ms as i64),
            },
        },
    }
}

/// Coerces an epoch timestamp (seconds or milliseconds, as text) to ISO 8601.
pub fn to_iso(v: Option<&str>) -> (r: Option<String>)
    ensures
        opt_string(r) == iso_of(opt_str(v)),
{
    let s = match v {
        Some(s) => s,
        None => return None,
    };
    let cs = chars_of(s);
    let n = match parse_i64_chars(cs.as_slice()) {
        Some(n) => n,
        None => return None,
    };
    if n <= 0 {
        return None;
    }
    let ms: i64 = if n > 1_000_000_000_000 {
        n
    } else {
        match n.checked_mul(1000) {
            Some(m) => m,
            None => return None,
        }
    };
    millis_to_rfc3339(ms)
}

} // verus!
