use komika::types::{
    collapsed_comic_type_word, comic_type_from_word, content_rating_nsfw_only, content_rating_tier,
    content_type_word, komika_status, paused_for_status, resolve_comic_type, status_from,
    status_word, ComicType, ContentRatingFilter, SeriesStatus,
};

fn s(v: &[&str]) -> Vec<String> {
    v.iter().map(|x| x.to_string()).collect()
}

#[test]
fn admin_override_wins_over_everything() {
    assert_eq!(
        resolve_comic_type(Some("MANHUA"), Some("ja"), &s(&["Action"]), "テスト"),
        ComicType::Manhua
    );
}

#[test]
fn original_language_maps_ko_zh_ja() {
    assert_eq!(resolve_comic_type(None, Some("ko"), &[], ""), ComicType::Manhwa);
    assert_eq!(resolve_comic_type(None, Some("zh-hk"), &[], ""), ComicType::Manhua);
    assert_eq!(resolve_comic_type(None, Some("ja"), &[], ""), ComicType::Manga);
}

#[test]
fn genre_heuristic_fires_when_language_unknown() {
    assert_eq!(
        resolve_comic_type(None, None, &s(&["Action", "Manhwa"]), "Solo Leveling"),
        ComicType::Manhwa
    );
    assert_eq!(resolve_comic_type(None, Some("en"), &s(&["Manhua"]), "Tales"), ComicType::Manhua);
}

#[test]
fn webtoon_format_tags_classify_as_manhwa() {
    let solo = s(&[
        "Adaptation",
        "Award Winning",
        "Full Color",
        "Long Strip",
        "Web Comic",
        "Action",
        "Adventure",
        "Fantasy",
    ]);
    assert_eq!(resolve_comic_type(None, None, &solo, "Solo Leveling"), ComicType::Manhwa);
    assert_eq!(
        resolve_comic_type(None, None, &s(&["Long Strip", "Manhua"]), "Battle Through"),
        ComicType::Manhua
    );
}

#[test]
fn script_heuristic_detects_hangul_and_han() {
    assert_eq!(resolve_comic_type(None, None, &[], "나 혼자만 레벨업"), ComicType::Manhwa);
    assert_eq!(resolve_comic_type(None, None, &[], "斗破苍穹"), ComicType::Manhua);
    assert_eq!(resolve_comic_type(None, None, &[], "鬼滅の刃"), ComicType::Manga);
}

#[test]
fn defaults_to_manga_with_no_signal() {
    assert_eq!(resolve_comic_type(None, None, &[], "Some Title"), ComicType::Manga);
    assert_eq!(resolve_comic_type(None, Some("en"), &[], "Some Title"), ComicType::Manga);
}

#[test]
fn word_round_trips() {
    for t in [
        ComicType::Manga,
        ComicType::Manhwa,
        ComicType::Manhua,
        ComicType::Webtoon,
        ComicType::Comic,
    ] {
        assert_eq!(comic_type_from_word(content_type_word(t)), Some(t));
    }
    assert_eq!(comic_type_from_word("nonsense"), None);
}

#[test]
fn rating_tiers_widen_cumulatively() {
    assert_eq!(content_rating_tier(ContentRatingFilter::All), None);
    assert_eq!(content_rating_tier(ContentRatingFilter::Safe), Some(vec!["safe"]));
    assert_eq!(
        content_rating_tier(ContentRatingFilter::Suggestive),
        Some(vec!["safe", "suggestive"])
    );
    assert_eq!(
        content_rating_tier(ContentRatingFilter::Erotica),
        Some(vec!["safe", "suggestive", "erotica"])
    );
    assert_eq!(content_rating_tier(ContentRatingFilter::Pornographic), None);
    assert_eq!(content_rating_tier(ContentRatingFilter::NsfwOnly), None);
    assert!(content_rating_nsfw_only(ContentRatingFilter::NsfwOnly));
    assert!(!content_rating_nsfw_only(ContentRatingFilter::All));
}

#[test]
fn statuses_map_and_round_trip() {
    assert_eq!(status_from("PUBLISHING_FINISHED"), SeriesStatus::Completed);
    assert_eq!(status_from("LICENSED"), SeriesStatus::Completed);
    assert_eq!(status_from("ON_HIATUS"), SeriesStatus::Hiatus);
    assert_eq!(status_from("whatever"), SeriesStatus::Unknown);
    for st in [
        SeriesStatus::Ongoing,
        SeriesStatus::Completed,
        SeriesStatus::Hiatus,
        SeriesStatus::Cancelled,
        SeriesStatus::Unknown,
    ] {
        assert_eq!(komika_status(status_word(st)), Some(st));
    }
    assert_eq!(komika_status("ON_HIATUS"), None);
    assert!(paused_for_status(SeriesStatus::Hiatus));
    assert!(!paused_for_status(SeriesStatus::Ongoing));
    assert_eq!(collapsed_comic_type_word(ComicType::Webtoon), "MANHWA");
    assert_eq!(collapsed_comic_type_word(ComicType::Comic), "MANGA");
}

#[test]
fn override_words_are_trimmed_and_case_folded() {
    assert_eq!(comic_type_from_word(" manhwa "), Some(ComicType::Manhwa));
    assert_eq!(resolve_comic_type(Some("bogus"), Some("ko"), &[], ""), ComicType::Manhwa);
    assert_eq!(resolve_comic_type(None, Some("KO-kr"), &[], ""), ComicType::Manhwa);
}

#[test]
fn to_iso_reads_seconds_and_millis() {
    assert_eq!(komika::types::to_iso(Some("1700000000")), Some("2023-11-14T22:13:20+00:00".to_string()));
    assert_eq!(komika::types::to_iso(Some("1700000000123")), Some("2023-11-14T22:13:20.123+00:00".to_string()));
    assert_eq!(komika::types::to_iso(Some("0")), None);
    assert_eq!(komika::types::to_iso(Some("-5")), None);
    assert_eq!(komika::types::to_iso(Some("soon")), None);
    assert_eq!(komika::types::to_iso(None), None);
    assert_eq!(komika::types::to_iso(Some("9223372036854775807")), None);
}

#[test]
fn reading_a_word_is_stable_under_trim_and_uppercase() {
    for s in ["manga", "  Webtoon\t", "MANHUA", " comic ", "nonsense", "", "  ", "man hwa", "manhwa\n"] {
        assert_eq!(comic_type_from_word(s), comic_type_from_word(&s.trim().to_uppercase()), "{s:?}");
    }
}
