use komika::sweep::{after_page, window_start, AfterPage, SweepKind, PAGE_LIMIT};
use komika::mangadex::{
    backoff, chapter_manga_id, classify_page, cover_file_name, cover_thumb_url, cover_url,
    covers_from_fetch, detailed_drop_count, is_tolerable_message, is_tolerable_page_error,
    chapter_window_ts, is_english_chapter, manga_window_ts, map_status, next_offset, page_error_status, to_since, to_since_next_second, to_work_input,
    BackfillOutcome, SyncWindow, MdAttrs, MdChapter, MdChapterAttrs, MdManga, MdRel, MdRelAttrs, PageStep,
    MAX_DETAILED_DROP_LOGS,
};

fn err(msg: &'static str) -> anyhow::Error {
    anyhow::Error::msg(msg)
}

fn pairs(v: &[(&str, &str)]) -> Vec<(String, String)> {
    v.iter().map(|(a, b)| (a.to_string(), b.to_string())).collect()
}

fn rel(id: &str, kind: &str, name: Option<&str>, file: Option<&str>) -> MdRel {
    MdRel {
        id: id.into(),
        kind: kind.into(),
        attributes: Some(MdRelAttrs {
            file_name: file.map(|s| s.to_string()),
            name: name.map(|s| s.to_string()),
            locale: None,
            volume: None,
        }),
    }
}

/// The manga of the MangaDex fixture: the Slime series.
fn manga() -> MdManga {
    MdManga {
        id: "md-uuid-1".into(),
        attributes: MdAttrs {
            title: pairs(&[("ja-ro", "Tensei Shitara Slime Datta Ken")]),
            alt_titles: vec![
                pairs(&[("en", "That Time I Got Reincarnated as a Slime")]),
                pairs(&[("ja", "転生したらスライムだった件")]),
            ],
            description: pairs(&[("en", "Mikami Satoru is reincarnated as a slime.")]),
            original_language: Some("ja".into()),
            status: Some("ongoing".into()),
            year: Some(2015),
            publication_demographic: Some("seinen".into()),
            content_rating: Some("safe".into()),
            links: pairs(&[("al", "101517"), ("mal", "70951"), ("raw", "https://example.com")]),
            created_at: Some("2018-10-04T22:16:00+00:00".into()),
            updated_at: None,
        },
        relationships: vec![
            rel("auth-1", "author", Some("Fuse"), None),
            rel("cov-1", "cover_art", None, Some("abc.jpg")),
        ],
    }
}

#[test]
fn classify_page_non_empty_always_processes() {
    assert_eq!(classify_page(100, 0, 113_610), PageStep::Process);
    assert_eq!(classify_page(97, 1_100, 113_610), PageStep::Process);
    assert_eq!(classify_page(1, 113_609, 113_610), PageStep::Process);
}

#[test]
fn classify_page_empty_at_or_after_total_ends() {
    assert_eq!(classify_page(0, 113_610, 113_610), PageStep::EndWindow);
    assert_eq!(classify_page(0, 200_000, 113_610), PageStep::EndWindow);
    assert_eq!(classify_page(0, 0, 0), PageStep::EndWindow);
}

#[test]
fn classify_page_empty_before_total_retries() {
    assert_eq!(classify_page(0, 1_100, 113_610), PageStep::RetryEmpty);
    assert_eq!(classify_page(0, 0, 113_610), PageStep::RetryEmpty);
}

#[test]
fn page_error_status_extracts_the_http_code() {
    assert_eq!(page_error_status("MangaDex /manga error 400 Bad Request"), Some(400));
    assert_eq!(page_error_status("MangaDex /manga?ids error 404 Not Found"), Some(404));
    assert_eq!(page_error_status("MangaDex /manga request failed: connection reset"), None);
}

#[test]
fn tolerable_page_errors_are_the_transient_ones() {
    assert!(is_tolerable_page_error(&err("MangaDex /manga error 400 Bad Request")));
    assert!(is_tolerable_page_error(&err("MangaDex /manga error 429 Too Many Requests")));
    assert!(is_tolerable_page_error(&err("MangaDex /manga error 503 Service Unavailable")));
    assert!(is_tolerable_page_error(&err("MangaDex /manga request failed: operation timed out")));
    assert!(!is_tolerable_page_error(&err("MangaDex /manga error 404 Not Found")));
    assert!(!is_tolerable_page_error(&err("MangaDex /manga error 403 Forbidden")));
    assert!(!is_tolerable_page_error(&err("error decoding response body")));
}

#[test]
fn backfill_completion_requires_a_clean_sweep() {
    let clean = BackfillOutcome {
        scanned: 113_610,
        ingested: 4_500,
        failed: 0,
        complete: true,
        truncated: 0,
        dropped: 0,
    };
    assert!(clean.is_clean_completion());
    assert!(!clean.is_dirty());
    let lossy = BackfillOutcome { failed: 4, ..clean };
    assert!(!lossy.is_clean_completion());
    let partial = BackfillOutcome { complete: false, ..clean };
    assert!(!partial.is_clean_completion());
    assert!(!BackfillOutcome::default().complete);
    assert!(!BackfillOutcome::default().is_clean_completion());
}

#[test]
fn a_truncated_window_never_latches_completion() {
    let truncated = BackfillOutcome {
        scanned: 40_000,
        ingested: 900,
        failed: 0,
        complete: true,
        truncated: 1,
        dropped: 0,
    };
    assert!(!truncated.is_clean_completion());
    assert!(truncated.is_dirty());
}

#[test]
fn a_dirty_pass_rewinds_even_when_incomplete() {
    let dirty_partial = BackfillOutcome {
        scanned: 20_000,
        ingested: 300,
        failed: 2,
        complete: false,
        truncated: 0,
        dropped: 0,
    };
    assert!(dirty_partial.is_dirty());
    assert!(!dirty_partial.is_clean_completion());
    let clean_partial = BackfillOutcome {
        scanned: 20_000,
        ingested: 300,
        failed: 0,
        complete: false,
        truncated: 0,
        dropped: 0,
    };
    assert!(!clean_partial.is_dirty());
}

#[test]
fn dropped_records_never_latch_completion() {
    let dropped = BackfillOutcome {
        scanned: 109_266,
        ingested: 0,
        failed: 0,
        complete: true,
        truncated: 0,
        dropped: 1,
    };
    assert!(!dropped.is_clean_completion());
    assert!(dropped.is_dirty());
    let the_no_op = BackfillOutcome { dropped: 4_493, ..dropped };
    assert!(!the_no_op.is_clean_completion());
    assert!(the_no_op.is_dirty());
}

#[test]
fn drop_logging_is_detailed_then_capped() {
    assert_eq!(detailed_drop_count(0, 100), 100);
    assert_eq!(detailed_drop_count(150, 100), 50, "partial page budget");
    assert_eq!(detailed_drop_count(MAX_DETAILED_DROP_LOGS, 100), 0);
    assert_eq!(detailed_drop_count(u64::MAX, 100), 0, "no underflow");
    assert_eq!(detailed_drop_count(0, 0), 0);
}

#[test]
fn backoff_is_exponential_and_capped() {
    assert_eq!(backoff(0), 500);
    assert_eq!(backoff(1), 1000);
    assert_eq!(backoff(3), 4000);
    assert_eq!(backoff(10), 500 << 6);
}

#[test]
fn maps_manga_to_work_input() {
    let m = manga();
    let (id, input) = to_work_input(&m);
    assert_eq!(id, "md-uuid-1");
    assert_eq!(input.primary_lang.as_deref(), Some("ja-ro"));
    assert_eq!(input.status.as_deref(), Some("ONGOING"));
    assert_eq!(input.year, Some(2015));
    assert_eq!(input.author.as_deref(), Some("Fuse"));
    assert!(!input.is_nsfw);
    assert!(input.aliases.iter().any(|a| a.raw.contains("Slime Datta Ken")));
    assert!(input.aliases.iter().any(|a| a.raw.contains("Reincarnated")));
    assert!(input.external_ids.contains(&("al".into(), "101517".into())));
    assert!(input.external_ids.contains(&("mal".into(), "70951".into())));
    assert!(!input.external_ids.iter().any(|(p, _)| p == "raw"));
    assert_eq!(cover_file_name(&m).as_deref(), Some("abc.jpg"));
    assert_eq!(input.cover_file_name.as_deref(), Some("abc.jpg"));
    assert_eq!(
        cover_url("md-uuid-1", "abc.jpg"),
        "https://uploads.mangadex.org/covers/md-uuid-1/abc.jpg"
    );
    assert_eq!(
        cover_thumb_url("md-uuid-1", "abc.jpg"),
        "https://uploads.mangadex.org/covers/md-uuid-1/abc.jpg.512.jpg"
    );
}

#[test]
fn maps_multilang_descriptions_and_full_credits() {
    let mut m = manga();
    m.attributes.description = pairs(&[
        ("en", "English blurb."),
        ("es", "Sinopsis en español."),
        ("fr", ""),
    ]);
    m.relationships = vec![
        rel("a1", "author", Some("Fuse"), None),
        rel("a2", "author", Some("Co-Author"), None),
        rel("ar1", "artist", Some("Mitz Vah"), None),
        rel("ar1dup", "artist", Some("Mitz Vah"), None),
        rel("cov", "cover_art", None, Some("abc.jpg")),
    ];
    let (_, input) = to_work_input(&m);
    assert_eq!(
        input.descriptions,
        vec![
            ("en".to_string(), "English blurb.".to_string()),
            ("es".to_string(), "Sinopsis en español.".to_string()),
        ]
    );
    assert!(input.credits.contains(&("author".into(), "Fuse".into())));
    assert!(input.credits.contains(&("author".into(), "Co-Author".into())));
    assert_eq!(
        input.credits.iter().filter(|(r, n)| r == "artist" && n == "Mitz Vah").count(),
        1,
        "artist is de-duplicated"
    );
    assert_eq!(input.author.as_deref(), Some("Fuse"));
    assert_eq!(input.artist.as_deref(), Some("Mitz Vah"));
}

#[test]
fn relationship_cover_and_cover_fetch_mapping() {
    let mut m = manga();
    m.relationships = vec![
        MdRel {
            id: "cov1".into(),
            kind: "cover_art".into(),
            attributes: Some(MdRelAttrs {
                file_name: Some("primary.jpg".into()),
                name: None,
                locale: Some("ja".into()),
                volume: Some("1".into()),
            }),
        },
        rel("a1", "author", Some("Fuse"), None),
    ];
    let (_, input) = to_work_input(&m);
    assert_eq!(input.covers.len(), 1);
    assert_eq!(input.covers[0].file_name, "primary.jpg");
    assert!(input.covers[0].is_primary);
    assert_eq!(input.covers[0].volume.as_deref(), Some("1"));

    let fetched = vec![
        ("primary.jpg".to_string(), Some("ja".into()), Some("1".into())),
        ("vol2.jpg".to_string(), Some("ja".into()), Some("2".into())),
        ("en3.jpg".to_string(), Some("en".into()), Some("3".into())),
    ];
    let covers = covers_from_fetch(fetched, Some("primary.jpg"));
    assert_eq!(covers.len(), 3);
    assert_eq!(covers.iter().filter(|c| c.is_primary).count(), 1);
    assert!(covers.iter().find(|c| c.file_name == "primary.jpg").unwrap().is_primary);

    let covers = covers_from_fetch(
        vec![("x.jpg".into(), None, None), ("y.jpg".into(), None, None)],
        Some("missing.jpg"),
    );
    assert!(covers[0].is_primary);
    assert_eq!(covers.iter().filter(|c| c.is_primary).count(), 1);
}

#[test]
fn nsfw_flag_from_content_rating() {
    let mut m = manga();
    m.attributes.content_rating = Some("pornographic".into());
    assert!(to_work_input(&m).1.is_nsfw);
}

#[test]
fn to_since_strips_offset() {
    assert_eq!(to_since("2018-10-04T22:16:00+00:00").as_deref(), Some("2018-10-04T22:16:00"));
    assert_eq!(to_since("garbage"), None);
}

#[test]
fn to_since_is_inclusive_at_the_boundary_second() {
    let earliest = "2018-01-18T00:00:00+00:00";
    assert_eq!(to_since(earliest).as_deref(), Some("2018-01-18T00:00:00"));
    assert_eq!(to_since("2018-01-18T00:00:00.999+00:00").as_deref(), Some("2018-01-18T00:00:00"));
    assert_eq!(to_since_next_second(earliest).as_deref(), Some("2018-01-18T00:00:01"));
    assert_eq!(
        to_since_next_second("2018-01-18T23:59:59+00:00").as_deref(),
        Some("2018-01-19T00:00:00")
    );
    assert_eq!(to_since("2018-01-18T09:00:00+09:00").as_deref(), Some("2018-01-18T09:00:00"));
    assert_eq!(to_since_next_second("garbage"), None);
}

#[test]
fn offsets_advance_by_the_raw_length_and_saturate() {
    assert_eq!(next_offset(0, 2), 2);
    assert_eq!(next_offset(0, 100), 100);
    assert_eq!(next_offset(9_800, 100), 9_900);
    assert_eq!(next_offset(42, 0), 42);
    assert_eq!(next_offset(i64::MAX, 100), i64::MAX);
}

#[test]
fn status_codes_and_chapters() {
    assert_eq!(page_error_status("x error  +65535 y"), Some(65535));
    assert_eq!(page_error_status("x error 65536"), None);
    assert_eq!(page_error_status("a error 500 b error 404"), Some(404));
    assert!(is_tolerable_message("x error 599"));
    assert!(!is_tolerable_message("x error 600"));
    assert!(is_tolerable_message("x error 408 timeout"));
    assert_eq!(map_status(Some("hiatus")).as_deref(), Some("HIATUS"));
    let c = MdChapter {
        id: "ch-1".into(),
        attributes: MdChapterAttrs {
            chapter: Some("1".into()),
            volume: None,
            title: None,
            translated_language: Some("en".into()),
            publish_at: None,
            created_at: None,
            updated_at: None,
        },
        relationships: vec![MdRel { id: "m-1".into(), kind: "manga".into(), attributes: None }],
    };
    assert_eq!(chapter_manga_id(&c).as_deref(), Some("m-1"));
}

#[test]
fn window_timestamps_follow_the_window_kind() {
    let m = manga();
    assert_eq!(manga_window_ts(&m, SyncWindow::Created).as_deref(), Some("2018-10-04T22:16:00+00:00"));
    assert_eq!(manga_window_ts(&m, SyncWindow::Updated), None);
    let c = MdChapter {
        id: "ch-1".into(),
        attributes: MdChapterAttrs {
            chapter: Some("1".into()),
            volume: None,
            title: None,
            translated_language: Some("en".into()),
            publish_at: None,
            created_at: Some("2020-01-01T00:00:00+00:00".into()),
            updated_at: Some("2021-01-01T00:00:00+00:00".into()),
        },
        relationships: vec![],
    };
    assert_eq!(chapter_window_ts(&c, SyncWindow::Updated).as_deref(), Some("2021-01-01T00:00:00+00:00"));
    assert_eq!(chapter_window_ts(&c, SyncWindow::Created).as_deref(), Some("2020-01-01T00:00:00+00:00"));
    assert!(is_english_chapter(&c));
    let fr = MdChapter { attributes: MdChapterAttrs { translated_language: Some("fr".into()), ..c.attributes }, ..c };
    assert!(!is_english_chapter(&fr));
}

#[test]
fn chapter_paging_follows_the_raw_page_length() {
    // A full raw page of 100 (of which 99 parsed) is a full page: keep going.
    assert_eq!(PAGE_LIMIT, 100);
    assert_eq!(classify_page(100, 0, 810_270), PageStep::Process);
    assert_eq!(next_offset(0, 100), 100);
    let (cur, next) = after_page(SweepKind::Chapters, window_start(), 100, 810_270, false);
    assert_eq!((cur.offset, next), (100, AfterPage::NextPage));
    // Only a short raw page ends the chapter window.
    let (_, next) = after_page(SweepKind::Chapters, window_start(), 99, 810_270, false);
    assert_eq!(next, AfterPage::Done);
    // A chapter without relationships belongs to no manga.
    let c = MdChapter {
        id: "ch-null-rels".into(),
        attributes: MdChapterAttrs {
            chapter: Some("1".into()),
            volume: None,
            title: None,
            translated_language: Some("en".into()),
            publish_at: None,
            created_at: None,
            updated_at: None,
        },
        relationships: vec![],
    };
    assert_eq!(chapter_manga_id(&c), None);
}
