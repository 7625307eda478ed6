use komika::dedup::{author_key, author_matches, is_discriminative_phash, top_tokens, year_close};

fn s(v: &[&str]) -> Vec<String> {
    v.iter().map(|x| x.to_string()).collect()
}

#[test]
fn author_names_match_in_any_order() {
    assert_eq!(author_key("Masashi Kishimoto"), s(&["kishimoto", "masashi"]));
    assert!(author_matches(&Some("Kishimoto Masashi".into()), &Some("Masashi Kishimoto".into())));
    assert!(author_matches(&Some("ONE".into()), &Some("one".into())));
    assert!(!author_matches(&Some("Fuse".into()), &Some("Mitz Vah".into())));
    assert!(!author_matches(&Some("--".into()), &Some("!!".into())));
    assert!(!author_matches(&None, &Some("Fuse".into())));
    assert_eq!(author_key("Oda, Eiichiro!"), s(&["eiichiro", "oda"]));
}

#[test]
fn years_within_one_corroborate() {
    assert!(year_close(Some(2015), Some(2016)));
    assert!(year_close(Some(2015), Some(2015)));
    assert!(!year_close(Some(2015), Some(2017)));
    assert!(!year_close(None, Some(2015)));
    assert!(!year_close(Some(i64::MIN), Some(i64::MAX)));
}

#[test]
fn only_balanced_cover_hashes_corroborate() {
    assert!(is_discriminative_phash("ffff0000ffff0000"));
    assert!(!is_discriminative_phash("ffffffffffffffff"));
    assert!(!is_discriminative_phash("0000000000000000"));
    assert!(!is_discriminative_phash("ffff0000ffff00"));
    assert!(!is_discriminative_phash("zzzz0000ffff0000"));
    // 12 set bits is the lower bound, 11 is not enough.
    assert!(is_discriminative_phash("0fff000000000000"));
    assert!(!is_discriminative_phash("07ff000000000000"));
    assert!(is_discriminative_phash("FFFF0000FFFF0000"));
}

#[test]
fn fuzzy_block_keys_on_the_longest_distinct_tokens() {
    let titles = s(&["extraordinary phantom dungeon", "phantom dungeon of an"]);
    assert_eq!(top_tokens(&titles, 3), s(&["extraordinary", "dungeon", "phantom"]));
    assert_eq!(top_tokens(&titles, 10), s(&["extraordinary", "dungeon", "phantom"]));
    assert_eq!(top_tokens(&s(&["a bb"]), 3), Vec::<String>::new());
    assert_eq!(top_tokens(&titles, 0), Vec::<String>::new());
}
