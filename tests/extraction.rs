use std::collections::HashMap;

use photo_date_exif_repair::extract_date_with_regex;

#[test]
fn test_normal_date_regex_extraction_from_filename_happy() {
    let mut cases: HashMap<&str, Option<String>> = HashMap::new();

    cases.insert(
        "i-am-file-taken-at-2022-05-04-123000-find-me.jpg",
        Some("2022-05-04-123000".to_string()),
    );
    cases.insert(
        "i_am_file_taken_at_2022_05_04_123000_find_me.jpg",
        Some("2022_05_04_123000".to_string()),
    );
    cases.insert(
        "i_am_file_taken_at_20220504123000_find_me.jpg",
        Some("20220504123000".to_string()),
    );
    cases.insert(
        "00100lrPORTRAIT_00100_BURST20210506122850023_COVER.jpg",
        Some("20210506122850".to_string()),
    );

    for (filename, expected) in cases {
        assert_eq!(expected, extract_date_with_regex(filename));
    }
}

#[test]
fn test_normal_date_regex_extraction_from_filename_unhappy() {
    let mut cases: HashMap<&str, Option<String>> = HashMap::new();

    cases.insert("i-am-file-taken-at-202-05-04-123000-find-me.jpg", None);
    cases.insert("i-am-file-taken-at-2022-5-04-123000-find-me.jpg", None);
    cases.insert("i-am-file-taken-at-2022-05-4-123000-find-me.jpg", None);
    cases.insert("i-am-file-taken-at-2022:05:04:123000-find-me.jpg", None);

    for (filename, expected) in cases {
        assert_eq!(expected, extract_date_with_regex(filename));
    }
}

#[test]
fn test_whatsapp_date_regex_extraction_from_filename_happy() {
    let mut cases: HashMap<&str, Option<String>> = HashMap::new();

    cases.insert("IMG-20220504-WA0049", Some("20220504".to_string()));

    for (filename, expected) in cases {
        assert_eq!(expected, extract_date_with_regex(filename));
    }
}

#[test]
fn test_whatsapp_date_regex_extraction_from_filename_unhappy() {
    let mut cases: HashMap<&str, Option<String>> = HashMap::new();

    cases.insert("IMG-20220504-W0049", None);
    cases.insert("IMG123-WA0049", None);
    cases.insert("WA0049-20220504", None);

    for (filename, expected) in cases {
        assert_eq!(expected, extract_date_with_regex(filename));
    }
}

#[test]
fn separated_time_of_day_is_extracted() {
    assert_eq!(
        extract_date_with_regex("clip_2023-01-02_10-20-30.mp4"),
        Some("2023-01-02_10-20-30".to_string())
    );
}

#[test]
fn leftmost_date_wins_and_year_must_start_with_20() {
    assert_eq!(
        extract_date_with_regex("19990101123000_20200101123000_20210101123000"),
        Some("20200101123000".to_string())
    );
}

#[test]
fn date_and_time_span_beats_messaging_date() {
    assert_eq!(
        extract_date_with_regex("20220504-WA_20230101_101010"),
        Some("20230101_101010".to_string())
    );
}

#[test]
fn rightmost_messaging_date_is_taken() {
    assert_eq!(
        extract_date_with_regex("IMG-20220504-WA0049-20230102-WA1"),
        Some("20230102".to_string())
    );
}

#[test]
fn empty_and_digitless_names_give_nothing() {
    assert_eq!(extract_date_with_regex(""), None);
    assert_eq!(extract_date_with_regex("holiday.jpg"), None);
}

#[test]
fn malformed_spans_with_underscores_give_nothing() {
    assert_eq!(extract_date_with_regex("a_202_05_04_123000_b"), None);
    assert_eq!(extract_date_with_regex("a_2022_05_4_123000_b"), None);
}

#[test]
fn joined_span_after_plain_text_is_exact() {
    assert_eq!(
        extract_date_with_regex("VID_20200101235959.mp4"),
        Some("20200101235959".to_string())
    );
}

#[test]
fn one_digit_month_and_day_or_colon_clock_give_nothing() {
    assert_eq!(extract_date_with_regex("a-2022-5-4-123000-b.jpg"), None);
    assert_eq!(extract_date_with_regex("shot 2022:05:04:12:30:00.jpg"), None);
}
