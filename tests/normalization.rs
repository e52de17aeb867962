use photo_date_exif_repair::{get_date_time_parts, resolution_text};

fn parts(s: &str) -> (Option<String>, Option<String>) {
    get_date_time_parts(s)
}

fn some(s: &str) -> Option<String> {
    Some(s.to_string())
}

#[test]
fn joined_digits_are_split() {
    assert_eq!(parts("20220504123000"), (some("2022-05-04"), some("12:30:00")));
}

#[test]
fn loose_date_and_time_are_split() {
    assert_eq!(parts("2022-05-04-123000"), (some("2022-05-04"), some("12:30:00")));
    assert_eq!(parts("2022_05_04_12_30_00"), (some("2022-05-04"), some("12:30:00")));
    assert_eq!(parts("2022-05-04123000"), (some("2022-05-04"), some("12:30:00")));
}

#[test]
fn underscores_read_as_dashes() {
    assert_eq!(parts("2021_08_20_133000"), parts("2021-08-20-133000"));
}

#[test]
fn lone_date_and_lone_time() {
    assert_eq!(parts("20220504"), (some("2022-05-04"), None));
    assert_eq!(parts("20220504_133000"), (some("2022-05-04"), some("13:30:00")));
    assert_eq!(parts("2022-0504-123000"), (None, some("12:30:00")));
    assert_eq!(parts("abc"), (None, None));
}

#[test]
fn digits_next_to_letters_are_no_run() {
    assert_eq!(parts("x20220504"), (None, None));
}

#[test]
fn text_to_parse_joins_parts() {
    assert_eq!(resolution_text(some("2022-05-04"), some("12:30:00"), "raw"), "2022-05-04 12:30:00");
    assert_eq!(resolution_text(some("2022-05-04"), None, "raw"), "2022-05-04 00:00:00");
    assert_eq!(resolution_text(None, some("12:30:00"), "raw"), "raw");
    assert_eq!(resolution_text(None, None, "raw"), "raw");
}
