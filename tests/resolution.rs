use photo_date_exif_repair::timestamp::is_parser_safe;
use photo_date_exif_repair::{get_date_from_file, parse_embedded_date, Error, Timestamp};

fn wall_clock(t: &Timestamp) -> (i32, u32, u32, u32, u32, u32) {
    (t.year, t.month, t.day, t.hour, t.minute, t.second)
}

#[test]
fn messaging_name_resolves_to_midnight() {
    let t = get_date_from_file("IMG-20220504-WA0049").unwrap();
    assert_eq!(wall_clock(&t), (2022, 5, 4, 0, 0, 0));
}

#[test]
fn camera_name_resolves_to_date_and_time() {
    let name = "IMG_20210820_133000_image.jpg";
    let t = get_date_from_file(name).unwrap();
    assert_eq!(wall_clock(&t), (2021, 8, 20, 13, 30, 0));
}

#[test]
fn burst_name_resolves_to_date_and_time() {
    let name = "00100lrPORTRAIT_00100_BURST20210506122850023_COVER.jpg";
    let t = get_date_from_file(name).unwrap();
    assert_eq!(wall_clock(&t), (2021, 5, 6, 12, 28, 50));
}

#[test]
fn directory_part_of_path_is_not_searched() {
    match photo_date_exif_repair::assess_file("/photos/2020-01-02-030405/a.jpg", "a.jpg", None, false) {
        photo_date_exif_repair::FileOutcome::Failed(Error::NoDate(n)) => assert_eq!(n, "a.jpg"),
        other => panic!("unexpected {:?}", other),
    }
    match photo_date_exif_repair::assess_file("/photos/x/2020-01-02-030405.jpg", "2020-01-02-030405.jpg", None, false) {
        photo_date_exif_repair::FileOutcome::Queued(w) => {
            assert_eq!(w.path, "/photos/x/2020-01-02-030405.jpg");
            assert_eq!(wall_clock(&w.timestamp), (2020, 1, 2, 3, 4, 5));
        }
        other => panic!("unexpected {:?}", other),
    }
}

#[test]
fn name_without_date_is_no_date() {
    match get_date_from_file("holiday.jpg") {
        Err(Error::NoDate(n)) => assert_eq!(n, "holiday.jpg"),
        other => panic!("unexpected {:?}", other),
    }
}

#[test]
fn unreadable_text_is_date_parse_error() {
    match get_date_from_file("x-2022-0504-123000.jpg") {
        Err(Error::DateParse { parsing, filename, reason }) => {
            assert_eq!(parsing, "2022-0504-123000");
            assert_eq!(filename, "x-2022-0504-123000.jpg");
            assert!(!reason.is_empty());
        }
        other => panic!("unexpected {:?}", other),
    }
}

#[test]
fn embedded_date_text_is_read() {
    let t = parse_embedded_date("2019-03-04 05:06:07").unwrap();
    assert_eq!(wall_clock(&t), (2019, 3, 4, 5, 6, 7));
    assert_eq!(parse_embedded_date("not a date"), None);
}

#[test]
fn span_between_plain_text_keeps_its_wall_clock() {
    let name = "trip 2019x_20230405-060708_end.jpg";
    assert_eq!(
        photo_date_exif_repair::extract_date_with_regex(name),
        Some("20230405-060708".to_string())
    );
    let t = get_date_from_file(name).unwrap();
    assert_eq!(wall_clock(&t), (2023, 4, 5, 6, 7, 8));
}

#[test]
fn parse_outcome_keeps_value_or_wraps_reason() {
    let t = Timestamp {
        year: 2020,
        month: 1,
        day: 2,
        hour: 3,
        minute: 4,
        second: 5,
        nanosecond: 0,
        offset_seconds: 0,
    };
    assert_eq!(
        photo_date_exif_repair::date_parse_outcome("x".to_string(), "f", Ok(t)).unwrap(),
        t
    );
    match photo_date_exif_repair::date_parse_outcome("x".to_string(), "f", Err("bad".to_string())) {
        Err(Error::DateParse { parsing, filename, reason }) => {
            assert_eq!((parsing.as_str(), filename.as_str(), reason.as_str()), ("x", "f", "bad"))
        }
        other => panic!("unexpected {:?}", other),
    }
}

#[test]
fn day_long_offset_is_refused_without_parsing() {
    assert!(!is_parser_safe("2017-11-25 13:31:15 +9900"));
    assert!(!is_parser_safe("13:31 -2500"));
    assert!(is_parser_safe("2017-11-25 13:31:15 +0900"));
    assert!(is_parser_safe("2022-05-31 00:00:00"));
    assert!(is_parser_safe("202205-04-12-30-99"));
    assert_eq!(parse_embedded_date("2017-11-25 13:31:15 +9900"), None);
}

#[test]
fn embedded_outcome_keeps_value_or_gives_none() {
    let t = parse_embedded_date("2019-03-04 05:06:07").unwrap();
    assert_eq!(photo_date_exif_repair::embedded_date_outcome(Ok(t)), Some(t));
    assert_eq!(photo_date_exif_repair::embedded_date_outcome(Err("bad".to_string())), None);
}

#[test]
fn date_only_span_resolves_to_midnight_of_that_date() {
    let t = get_date_from_file("IMG-20230228-WA0001.jpg").unwrap();
    assert_eq!(wall_clock(&t), (2023, 2, 28, 0, 0, 0));
    assert_eq!(t.nanosecond, 0);
}
