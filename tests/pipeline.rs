use chrono::TimeZone;
use photo_date_exif_repair::{
    assess_file, build_command, decide_file, dispatch_for, plan_dispatch, should_skip, Dispatch,
    Error, FileOutcome, Timestamp,
};

fn stamp(hour: u32) -> Timestamp {
    Timestamp {
        year: 2020,
        month: 1,
        day: 2,
        hour,
        minute: 0,
        second: 0,
        nanosecond: 0,
        offset_seconds: 3600,
    }
}

fn strings(v: &[&str]) -> Vec<String> {
    v.iter().map(|s| s.to_string()).collect()
}

#[test]
fn gate_skips_only_dated_and_ignored() {
    assert!(should_skip(&Some(stamp(1)), true));
    assert!(!should_skip(&Some(stamp(1)), false));
    assert!(!should_skip(&None, true));
    assert!(!should_skip(&None, false));
}

#[test]
fn dated_file_is_skipped_when_ignored() {
    let name = "IMG_20210820_133000_image.jpg";
    assert!(matches!(assess_file(name, name, Some(stamp(1)), true), FileOutcome::Skipped));
    assert!(matches!(assess_file("nothing.jpg", "nothing.jpg", Some(stamp(1)), true), FileOutcome::Skipped));
}

#[test]
fn dated_file_is_reported_and_not_queued() {
    let name = "IMG_20210820_133000_image.jpg";
    match assess_file(name, name, Some(stamp(1)), false) {
        FileOutcome::AlreadyDated { resolved, existing } => {
            assert_eq!(existing, stamp(1));
            assert_eq!((resolved.year, resolved.month, resolved.day), (2021, 8, 20));
        }
        other => panic!("unexpected {:?}", other),
    }
}

#[test]
fn undated_file_is_queued() {
    let name = "IMG_20210820_133000_image.jpg";
    match assess_file(name, name, None, true) {
        FileOutcome::Queued(w) => {
            assert_eq!(w.path, name);
            assert_eq!((w.timestamp.hour, w.timestamp.minute), (13, 30));
        }
        other => panic!("unexpected {:?}", other),
    }
    assert!(matches!(
        assess_file("nothing.jpg", "nothing.jpg", None, false),
        FileOutcome::Failed(Error::NoDate(_))
    ));
}

#[test]
fn decision_follows_resolution() {
    let failed = decide_file("a", None, false, Err(Error::NoDate("a".to_string())));
    assert!(matches!(failed, FileOutcome::Failed(Error::NoDate(_))));
    let kept = decide_file("a", Some(stamp(2)), false, Ok(stamp(3)));
    assert!(matches!(kept, FileOutcome::AlreadyDated { .. }));
    match decide_file("a", None, false, Ok(stamp(3))) {
        FileOutcome::Queued(w) => assert_eq!(w.timestamp, stamp(3)),
        other => panic!("unexpected {:?}", other),
    }
}

#[test]
fn command_line_with_and_without_overwrite() {
    assert_eq!(
        build_command("2020-01-02T03:00:00+01:00", "/p/a.jpg", true),
        strings(&["exiftool", "-overwrite_original", "-AllDates=\"2020-01-02T03:00:00+01:00\"", "/p/a.jpg"])
    );
    assert_eq!(
        build_command("2020-01-02T03:00:00+01:00", "/p/a.jpg", false),
        strings(&["exiftool", "-AllDates=\"2020-01-02T03:00:00+01:00\"", "/p/a.jpg"])
    );
}

#[test]
fn dry_run_only_shows() {
    for overwrite in [false, true] {
        assert!(matches!(dispatch_for("s", "/p", true, overwrite), Dispatch::Show(_)));
        assert!(matches!(dispatch_for("s", "/p", false, overwrite), Dispatch::Run(_)));
    }
}

#[test]
fn planned_command_carries_rfc3339_stamp() {
    let expected = chrono::FixedOffset::east_opt(3600)
        .unwrap()
        .with_ymd_and_hms(2020, 1, 2, 3, 0, 0)
        .unwrap()
        .to_rfc3339();
    assert_eq!(expected, "2020-01-02T03:00:00+01:00");
    match plan_dispatch(&stamp(3), "/p/a.jpg", false, false) {
        Some(Dispatch::Run(args)) => {
            assert_eq!(args, strings(&["exiftool", "-AllDates=\"2020-01-02T03:00:00+01:00\"", "/p/a.jpg"]))
        }
        other => panic!("unexpected {:?}", other),
    }
}

#[test]
fn repeated_dispatch_gives_the_same_command() {
    let first = plan_dispatch(&stamp(3), "/p/a.jpg", false, true);
    let second = plan_dispatch(&stamp(3), "/p/a.jpg", false, true);
    match (first, second) {
        (Some(Dispatch::Run(a)), Some(Dispatch::Run(b))) => assert_eq!(a, b),
        other => panic!("unexpected {:?}", other),
    }
}

#[test]
fn impossible_instant_has_no_plan() {
    let mut t = stamp(3);
    t.month = 2;
    t.day = 30;
    assert!(plan_dispatch(&t, "/p", true, false).is_none());
}

#[test]
fn real_instant_always_has_a_plan() {
    let mut t = stamp(23);
    t.year = 2024;
    t.month = 2;
    t.day = 29;
    t.offset_seconds = -86_399;
    assert!(plan_dispatch(&t, "/p", false, false).is_some());
}
