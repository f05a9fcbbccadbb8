use td_todo::time::{Timestamp, TIME_FORMAT};

fn at(secs: i64, offset: i32) -> Timestamp {
    Timestamp { secs, nanos: 0, offset }
}

#[test]
fn time_format_is_the_iso_format() {
    assert_eq!(TIME_FORMAT, "%+");
}

#[test]
fn format_writes_utc() {
    assert_eq!(at(1705311000, 0).format(), Some("2024-01-15T09:30:00+00:00".to_string()));
    assert_eq!(at(0, 0).format(), Some("1970-01-01T00:00:00+00:00".to_string()));
}

#[test]
fn format_shows_the_local_time_of_the_offset() {
    assert_eq!(at(1709274600, 19800).format(), Some("2024-03-01T12:00:00+05:30".to_string()));
    assert_eq!(at(1705311000, -3600).format(), Some("2024-01-15T08:30:00-01:00".to_string()));
}

#[test]
fn format_writes_fractions_of_a_second() {
    let stamp = Timestamp { secs: 1705303800, nanos: 250_000_000, offset: 7200 };
    assert_eq!(stamp.format(), Some("2024-01-15T09:30:00.250+02:00".to_string()));
    let fine = Timestamp { secs: 0, nanos: 1, offset: 0 };
    assert_eq!(fine.format(), Some("1970-01-01T00:00:00.000000001+00:00".to_string()));
}

#[test]
fn format_has_no_text_outside_the_calendar() {
    assert_eq!(at(0, 86_400).format(), None);
    assert_eq!(at(0, -86_400).format(), None);
    assert_eq!(at(i64::MAX, 0).format(), None);
    assert_eq!(at(i64::MIN, 0).format(), None);
    assert_eq!(Timestamp { secs: 0, nanos: 2_000_000_000, offset: 0 }.format(), None);
    assert_eq!(Timestamp { secs: 0, nanos: 1_000_000_000, offset: 0 }.format(), None);
}

#[test]
fn parse_reads_utc() {
    assert_eq!(Timestamp::parse("2024-01-15T09:30:00+00:00"), Some(at(1705311000, 0)));
    assert_eq!(Timestamp::parse("2024-01-10T08:00:00+00:00"), Some(at(1704873600, 0)));
    assert_eq!(Timestamp::parse("2024-01-12T17:45:00Z"), Some(at(1705081500, 0)));
}

#[test]
fn parse_keeps_the_offset() {
    assert_eq!(Timestamp::parse("2024-03-01T12:00:00+05:30"), Some(at(1709274600, 19800)));
    assert_eq!(
        Timestamp::parse("2024-01-15T09:30:00.250+02:00"),
        Some(Timestamp { secs: 1705303800, nanos: 250_000_000, offset: 7200 })
    );
}

#[test]
fn parse_refuses_what_is_no_timestamp() {
    assert_eq!(Timestamp::parse(""), None);
    assert_eq!(Timestamp::parse("yesterday"), None);
    assert_eq!(Timestamp::parse("2024-01-15"), None);
    assert_eq!(Timestamp::parse("2024-01-15T09:30:00"), None);
    assert_eq!(Timestamp::parse("2024-13-15T09:30:00+00:00"), None);
    assert_eq!(Timestamp::parse("2024-01-15T09:30:00+00:00 and more"), None);
}

#[test]
fn parse_reads_what_format_wrote() {
    let stamps = [
        at(0, 0),
        at(1705311000, 0),
        at(1709274600, 19800),
        at(-1, -18000),
        Timestamp { secs: 1705303800, nanos: 123_456_789, offset: 7200 },
        Timestamp { secs: 1705303800, nanos: 5_000, offset: -34200 },
    ];
    for stamp in stamps {
        let text = stamp.format().unwrap();
        assert_eq!(Timestamp::parse(&text), Some(stamp), "{}", text);
    }
}

#[test]
fn an_offset_with_seconds_is_not_read_back() {
    let stamp = at(1705311000, 30);
    let text = stamp.format().unwrap();
    assert_ne!(Timestamp::parse(&text), Some(stamp));
}

#[test]
fn now_is_in_this_century() {
    let now = Timestamp::now();
    assert!(now.secs > 1_600_000_000);
    assert!(now.secs < 4_102_444_800);
    assert!(now.nanos < 2_000_000_000);
    assert!(-86_400 < now.offset && now.offset < 86_400);
    assert!(now.format().is_some());
}

#[test]
fn is_not_before_goes_by_the_instant() {
    let early = at(100, 3600);
    let late = at(101, -3600);
    assert!(late.is_not_before(&early));
    assert!(!early.is_not_before(&late));
    assert!(early.is_not_before(&early));
    assert!(at(100, 0).is_not_before(&at(100, 7200)));
    let later = Timestamp { secs: 100, nanos: 1, offset: 3600 };
    assert!(later.is_not_before(&early));
    assert!(!early.is_not_before(&later));
}

#[test]
fn what_parse_reads_can_be_written() {
    let texts = [
        "2024-01-15T09:30:00+00:00",
        "2024-01-12T17:45:00Z",
        "2024-03-01T12:00:00+05:30",
        "2024-01-15T09:30:00.250+02:00",
        "2016-12-31T23:59:60+00:00",
        "0001-01-01T00:00:00-23:59",
        "+12345-06-07T08:09:10+00:00",
    ];
    for text in texts {
        let read = Timestamp::parse(text).unwrap();
        assert!(-86_400 < read.offset && read.offset < 86_400, "{}", text);
        assert!(read.nanos < 2_000_000_000, "{}", text);
        assert!(read.format().is_some(), "{}", text);
    }
}

#[test]
fn parse_reads_a_leap_second() {
    assert_eq!(
        Timestamp::parse("2016-12-31T23:59:60+00:00"),
        Some(Timestamp { secs: 1483228799, nanos: 1_000_000_000, offset: 0 })
    );
}
