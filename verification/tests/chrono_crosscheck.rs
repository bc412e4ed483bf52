//! Cross-checks of the library's calendar arithmetic against chrono.

use chrono::TimeZone;
use chrono::Utc;
use race_reminder::calendar::MAX_INSTANT;
use race_reminder::timefmt::format_instant;
use race_reminder::timefmt::parse_instant;

#[test]
fn format_agrees_with_chrono() {
    let mut t: i64 = 0;
    while t <= MAX_INSTANT {
        let expected = Utc
            .timestamp_opt(t, 0)
            .unwrap()
            .format("%Y-%m-%d %H:%M:%SZ")
            .to_string();
        assert_eq!(format_instant(t), expected);
        t += 333_333_331;
    }
}

#[test]
fn parse_agrees_with_chrono() {
    for s in [
        "1970-01-01 00:00:00Z",
        "1999-12-31 23:59:59Z",
        "2016-02-29 12:34:56Z",
        "2021-03-28 15:00:00Z",
        "2400-02-29 06:07:08Z",
    ] {
        let expected = chrono::NaiveDateTime::parse_from_str(s, "%Y-%m-%d %H:%M:%SZ")
            .unwrap()
            .and_utc()
            .timestamp();
        assert_eq!(parse_instant(s), Some(expected));
    }
}
