use race_reminder::event::race_from_feed;

#[test]
fn builds_race_from_feed_record() {
    let race = race_from_feed(
        1,
        2021,
        "Bahrain Grand Prix".to_string(),
        "Bahrain".to_string(),
        "2021-03-28",
        "15:00:00Z",
    )
    .unwrap();
    assert_eq!(race.round, 1);
    assert_eq!(race.season, 2021);
    assert_eq!(race.race_name, "Bahrain Grand Prix");
    assert_eq!(race.country, "Bahrain");
    assert_eq!(race.start_instant, 1616943600);
}

#[test]
fn rejects_bad_feed_records() {
    let name = || "X".to_string();
    // Malformed or impossible dates.
    assert!(race_from_feed(1, 2021, name(), name(), "2021-02-29", "15:00:00Z").is_none());
    assert!(race_from_feed(1, 2021, name(), name(), "28.03.2021", "15:00:00Z").is_none());
    assert!(race_from_feed(1, 2021, name(), name(), "2021-03-28", "15:00").is_none());
    // Zero round or season.
    assert!(race_from_feed(0, 2021, name(), name(), "2021-03-28", "15:00:00Z").is_none());
    assert!(race_from_feed(1, 0, name(), name(), "2021-03-28", "15:00:00Z").is_none());
    // No headroom left for the display-timezone shift.
    assert!(race_from_feed(1, 2021, name(), name(), "9999-12-31", "23:00:00Z").is_none());
    assert!(race_from_feed(1, 2021, name(), name(), "9999-12-31", "21:59:59Z").is_some());
}
