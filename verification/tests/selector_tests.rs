use race_reminder::event::Race;
use race_reminder::selector::get_next_race;
use race_reminder::selector::hours_between_x;

// 2021-03-28 15:00:00 UTC.
const T: i64 = 1616943600;

fn race(round: u32, name: &str, start: i64) -> Race {
    Race {
        round,
        season: 2021,
        race_name: name.to_string(),
        country: "Italy".to_string(),
        start_instant: start,
    }
}

fn two_races() -> Vec<Race> {
    vec![
        race(1, "Erstes Rennen", T + 10 * 3600),
        race(2, "Zweites Rennen", T + 200 * 3600),
    ]
}

#[test]
fn scenario_next_is_round_one() {
    // Now = T: round 1 is ten hours away and wins with offset -10.
    let races = two_races();
    let (idx, off) = get_next_race(&races, T).unwrap();
    assert_eq!(races[idx].round, 1);
    assert_eq!(off, -10);
}

#[test]
fn scenario_round_one_just_passed() {
    // Now = T + 10h + 1s: round 1 is no longer in the future; round 2 wins.
    let races = two_races();
    let now = T + 10 * 3600 + 1;
    let (idx, off) = get_next_race(&races, now).unwrap();
    assert_eq!(races[idx].round, 2);
    // 190 hours minus one second, truncated toward zero.
    assert_eq!(off, -189);
}

#[test]
fn no_future_race_yields_none() {
    let races = two_races();
    let now = T + 201 * 3600;
    assert!(get_next_race(&races, now).is_none());
}

#[test]
fn empty_list_yields_none() {
    let races: Vec<Race> = Vec::new();
    assert!(get_next_race(&races, T).is_none());
}

#[test]
fn race_less_than_an_hour_away_is_not_future() {
    // 59 minutes before the start the truncated offset is already 0.
    let races = vec![race(1, "Knapp", T)];
    assert!(get_next_race(&races, T - 59 * 60).is_none());
    assert_eq!(get_next_race(&races, T - 3600).unwrap().1, -1);
}

#[test]
fn offsets_truncate_toward_zero() {
    assert_eq!(hours_between_x(T, T), 0);
    assert_eq!(hours_between_x(T + 3599, T), 0);
    assert_eq!(hours_between_x(T + 3600, T), 1);
    assert_eq!(hours_between_x(T - 3599, T), 0);
    assert_eq!(hours_between_x(T - 3600, T), -1);
    assert_eq!(hours_between_x(T - 96 * 3600, T), -96);
}

#[test]
fn tie_breaks_by_earliest_start() {
    // Both races truncate to the same offset; the earlier start wins.
    let races = vec![
        race(1, "Spaeter", T + 10 * 3600 + 1800),
        race(2, "Frueher", T + 10 * 3600),
    ];
    let (idx, off) = get_next_race(&races, T).unwrap();
    assert_eq!(races[idx].round, 2);
    assert_eq!(off, -10);
}
