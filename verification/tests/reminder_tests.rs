use race_reminder::event::Race;
use race_reminder::reminder::Reminder;
use race_reminder::reminder::render_reminder;
use race_reminder::reminder::threshold_for;
use race_reminder::reminder::tick_message;

// 2021-03-28 15:00:00 UTC.
const T: i64 = 1616943600;

fn race(round: u32, name: &str, country: &str, start: i64) -> Race {
    Race {
        round,
        season: 2021,
        race_name: name.to_string(),
        country: country.to_string(),
        start_instant: start,
    }
}

#[test]
fn thresholds_match_exactly() {
    // Neighbours of a threshold must not trigger it.
    assert_eq!(threshold_for(-95), None);
    assert_eq!(threshold_for(-96), Some(Reminder::Tips));
    assert_eq!(threshold_for(-97), None);
    assert_eq!(threshold_for(-29), None);
    assert_eq!(threshold_for(-30), Some(Reminder::Qualifying));
    assert_eq!(threshold_for(-31), None);
    assert_eq!(threshold_for(0), None);
    assert_eq!(threshold_for(-1), Some(Reminder::RaceStart));
    assert_eq!(threshold_for(-2), None);
    assert_eq!(threshold_for(1), None);
    assert_eq!(threshold_for(96), None);
}

#[test]
fn reminder_texts_render_exactly() {
    let r = race(7, "Großer Preis von Österreich", "Austria", T);
    assert_eq!(
        render_reminder(Reminder::Tips, &r),
        "Rennen Nr. 7 steht bald an! Vergesst nicht für den Großer Preis von Österreich eure Tipps abzugeben."
    );
    assert_eq!(
        render_reminder(Reminder::Qualifying, &r),
        "Das Qualifying in Austria fängt bald an! Vergesst nicht für den Großer Preis von Österreich eure Tipps für die Top 4 Fahrer aus Q3 abzugeben."
    );
    assert_eq!(
        render_reminder(Reminder::RaceStart, &r),
        "Gleich startet der Großer Preis von Österreich. Hoffentlich habt ihr eure Tipps abgegeben. Viel Spaß beim Rennen!"
    );
}

#[test]
fn tick_fires_only_on_exact_threshold() {
    let races = vec![race(3, "Testrennen", "Italy", T)];
    // 96 hours before the start: the tips reminder is due.
    let due = tick_message(&races, T - 96 * 3600);
    assert_eq!(
        due,
        Some(
            "Rennen Nr. 3 steht bald an! Vergesst nicht für den Testrennen eure Tipps abzugeben."
                .to_string()
        )
    );
    // 95 or 97 hours before: nothing is due.
    assert_eq!(tick_message(&races, T - 95 * 3600), None);
    assert_eq!(tick_message(&races, T - 97 * 3600), None);
    // One hour before: the race-start reminder.
    assert_eq!(
        tick_message(&races, T - 3600),
        Some(
            "Gleich startet der Testrennen. Hoffentlich habt ihr eure Tipps abgegeben. Viel Spaß beim Rennen!"
                .to_string()
        )
    );
    // No future race: no reminder.
    assert_eq!(tick_message(&races, T + 1), None);
}

#[test]
fn tick_uses_the_next_race() {
    let races = vec![
        race(1, "Erstes Rennen", "Bahrain", T),
        race(2, "Zweites Rennen", "Italy", T + 500 * 3600),
    ];
    // 30 hours before the first race the qualifying reminder names it.
    assert_eq!(
        tick_message(&races, T - 30 * 3600),
        Some(
            "Das Qualifying in Bahrain fängt bald an! Vergesst nicht für den Erstes Rennen eure Tipps für die Top 4 Fahrer aus Q3 abzugeben."
                .to_string()
        )
    );
}
