use race_reminder::event::Race;
use race_reminder::registry::Registry;
use race_reminder::responder::contains_sub;
use race_reminder::responder::handle_message;
use race_reminder::responder::is_race_query;
use race_reminder::responder::render_query_reply;

// 2021-03-28 15:00:00 UTC.
const T: i64 = 1616943600;

fn race(round: u32, name: &str, start: i64) -> Race {
    Race {
        round,
        season: 2021,
        race_name: name.to_string(),
        country: "Italy".to_string(),
        start_instant: start,
    }
}

#[test]
fn recognizes_query_case_insensitively() {
    assert!(is_race_query("Wann ist das nächste Rennen?"));
    // Would fail if lower-casing handed its input back unchanged.
    assert!(is_race_query("WANN IST DAS NÄCHSTE RENNEN?"));
    assert!(is_race_query("wann startet das nächste rennen"));
    assert!(!is_race_query("Wann ist das nächste Qualifying?"));
    assert!(!is_race_query("Rennen!"));
    assert!(!is_race_query(""));
}

#[test]
fn substring_search() {
    assert!(contains_sub("das nächste rennen", "nächst"));
    assert!(contains_sub("abc", ""));
    assert!(!contains_sub("", "a"));
    assert!(!contains_sub("rennende", "rennen!"));
}

#[test]
fn fallback_reply_when_no_race_is_upcoming() {
    // Scenario: a query arrives and no future event is available.
    let races = vec![race(1, "Vergangenes Rennen", T)];
    let mut reg = Registry::new();
    let out = handle_message(
        &races,
        T + 3600,
        &mut reg,
        99,
        "Lena",
        "Wann ist das nächste Rennen?",
    );
    assert_eq!(
        out.reply.unwrap(),
        "Leider kann ich dir gerade nicht den Zeitpunkt des nächsten Rennens sagen."
    );
}

#[test]
fn greeting_reply_names_race_and_german_time() {
    // Start 2021-03-28 15:00:00 UTC is 17:00 on the same day in UTC+2.
    let races = vec![race(2, "Großer Preis der Emilia-Romagna", T)];
    let reply = render_query_reply(&races, T - 10 * 3600, "Max");
    assert_eq!(
        reply,
        "Hi, Max! Das nächste Rennen ist der 'Großer Preis der Emilia-Romagna'. Das Rennen startet am 28.03.2021 um 17:00 Uhr zu deutscher Zeit."
    );
}

#[test]
fn display_shift_can_move_the_date() {
    // 23:30 UTC on March 27 is 01:30 on March 28 in the display timezone.
    let races = vec![race(2, "Nachtrennen", T - 15 * 3600 - 1800)];
    let reply = render_query_reply(&races, T - 30 * 3600, "Kim");
    assert_eq!(
        reply,
        "Hi, Kim! Das nächste Rennen ist der 'Nachtrennen'. Das Rennen startet am 28.03.2021 um 01:30 Uhr zu deutscher Zeit."
    );
}

#[test]
fn unseen_sender_is_registered_whatever_the_text() {
    // Scenario: a sender id not previously in the store sends any message.
    let races = vec![race(1, "Rennen", T)];
    let mut reg = Registry::from_log(&vec![5]);
    assert!(!reg.contains(77));
    let out = handle_message(&races, T - 5 * 3600, &mut reg, 77, "Kai", "hallo");
    assert!(reg.contains(77));
    assert!(out.newly_registered);
    assert!(out.reply.is_none());
    // A known sender is not registered again.
    let out2 = handle_message(&races, T - 5 * 3600, &mut reg, 77, "Kai", "hallo");
    assert!(!out2.newly_registered);
    assert_eq!(reg.count(), 2);
}

#[test]
fn query_reply_and_registration_combine() {
    let races = vec![race(1, "Rennen von Monza", T)];
    let mut reg = Registry::new();
    let out = handle_message(
        &races,
        T - 5 * 3600,
        &mut reg,
        12,
        "Ada",
        "wann ist das nächste rennen",
    );
    assert!(out.newly_registered);
    assert_eq!(
        out.reply.unwrap(),
        "Hi, Ada! Das nächste Rennen ist der 'Rennen von Monza'. Das Rennen startet am 28.03.2021 um 17:00 Uhr zu deutscher Zeit."
    );
}
