use race_reminder::registry::Registry;
use race_reminder::registry::parse_chat_id;

#[test]
fn parses_log_records() {
    assert_eq!(parse_chat_id("123"), Some(123));
    assert_eq!(parse_chat_id("0"), Some(0));
    assert_eq!(parse_chat_id("007"), Some(7));
    assert_eq!(parse_chat_id("-1001234"), Some(-1001234));
    assert_eq!(parse_chat_id("+5"), Some(5));
    assert_eq!(parse_chat_id("9223372036854775807"), Some(i64::MAX));
    assert_eq!(parse_chat_id("-9223372036854775808"), Some(i64::MIN));
}

#[test]
fn rejects_bad_log_records() {
    assert_eq!(parse_chat_id(""), None);
    assert_eq!(parse_chat_id("-"), None);
    assert_eq!(parse_chat_id("+"), None);
    assert_eq!(parse_chat_id("12a"), None);
    assert_eq!(parse_chat_id(" 12"), None);
    assert_eq!(parse_chat_id("1.2"), None);
    assert_eq!(parse_chat_id("9223372036854775808"), None);
    assert_eq!(parse_chat_id("-9223372036854775809"), None);
    assert_eq!(parse_chat_id("99999999999999999999999999"), None);
}

#[test]
fn add_is_idempotent() {
    let mut reg = Registry::new();
    assert!(reg.add(42));
    assert!(!reg.add(42));
    assert_eq!(reg.count(), 1);
    assert_eq!(reg.snapshot(), vec![42]);
}

#[test]
fn duplicate_log_records_collapse() {
    // However many duplicate records the backing log holds, the snapshot
    // is a set.
    let log = vec![7, 7, 7, 7];
    let reg = Registry::from_log(&log);
    assert_eq!(reg.count(), 1);
    assert!(reg.contains(7));
    assert_eq!(reg.snapshot(), vec![7]);
}

#[test]
fn from_log_keeps_every_distinct_id() {
    let log = vec![1, 2, 1, 3, 2, 3, 3];
    let reg = Registry::from_log(&log);
    assert_eq!(reg.count(), 3);
    assert!(reg.contains(1));
    assert!(reg.contains(2));
    assert!(reg.contains(3));
    assert!(!reg.contains(4));
}

#[test]
fn empty_registry() {
    let reg = Registry::new();
    assert_eq!(reg.count(), 0);
    assert!(!reg.contains(0));
    assert!(reg.snapshot().is_empty());
}

#[test]
fn negative_ids_are_identities_too() {
    // Group chats carry negative identifiers.
    let mut reg = Registry::new();
    assert!(reg.add(-1001234));
    assert!(reg.contains(-1001234));
    assert!(!reg.contains(1001234));
}
