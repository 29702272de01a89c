use std::time::SystemTime;
use stormstorage::api::list_events;
use stormstorage::events::{EventLog, Notice, Severity};

#[test]
fn ring_caps_and_since_filters() {
    let mut log = EventLog::new(2);
    for i in 0..4 {
        log.push(None, Severity::Info, "t", format!("e{i}"));
    }
    assert_eq!(log.latest_seq(), 4);
    assert_eq!(log.since(0).len(), 2);
    assert_eq!(log.since(3).len(), 1);
}

#[test]
fn events_carry_what_was_noted_and_when() {
    let before = SystemTime::now();
    let mut log = EventLog::new(4);
    assert_eq!(log.latest_seq(), 0);
    let seq = log.push(Some("n1".into()), Severity::Warning, "node", "gone".into());
    let after = SystemTime::now();
    assert_eq!(seq, 1);
    let e = &log.since(0)[0];
    assert_eq!(e.seq, 1);
    assert_eq!(e.subject.as_deref(), Some("n1"));
    assert_eq!(e.severity, Severity::Warning);
    assert_eq!((e.kind.as_str(), e.message.as_str()), ("node", "gone"));
    assert!(before <= e.time && e.time <= after);
}

#[test]
fn a_given_time_is_kept() {
    let t = SystemTime::UNIX_EPOCH;
    let mut log = EventLog::new(1);
    assert_eq!(log.push_at(t, None, Severity::Error, "k", "m".into()), 1);
    assert_eq!(log.since(0)[0].time, t);
}

#[test]
fn a_ring_with_no_room_never_lets_go() {
    let mut log = EventLog::new(0);
    for i in 0..3 {
        log.push(None, Severity::Info, "t", format!("{i}"));
    }
    assert_eq!(log.since(0).len(), 3);
}

#[test]
fn notices_are_recorded_in_turn() {
    let mut log = EventLog::new(10);
    let notice = |m: &str| Notice {
        subject: None,
        severity: Severity::Info,
        kind: "k".into(),
        message: m.into(),
    };
    log.record(vec![notice("a"), notice("b")]);
    let (latest, events) = list_events(&log, 0);
    assert_eq!(latest, 2);
    let said: Vec<&str> = events.iter().map(|e| e.message.as_str()).collect();
    assert_eq!(said, ["a", "b"]);
    assert!(list_events(&log, 2).1.is_empty());
}
