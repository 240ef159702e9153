use web_blocker::ident::{new_random_uuid, uuid_to_string};
use web_blocker::session::data::{BreakData, EventType, SessionData, SessionEvent};
use web_blocker::timestamp::Timestamp;

fn ts(secs: i64, nanos: u32) -> Timestamp {
    Timestamp { secs, nanos, offset: 0 }
}

fn snapshot(end: Option<Timestamp>, breaks: Vec<BreakData>) -> SessionData {
    SessionData { id: 7, start: ts(1_000, 0), end, breaks }
}

#[test]
fn break_duration_only_once_ended() {
    let ended = BreakData { start: ts(10, 500_000_000), end: Some(ts(15, 0)) };
    assert_eq!(ended.duration().unwrap().nanos, 4_500_000_000);
    let ongoing = BreakData { start: ts(10, 0), end: None };
    assert!(ongoing.duration().is_none());
}

#[test]
fn session_durations() {
    let data = snapshot(
        Some(ts(4_600, 0)),
        vec![
            BreakData { start: ts(1_100, 0), end: Some(ts(1_400, 0)) },
            BreakData { start: ts(2_000, 0), end: Some(ts(2_060, 250_000_000)) },
            BreakData { start: ts(3_000, 0), end: None },
        ],
    );
    assert_eq!(data.total_duration().unwrap().nanos, 3_600_000_000_000);
    assert_eq!(data.break_duration().nanos, 360_250_000_000);
    assert_eq!(data.active_duration().unwrap().nanos, 3_239_750_000_000);
    assert!(data.is_valid());
}

#[test]
fn ongoing_break_counts_for_nothing() {
    let with = snapshot(None, vec![BreakData { start: ts(1_100, 0), end: None }]);
    assert_eq!(with.break_duration().nanos, 0);
    let without = snapshot(None, vec![]);
    assert_eq!(without.break_duration().nanos, 0);
}

#[test]
fn no_end_means_no_totals() {
    let data = snapshot(None, vec![BreakData { start: ts(1_100, 0), end: Some(ts(1_200, 0)) }]);
    assert!(data.total_duration().is_none());
    assert!(data.active_duration().is_none());
    assert_eq!(data.break_duration().nanos, 100_000_000_000);
}

#[test]
fn validity_checks() {
    let bad = SessionData { id: 1, start: ts(0, 2_000_000_000), end: None, breaks: vec![] };
    assert!(!bad.timestamps_valid());
    assert!(!bad.is_valid());
    let bad_break = snapshot(None, vec![BreakData { start: ts(0, 0), end: Some(ts(0, 1_000_000_000)) }]);
    assert!(!bad_break.timestamps_valid());
    assert!(snapshot(Some(ts(2_000, 0)), vec![]).durations_fit());
    assert!(snapshot(Some(ts(2_000, 0)), vec![]).checked_break_duration().is_some());
}

#[test]
fn event_type_label() {
    assert_eq!(EventType::TestEvent.to_string(), "TestEvent");
}

#[test]
fn new_event_is_stamped() {
    let e = SessionEvent::new(EventType::TestEvent, String::from("hello"));
    assert!(e.is_valid());
    assert_eq!(e.timestamp.offset, 0);
    assert_eq!(e.meta, "hello");
    assert_eq!(e.event_type, EventType::TestEvent);
    assert_eq!(uuid::Uuid::from_u128(e.id).get_version_num(), 4);
    let bad = SessionEvent { timestamp: Timestamp { secs: 0, nanos: 0, offset: 60 }, id: 0, event_type: EventType::TestEvent, meta: String::new() };
    assert!(!bad.is_valid());
}

#[test]
fn random_identifiers() {
    let a = new_random_uuid();
    let b = new_random_uuid();
    assert_ne!(a, b);
    for id in [a, b] {
        assert_eq!((id >> 76) & 0xf, 4);
        assert_eq!((id >> 62) & 0x3, 2);
    }
}

#[test]
fn identifier_text() {
    assert_eq!(
        uuid_to_string(0x0123_4567_89ab_cdef_0011_2233_4455_6677),
        "01234567-89ab-cdef-0011-223344556677"
    );
    assert_eq!(uuid_to_string(0), "00000000-0000-0000-0000-000000000000");
}

#[test]
fn break_order_and_open_breaks_do_not_matter() {
    let a = BreakData { start: ts(1_100, 0), end: Some(ts(1_400, 0)) };
    let b = BreakData { start: ts(2_000, 0), end: Some(ts(2_060, 250_000_000)) };
    let open = || BreakData { start: ts(3_000, 0), end: None };
    let first = snapshot(None, vec![BreakData { ..a }, BreakData { ..b }]);
    let swapped = snapshot(None, vec![BreakData { ..b }, open(), BreakData { ..a }, open()]);
    assert_eq!(first.break_duration().nanos, swapped.break_duration().nanos);
}
