use web_blocker::session::data::{EventType, SessionEvent};
use web_blocker::session::formatter::{JsonFormatter, PrettyFormatter, SessionFormatter};
use web_blocker::session::local_session::LocalSession;
use web_blocker::session::{init, save, start, stop, Session, SessionError};
use web_blocker::timestamp::Timestamp;

const SECS: u128 = 1_000_000_000;

fn event() -> SessionEvent {
    SessionEvent {
        timestamp: Timestamp { secs: 0, nanos: 0, offset: 0 },
        id: 0,
        event_type: EventType::TestEvent,
        meta: String::from("m"),
    }
}

#[test]
fn new_session_runs_without_breaks() {
    let s = LocalSession::new();
    assert!(s.is_well_formed());
    assert!(s.check_operational());
    let d = s.collect_at(0).unwrap();
    assert!(d.breaks.is_empty());
    assert_eq!((d.start.secs, d.start.nanos), (d.end.unwrap().secs, d.end.unwrap().nanos));
    assert_eq!(uuid::Uuid::from_u128(d.id).get_version_num(), 4);
}

#[test]
fn pause_is_recorded_as_one_break() {
    let mut s = LocalSession::new();
    s.stop_at(10 * SECS);
    s.stop_at(20 * SECS); // already on a break: ignored
    s.start_at(40 * SECS);
    s.start_at(50 * SECS); // already running: ignored
    let d = s.collect_at(100 * SECS).unwrap();
    assert_eq!(d.breaks.len(), 1);
    let b = &d.breaks[0];
    assert_eq!(b.start.duration_since(&d.start).nanos, 10 * SECS as i128);
    assert_eq!(b.duration().unwrap().nanos, 30 * SECS as i128);
    assert_eq!(d.total_duration().unwrap().nanos, 100 * SECS as i128);
    assert_eq!(d.active_duration().unwrap().nanos, 70 * SECS as i128);
}

#[test]
fn ongoing_break_has_no_end() {
    let mut s = LocalSession::new();
    s.stop_at(5 * SECS);
    let d = s.collect_at(9 * SECS).unwrap();
    assert_eq!(d.breaks.len(), 1);
    assert!(d.breaks[0].end.is_none());
    assert_eq!(d.active_duration().unwrap().nanos, 9 * SECS as i128);
}

#[test]
fn start_without_breaks_just_runs() {
    let mut s = LocalSession::new();
    s.start_at(3 * SECS);
    assert!(s.collect_at(3 * SECS).unwrap().breaks.is_empty());
}

#[test]
fn snapshot_out_of_range_is_refused() {
    let s = LocalSession::new();
    assert!(s.collect_at(u128::MAX / 2).is_some()); // too long for chrono: counted as zero
    assert!(s.collect_at(9_000_000_000_000 * SECS).is_none());
}

#[test]
fn events_are_logged_one_by_one() {
    let mut s = LocalSession::new();
    assert!(s.drains_next());
    let lines = s.log_event(event(), &PrettyFormatter);
    assert_eq!(lines, vec![String::from("1970-01-01 00:00:00 UTC TestEvent[00000000-0000-0000-0000-000000000000] m\n")]);
    assert_eq!(s.drain(&PrettyFormatter), lines);
    s.finish_log(true);
    assert!(s.drain(&PrettyFormatter).is_empty());
    assert!(s.drain(&JsonFormatter).is_empty());
    let lines = s.log_event(event(), &PrettyFormatter);
    assert_eq!(lines.len(), 1);
    s.finish_log(true);
    assert!(s.drains_next());
}

#[test]
fn failed_write_keeps_the_event_pending() {
    let mut s = LocalSession::new();
    let lines = s.log_event(event(), &PrettyFormatter);
    assert_eq!(lines.len(), 1);
    s.finish_log(false);
    assert_eq!(s.drain(&PrettyFormatter).len(), 1);
    assert!(!s.drains_next());
    // with one event still pending, the next is not drained, and both go
    let lines = s.log_event(event(), &PrettyFormatter);
    assert!(lines.is_empty());
    s.finish_log(true);
    assert!(s.drain(&PrettyFormatter).is_empty());
    assert!(s.drains_next());
    assert!(s.is_well_formed());
}

#[test]
fn session_from_parts() {
    let start = Timestamp { secs: 1_700_000_000, nanos: 5, offset: 3600 };
    let s = LocalSession::from_parts(42, std::time::Instant::now(), start);
    let d = s.collect_at(0).unwrap();
    assert_eq!(d.id, 42);
    assert_eq!((d.start.secs, d.start.nanos, d.start.offset), (1_700_000_000, 5, 3600));
    assert_eq!(d.end.unwrap().duration_since(&d.start).nanos, 0);
}

#[test]
fn save_stops_and_reports() {
    let mut s = LocalSession::new();
    let text = s.save_at(2 * SECS, 3 * SECS, &JsonFormatter).unwrap();
    assert!(text.contains("\"duration_secs\":3,"));
    assert!(text.contains("\"end\":null,\"duration_secs\":null}"));
    assert!(text.contains("\"active_secs\":3}"));
    let d = s.collect_at(4 * SECS).unwrap();
    assert_eq!(d.breaks.len(), 1);
    assert!(d.breaks[0].end.is_none());
}

#[test]
fn clock_driven_operations() {
    let mut s = LocalSession::new();
    s.stop();
    s.start();
    let d = s.collect().unwrap();
    assert_eq!(d.breaks.len(), 1);
    assert!(d.breaks[0].end.is_some());
    let report = s.save(&PrettyFormatter).unwrap();
    assert!(report.starts_with("=== web-blocker session ===\n"));
    assert!(report.contains("Breaks (2):\n"));
    let _ = s.elapsed_nanos();
}

#[test]
fn global_session_needs_init() {
    let mut slot: Option<LocalSession> = None;
    assert_eq!(start(&mut slot), Err(SessionError::NotInitialised));
    assert_eq!(stop(&mut slot), Err(SessionError::NotInitialised));
    assert_eq!(save(&mut slot, &PrettyFormatter), Err(SessionError::NotInitialised));
    init(&mut slot, LocalSession::new());
    assert_eq!(stop(&mut slot), Ok(()));
    assert_eq!(start(&mut slot), Ok(()));
    let text = save(&mut slot, &JsonFormatter).unwrap();
    assert!(text.starts_with("{\"id\":\""));
}

#[test]
fn only_the_first_init_counts() {
    let mut slot: Option<LocalSession> = None;
    let first = LocalSession::new();
    let first_id = first.collect_at(0).unwrap().id;
    init(&mut slot, first);
    init(&mut slot, LocalSession::new());
    assert_eq!(slot.as_ref().unwrap().collect_at(0).unwrap().id, first_id);
}

#[test]
fn snapshot_error_variant() {
    assert_ne!(SessionError::TimeOutOfRange, SessionError::NotInitialised);
}
