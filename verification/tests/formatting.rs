use web_blocker::session::data::{BreakData, EventType, SessionData, SessionEvent};
use web_blocker::session::formatter::{fmt_duration, opt_quoted, JsonFormatter, PrettyFormatter, SessionFormatter};
use web_blocker::timestamp::{TimeDelta, Timestamp};

fn ts(secs: i64, offset: i32) -> Timestamp {
    Timestamp { secs, nanos: 0, offset }
}

const SECS: i128 = 1_000_000_000;

#[test]
fn duration_text_units() {
    assert_eq!(fmt_duration(&TimeDelta { nanos: 3725 * SECS }), "1h 2m 5s");
    assert_eq!(fmt_duration(&TimeDelta { nanos: 3600 * SECS }), "1h 0m 0s");
    assert_eq!(fmt_duration(&TimeDelta { nanos: 125 * SECS + 999_999_999 }), "2m 5s");
    assert_eq!(fmt_duration(&TimeDelta { nanos: 5 * SECS }), "5s");
    assert_eq!(fmt_duration(&TimeDelta { nanos: 0 }), "0s");
}

#[test]
fn negative_duration_shows_zero() {
    assert_eq!(fmt_duration(&TimeDelta { nanos: -90 * SECS }), "0s");
}

#[test]
fn optional_quoting() {
    assert_eq!(opt_quoted(Some(String::from("x y"))), "\"x y\"");
    assert_eq!(opt_quoted(None), "null");
}

fn sample() -> SessionData {
    SessionData {
        id: 0x0123_4567_89ab_cdef_0011_2233_4455_6677,
        start: ts(1_700_000_000, 3600),
        end: Some(ts(1_700_003_725, 3600)),
        breaks: vec![
            BreakData { start: ts(1_700_000_100, 3600), end: Some(ts(1_700_000_190, 3600)) },
            BreakData { start: ts(1_700_003_000, 3600), end: None },
        ],
    }
}

#[test]
fn pretty_report() {
    let text = PrettyFormatter.format(&sample());
    assert_eq!(
        text,
        "=== web-blocker session ===\n\
         ID:          01234567-89ab-cdef-0011-223344556677\n\
         Started:     2023-11-14 23:13:20 +01:00\n\
         Ended:       2023-11-15 00:15:25 +01:00\n\
         Duration:    1h 2m 5s\n\
         \n\
         Breaks (2):\n  \
         #1  23:15:00  \u{2192}  23:16:30  (1m 30s)\n  \
         #2  00:03:20  \u{2192}  ongoing  (\u{2014})\n\
         Active time: 1h 0m 35s\n"
    );
}

#[test]
fn pretty_report_without_breaks_or_end() {
    let data = SessionData { id: 0, start: ts(0, 0), end: None, breaks: vec![] };
    assert_eq!(
        PrettyFormatter.format(&data),
        "=== web-blocker session ===\n\
         ID:          00000000-0000-0000-0000-000000000000\n\
         Started:     1970-01-01 00:00:00 +00:00\n\
         Ended:       ongoing\n\
         Duration:    ongoing\n\
         \n\
         Breaks (0):\n  \
         (none)\n\
         Active time: \u{2014}\n"
    );
}

#[test]
fn pretty_break_numbers_widen() {
    let breaks: Vec<BreakData> = (0..10).map(|i| BreakData { start: ts(i, 0), end: None }).collect();
    let data = SessionData { id: 0, start: ts(0, 0), end: None, breaks };
    let text = PrettyFormatter.format(&data);
    assert!(text.contains("  #9  00:00:08  \u{2192}  ongoing  (\u{2014})\n"));
    assert!(text.contains("  #10 00:00:09  \u{2192}  ongoing  (\u{2014})\n"));
}

#[test]
fn json_report() {
    let text = JsonFormatter.format(&sample());
    assert_eq!(
        text,
        "{\"id\":\"01234567-89ab-cdef-0011-223344556677\",\
         \"started\":\"2023-11-14T23:13:20+01:00\",\
         \"ended\":\"2023-11-15T00:15:25+01:00\",\
         \"duration_secs\":3725,\
         \"breaks\":[{\"start\":\"2023-11-14T23:15:00+01:00\",\"end\":\"2023-11-14T23:16:30+01:00\",\"duration_secs\":90},\
         {\"start\":\"2023-11-15T00:03:20+01:00\",\"end\":null,\"duration_secs\":null}],\
         \"active_secs\":3635}"
    );
}

#[test]
fn json_report_without_breaks_or_end() {
    let data = SessionData { id: 0, start: ts(0, 0), end: None, breaks: vec![] };
    assert_eq!(
        JsonFormatter.format(&data),
        "{\"id\":\"00000000-0000-0000-0000-000000000000\",\"started\":\"1970-01-01T00:00:00+00:00\",\"ended\":null,\"duration_secs\":null,\"breaks\":[],\"active_secs\":null}"
    );
}

#[test]
fn json_negative_seconds_truncate() {
    let data = SessionData {
        id: 0,
        start: Timestamp { secs: 10, nanos: 500_000_000, offset: 0 },
        end: Some(ts(9, 0)),
        breaks: vec![],
    };
    assert!(JsonFormatter.format(&data).contains("\"duration_secs\":-1,"));
}

#[test]
fn pretty_event_line() {
    let e = SessionEvent {
        timestamp: Timestamp { secs: 0, nanos: 0, offset: 0 },
        id: 0x0123_4567_89ab_cdef_0011_2233_4455_6677,
        event_type: EventType::TestEvent,
        meta: String::from("blocked example.com"),
    };
    assert_eq!(
        PrettyFormatter.format_event(&e),
        "1970-01-01 00:00:00 UTC TestEvent[01234567-89ab-cdef-0011-223344556677] blocked example.com\n"
    );
}

#[test]
fn which_formats_take_events() {
    assert!(PrettyFormatter.can_format_events());
    assert!(!JsonFormatter.can_format_events());
}
