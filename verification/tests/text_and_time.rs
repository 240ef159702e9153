use web_blocker::text::{int_to_string, push_char, push_dec, push_left2, push_pad2};
use web_blocker::timestamp::{
    format_datetime_zone, format_hms, format_rfc3339, format_utc, instant_now, local_now,
    local_offset_at, nanos_between, utc_now, TimeDelta, Timestamp, MAX_DELTA_NANOS,
    MAX_TIMESTAMP, MIN_TIMESTAMP,
};

fn ts(secs: i64, nanos: u32, offset: i32) -> Timestamp {
    Timestamp { secs, nanos, offset }
}

#[test]
fn decimal_rendering() {
    assert_eq!(int_to_string(0), "0");
    assert_eq!(int_to_string(-42), "-42");
    assert_eq!(int_to_string(1234567890), "1234567890");
    assert_eq!(int_to_string(i64::MIN), i64::MIN.to_string());
    assert_eq!(int_to_string(i64::MAX), i64::MAX.to_string());
    let mut s = String::from("x");
    push_dec(&mut s, 907);
    push_char(&mut s, '|');
    push_pad2(&mut s, 7);
    push_char(&mut s, '|');
    push_pad2(&mut s, 123);
    push_char(&mut s, '|');
    push_left2(&mut s, 3);
    push_char(&mut s, '|');
    push_left2(&mut s, 42);
    assert_eq!(s, "x907|07|123|3 |42");
}

#[test]
fn duration_between_timestamps_is_exact() {
    let a = ts(100, 250_000_000, 0);
    let b = ts(98, 750_000_000, 3600);
    assert_eq!(a.duration_since(&b).nanos, 1_500_000_000);
    assert_eq!(b.duration_since(&a).nanos, -1_500_000_000);
}

#[test]
fn whole_seconds_truncate_toward_zero() {
    assert_eq!(TimeDelta { nanos: 1_999_999_999 }.num_seconds(), 1);
    assert_eq!(TimeDelta { nanos: -1_500_000_000 }.num_seconds(), -1);
    assert_eq!(TimeDelta { nanos: -999_999_999 }.num_seconds(), 0);
    assert_eq!(TimeDelta { nanos: 0 }.num_seconds(), 0);
    let chrono_delta = chrono::TimeDelta::new(-2, 500_000_000).unwrap();
    assert_eq!(TimeDelta { nanos: -1_500_000_000 }.num_seconds(), chrono_delta.num_seconds());
}

#[test]
fn delta_arithmetic_respects_chrono_range() {
    let max = TimeDelta { nanos: MAX_DELTA_NANOS };
    let one = TimeDelta { nanos: 1 };
    assert!(max.checked_add(&one).is_none());
    assert_eq!(max.checked_sub(&one).unwrap().nanos, MAX_DELTA_NANOS - 1);
    let min = TimeDelta { nanos: -MAX_DELTA_NANOS };
    assert!(min.checked_sub(&one).is_none());
    assert_eq!(TimeDelta::zero().nanos, 0);
    let chrono_max = chrono::TimeDelta::MAX;
    assert_eq!(
        chrono_max.num_seconds() as i128 * 1_000_000_000 + chrono_max.subsec_nanos() as i128,
        MAX_DELTA_NANOS
    );
}

#[test]
fn timestamp_bounds_match_chrono() {
    assert!(chrono::DateTime::from_timestamp(MIN_TIMESTAMP, 0).is_some());
    assert!(chrono::DateTime::from_timestamp(MIN_TIMESTAMP - 1, 999_999_999).is_none());
    assert!(chrono::DateTime::from_timestamp(MAX_TIMESTAMP, 999_999_999).is_some());
    assert!(chrono::DateTime::from_timestamp(MAX_TIMESTAMP + 1, 0).is_none());
    assert!(ts(MIN_TIMESTAMP, 0, 86_399).is_valid());
    assert!(ts(MAX_TIMESTAMP, 999_999_999, -86_399).is_valid());
    assert!(!ts(MAX_TIMESTAMP + 1, 0, 0).is_valid());
    assert!(!ts(0, 1_000_000_000, 0).is_valid());
    assert!(!ts(0, 0, 86_400).is_valid());
    // formatting at the edges does not panic
    let _ = format_rfc3339(&ts(MIN_TIMESTAMP, 0, -86_399));
    let _ = format_datetime_zone(&ts(MAX_TIMESTAMP, 999_999_999, 86_399));
}

#[test]
fn plus_local_moves_the_instant() {
    let start = ts(1_700_000_000, 900_000_000, 0);
    let t = start.plus_local(TimeDelta { nanos: 2_200_000_000 });
    assert_eq!((t.secs, t.nanos), (1_700_000_003, 100_000_000));
    assert!(t.is_valid());
    let back = start.plus_local(TimeDelta { nanos: -1_000_000_001 });
    assert_eq!((back.secs, back.nanos), (1_699_999_999, 899_999_999));
}

#[test]
fn time_of_day_text() {
    assert_eq!(format_hms(&ts(3725, 0, 0)), "01:02:05");
    assert_eq!(format_hms(&ts(3725, 999_999_999, 3600)), "02:02:05");
    assert_eq!(format_hms(&ts(-1, 0, 0)), "23:59:59");
    assert_eq!(format_hms(&ts(86_399, 0, -86_399)), "00:00:00");
}

#[test]
fn calendar_texts() {
    assert_eq!(format_rfc3339(&ts(0, 0, 0)), "1970-01-01T00:00:00+00:00");
    assert_eq!(format_rfc3339(&ts(0, 500_000_000, 3600)), "1970-01-01T01:00:00.500+01:00");
    assert_eq!(format_datetime_zone(&ts(0, 0, 3600)), "1970-01-01 01:00:00 +01:00");
    assert_eq!(format_datetime_zone(&ts(1_700_000_000, 0, 0)), "2023-11-14 22:13:20 +00:00");
    assert_eq!(format_utc(&ts(0, 0, 0)), "1970-01-01 00:00:00 UTC");
    assert_eq!(format_utc(&ts(0, 500_000_000, 0)), "1970-01-01 00:00:00.500 UTC");
}

#[test]
fn clock_readings() {
    let now = local_now();
    assert!(now.is_valid());
    let utc = utc_now();
    assert!(utc.is_valid());
    assert_eq!(utc.offset, 0);
    let offset = local_offset_at(now.secs, now.nanos);
    assert!(-86_400 < offset && offset < 86_400);
    let a = instant_now();
    let b = instant_now();
    assert_eq!(nanos_between(&a, &b), 0);
    let _ = nanos_between(&b, &a);
}
