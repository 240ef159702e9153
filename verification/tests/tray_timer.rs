use web_blocker::tray::{circle_rgba, format_clock, MenuAction, MenuCommand, NetworkProxyStatus, TimerState};

const SECS: u128 = 1_000_000_000;

#[test]
fn clock_text() {
    assert_eq!(format_clock(0), "00:00:00");
    assert_eq!(format_clock(3725), "01:02:05");
    assert_eq!(format_clock(359_999), "99:59:59");
    assert_eq!(format_clock(360_000), "100:00:00");
}

#[test]
fn proxy_status_words() {
    assert_eq!(NetworkProxyStatus::On.to_string(), "ON");
    assert_eq!(NetworkProxyStatus::Off.to_string(), "OFF");
}

#[test]
fn menu_identifiers() {
    assert_eq!(MenuCommand::from_id("stop"), MenuCommand::Stop);
    assert_eq!(MenuCommand::from_id("start"), MenuCommand::Start);
    assert_eq!(MenuCommand::from_id("quit"), MenuCommand::Quit);
    assert_eq!(MenuCommand::from_id("Quit"), MenuCommand::Other);
    assert_eq!(MenuCommand::from_id(""), MenuCommand::Other);
}

#[test]
fn running_timer_title() {
    let t = TimerState::new(5 * SECS);
    assert_eq!(t.title(5 * SECS).unwrap(), "00:00:00");
    assert_eq!(t.title(5 * SECS + 3_725 * SECS + 999_999_999).unwrap(), "01:02:05");
    assert_eq!(t.title(0).unwrap(), "00:00:00"); // a reading before the start counts as none
    assert_eq!(t.elapsed_at(65 * SECS), 60);
    assert_eq!(t.run_secs_at(65 * SECS), 60);
}

#[test]
fn stop_freezes_and_start_resumes() {
    let mut t = TimerState::new(0);
    assert_eq!(t.handle(MenuCommand::Stop, 90 * SECS + 500_000_000), MenuAction::Continue);
    assert!(!t.is_running);
    assert_eq!(t.elapsed_before, 90);
    assert_eq!(t.title(500 * SECS), None);
    assert_eq!(t.handle(MenuCommand::Start, 1_000 * SECS), MenuAction::Continue);
    assert!(t.is_running);
    assert_eq!(t.title(1_000 * SECS).unwrap(), "00:01:30");
    assert_eq!(t.title(1_030 * SECS).unwrap(), "00:02:00");
}

#[test]
fn quit_and_unknown_items() {
    let mut t = TimerState::new(7);
    assert_eq!(t.handle(MenuCommand::Quit, 100 * SECS), MenuAction::Quit);
    assert_eq!(t.handle(MenuCommand::Other, 100 * SECS), MenuAction::Continue);
    assert_eq!((t.elapsed_before, t.start_time, t.is_running), (0, 7, true));
}

#[test]
fn start_while_running_restarts_the_run() {
    let mut t = TimerState::new(0);
    t.handle(MenuCommand::Start, 50 * SECS);
    assert_eq!(t.elapsed_at(60 * SECS), 10);
}

#[test]
fn tray_icon_matches_float_disk() {
    let rgba = circle_rgba(16, 16, 6);
    assert_eq!(rgba.len(), 16 * 16 * 4);
    let mut expected = vec![0u8; 16 * 16 * 4];
    for y in 0..16i32 {
        for x in 0..16i32 {
            let dx = (x - 8) as f32;
            let dy = (y - 8) as f32;
            if (dx * dx + dy * dy).sqrt() <= 6.0 {
                let idx = ((y as u32 * 16 + x as u32) * 4) as usize;
                expected[idx] = 1;
                expected[idx + 1] = 1;
                expected[idx + 2] = 1;
                expected[idx + 3] = 255;
            }
        }
    }
    assert_eq!(rgba, expected);
    assert_eq!(&rgba[(8 * 16 + 8) * 4..(8 * 16 + 8) * 4 + 4], &[1, 1, 1, 255]);
    assert_eq!(&rgba[0..4], &[0, 0, 0, 0]);
}

#[test]
fn icon_of_other_sizes() {
    assert_eq!(circle_rgba(3, 0, 1).len(), 0);
    assert_eq!(circle_rgba(1, 1, 0), vec![1, 1, 1, 255]);
}

#[test]
fn count_never_decreases_while_running() {
    let t = TimerState { elapsed_before: 12, start_time: 3 * SECS, is_running: true };
    let mut last = 0;
    for step in 0..50u128 {
        let now = step * 400_000_000;
        let c = t.elapsed_at(now);
        assert!(c >= last);
        last = c;
    }
    assert_eq!(last, 12 + 16);
}
