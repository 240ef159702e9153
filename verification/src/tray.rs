//! The tray timer: what it shows, how its menu drives it, the icon it
//! draws, and the state of the network proxy it switches.

use vstd::prelude::*;
use vstd::string::StringExecFns;

use crate::text::{pad2, push_char, push_pad2};

verus! {

/// Whether the network proxy that blocks sites is switched on.
#[derive(Clone, Copy, Debug, PartialEq, Eq)]
pub enum NetworkProxyStatus {
    On,
    Off,
}

impl NetworkProxyStatus {
    /// The word the proxy script takes for the status.
    pub open spec fn label(self) -> Seq<char> {
        match self {
            NetworkProxyStatus::On => "ON"@,
            NetworkProxyStatus::Off => "OFF"@,
        }
    }

    /// The word the proxy script takes for the status.
    pub fn to_string(&self) -> (s: String)
        ensures
            s@ == self.label(),
    {
        match self {
            NetworkProxyStatus::On => String::from_str("ON"),
            NetworkProxyStatus::Off => String::from_str("OFF"),
        }
    }
}

/// Nanoseconds in a second.
pub const NANOS_PER_SEC: u128 = 1_000_000_000;

/// An elapsed count of seconds as the tray title shows it: `HH:MM:SS`, the
/// hours taking more digits when there are more than 99.
pub open spec fn clock_text(secs: nat) -> Seq<char> {
    pad2(secs / 3600) + seq![':'] + pad2((secs % 3600) / 60) + seq![':'] + pad2(secs % 60)
}

/// An elapsed count of seconds as the tray title shows it.
pub fn format_clock(secs: u64) -> (s: String)
    ensures
        s@ == clock_text(secs as nat),
{
    let mut s = String::new();
    push_pad2(&mut s, secs / 3600);
    push_char(&mut s, ':');
    push_pad2(&mut s, (secs % 3600) / 60);
    push_char(&mut s, ':');
    push_pad2(&mut s, secs % 60);
    assert(s@ =~= clock_text(secs as nat));
    s
}

/// The timer behind the tray title. Times are nanoseconds on a monotonic
/// clock that the caller reads.
#[derive(Clone, Copy, Debug)]
pub struct TimerState {
    /// Whole seconds counted before the current run.
    pub elapsed_before: u64,
    /// When the current run started.
    pub start_time: u128,
    /// Whether the timer runs.
    pub is_running: bool,
}

/// An item of the tray menu.
#[derive(Clone, Copy, Debug, PartialEq, Eq)]
pub enum MenuCommand {
    Start,
    Stop,
    Quit,
    /// Any other menu identifier.
    Other,
}

/// What the caller does after a menu item was handled.
#[derive(Clone, Copy, Debug, PartialEq, Eq)]
pub enum MenuAction {
    /// Wait for the next event.
    Continue,
    /// Kill the proxy, switch it off and leave the event loop.
    Quit,
}

impl MenuCommand {
    /// The command of a menu identifier.
    pub open spec fn spec_from_id(id: Seq<char>) -> MenuCommand {
        if id == "stop"@ {
            MenuCommand::Stop
        } else if id == "start"@ {
            MenuCommand::Start
        } else if id == "quit"@ {
            MenuCommand::Quit
        } else {
            MenuCommand::Other
        }
    }

    /// The command of a menu identifier: `stop`, `start` or `quit`.
    pub fn from_id(id: &str) -> (c: MenuCommand)
        ensures
            c == Self::spec_from_id(id@),
    {
        let id = String::from_str(id);
        if id == String::from_str("stop") {
            MenuCommand::Stop
        } else if id == String::from_str("start") {
            MenuCommand::Start
        } else if id == String::from_str("quit") {
            MenuCommand::Quit
        } else {
            MenuCommand::Other
        }
    }
}

impl TimerState {
    /// Whole seconds of the current run at `now`; a clock reading before the
    /// start counts as none, as `Instant::elapsed` saturates.
    pub open spec fn run_secs(self, now: u128) -> int {
        if now >= self.start_time {
            (now - self.start_time) as int / NANOS_PER_SEC as int
        } else {
            0
        }
    }

    /// The seconds the timer counts at `now`: those before the current run
    /// and the whole seconds of the run.
    pub open spec fn spec_elapsed(self, now: u128) -> int {
        self.elapsed_before + self.run_secs(now)
    }

    /// A running timer started at `now` with nothing counted.
    pub fn new(now: u128) -> (t: TimerState)
        ensures
            t.elapsed_before == 0,
            t.start_time == now,
            t.is_running,
    {
        TimerState { elapsed_before: 0, start_time: now, is_running: true }
    }

    /// Whole seconds of the current run at `now`.
    pub fn run_secs_at(&self, now: u128) -> (s: u64)
        requires
            self.run_secs(now) <= u64::MAX,
        ensures
            s == self.run_secs(now),
    {
        if now >= self.start_time {
            let secs: u128 = (now - self.start_time) / NANOS_PER_SEC;
            secs as u64
        } else {
            0
        }
    }

    /// The seconds the timer counts at `now`.
    pub fn elapsed_at(&self, now: u128) -> (s: u64)
        requires
            self.spec_elapsed(now) <= u64::MAX,
        ensures
            s == self.spec_elapsed(now),
    {
        self.elapsed_before + self.run_secs_at(now)
    }

    /// The tray title at `now`: the counted time while the timer runs,
    /// nothing while it is stopped.
    pub fn title(&self, now: u128) -> (t: Option<String>)
        requires
            self.is_running ==> self.spec_elapsed(now) <= u64::MAX,
        ensures
            t is Some <==> self.is_running,
            t matches Some(s) ==> s@ == clock_text(self.spec_elapsed(now) as nat),
    {
        if !self.is_running {
            return None;
        }
        Some(format_clock(self.elapsed_at(now)))
    }

    /// The timer after the menu item `command` was chosen at `now`.
    pub open spec fn after_command(self, command: MenuCommand, now: u128) -> TimerState {
        match command {
            MenuCommand::Stop => TimerState {
                elapsed_before: self.spec_elapsed(now) as u64,
                start_time: self.start_time,
                is_running: false,
            },
            MenuCommand::Start => TimerState {
                elapsed_before: self.elapsed_before,
                start_time: now,
                is_running: true,
            },
            _ => self,
        }
    }

    /// Handles a menu item chosen at `now`. `Stop` adds the current run's
    /// seconds to the count and stops the timer; `Start` runs the timer from
    /// `now`; `Quit` asks the caller to quit; anything else is ignored.
    pub fn handle(&mut self, command: MenuCommand, now: u128) -> (action: MenuAction)
        requires
            command == MenuCommand::Stop ==> old(self).spec_elapsed(now) <= u64::MAX,
        ensures
            action == (if command == MenuCommand::Quit {
                MenuAction::Quit
            } else {
                MenuAction::Continue
            }),
            *final(self) == old(self).after_command(command, now),
    {
        match command {
            MenuCommand::Stop => {
                self.elapsed_before = self.elapsed_at(now);
                self.is_running = false;
                MenuAction::Continue
            },
            MenuCommand::Start => {
                self.is_running = true;
                self.start_time = now;
                MenuAction::Continue
            },
            MenuCommand::Quit => MenuAction::Quit,
            MenuCommand::Other => MenuAction::Continue,
        }
    }
}

/// Whether pixel (`x`, `y`) of a `width` by `height` image lies in the disk
/// of radius `radius` around (`width / 2`, `height / 2`).
pub open spec fn in_disk(x: int, y: int, width: int, height: int, radius: int) -> bool {
    let dx = x - width / 2;
    let dy = y - height / 2;
    dx * dx + dy * dy <= radius * radius
}

/// Byte `i` of the RGBA image of a white disk on a transparent ground,
/// pixels row by row: `1, 1, 1, 255` inside the disk, `0, 0, 0, 0` outside.
pub open spec fn disk_byte(i: int, width: int, height: int, radius: int) -> u8 {
    let p = i / 4;
    if in_disk(p % width, p / width, width, height, radius) {
        if i % 4 == 3 {
            255
        } else {
            1
        }
    } else {
        0
    }
}

/// The RGBA pixels of the tray icon: a disk of radius `radius` around the
/// centre of a `width` by `height` image.
pub fn circle_rgba(width: u32, height: u32, radius: u32) -> (rgba: Vec<u8>)
    requires
        0 < width <= 4096,
        height <= 4096,
        radius <= 4096,
    ensures
        rgba@.len() == width * height * 4,
        forall|i: int|
            0 <= i < rgba@.len() ==> #[trigger] rgba@[i] == disk_byte(
                i,
                width as int,
                height as int,
                radius as int,
            ),
{
    let ghost (w, h, r) = (width as int, height as int, radius as int);
    assert(width * height <= 4096 * 4096) by (nonlinear_arith)
        requires
            width <= 4096,
            height <= 4096,
    ;
    let count: u32 = width * height;
    let cx: i64 = (width / 2) as i64;
    let cy: i64 = (height / 2) as i64;
    assert((radius as int) * (radius as int) <= 4096 * 4096) by (nonlinear_arith)
        requires
            radius <= 4096,
    ;
    let r2: i64 = (radius as i64) * (radius as i64);
    let mut rgba: Vec<u8> = Vec::new();
    let mut p: u32 = 0;
    while p < count
        invariant
            0 < width <= 4096,
            height <= 4096,
            radius <= 4096,
            count == width * height,
            count <= 4096 * 4096,
            cx == w / 2,
            cy == h / 2,
            r2 == r * r,
            w == width,
            h == height,
            r == radius,
            p <= count,
            rgba@.len() == 4 * p,
            forall|i: int| 0 <= i < 4 * p ==> #[trigger] rgba@[i] == disk_byte(i, w, h, r),
        decreases count - p,
    {
        let x: u32 = p % width;
        let y: u32 = p / width;
        assert(y <= p) by (nonlinear_arith)
            requires
                y == p / width,
                width > 0,
        ;
        assert(x < width);
        assert(y < 16777216);
        assert(0 <= cx <= 2048 && 0 <= cy <= 2048);
        let dx: i64 = (x as i64) - cx;
        let dy: i64 = (y as i64) - cy;
        assert(0 <= dx * dx <= 4096 * 4096) by (nonlinear_arith)
            requires
                -4096 <= dx <= 4096,
        ;
        assert(0 <= dy * dy <= 16777216 * 16777216) by (nonlinear_arith)
            requires
                -16777216 <= dy <= 16777216,
        ;
        let inside = dx * dx + dy * dy <= r2;
        let ghost q = p as int;
        let ghost before = rgba@;
        if inside {
            rgba.push(1);
            rgba.push(1);
            rgba.push(1);
            rgba.push(255);
        } else {
            rgba.push(0);
            rgba.push(0);
            rgba.push(0);
            rgba.push(0);
        }
        assert forall|i: int| 0 <= i < 4 * (q + 1) implies #[trigger] rgba@[i] == disk_byte(i, w, h, r) by {
            if i < 4 * q {
                assert(rgba@[i] == before[i]);
            } else {
                assert(i / 4 == q && i % 4 == i - 4 * q) by (nonlinear_arith)
                    requires
                        4 * q <= i < 4 * q + 4,
                ;
                assert(inside == in_disk(q % w, q / w, w, h, r));
            }
        }
        p = p + 1;
    }
    assert(rgba@.len() == width * height * 4);
    rgba
}

/// Stopping freezes the count: once stopped at `now`, the timer holds the
/// seconds it counted at `now`, and shows nothing until it is started again.
pub proof fn lemma_stop_freezes_count(timer: TimerState, now: u128)
    requires
        timer.spec_elapsed(now) <= u64::MAX,
    ensures
        timer.after_command(MenuCommand::Stop, now).elapsed_before == timer.spec_elapsed(now),
        !timer.after_command(MenuCommand::Stop, now).is_running,
{
}

/// Starting resumes the count where it stood: right after a start the timer
/// counts exactly the seconds it held.
pub proof fn lemma_start_resumes_count(timer: TimerState, now: u128)
    ensures
        timer.after_command(MenuCommand::Start, now).is_running,
        timer.after_command(MenuCommand::Start, now).spec_elapsed(now) == timer.elapsed_before,
{
}

/// A pause is not counted: a running timer stopped at `t1` and started again
/// at `t2` counts at `t3` what it counted at `t1` plus the whole seconds from
/// `t2` to `t3`.
pub proof fn lemma_pause_not_counted(timer: TimerState, t1: u128, t2: u128, t3: u128)
    requires
        timer.is_running,
        timer.spec_elapsed(t1) <= u64::MAX,
    ensures
        ({
            let resumed = timer.after_command(MenuCommand::Stop, t1).after_command(
                MenuCommand::Start,
                t2,
            );
            resumed.spec_elapsed(t3) == timer.spec_elapsed(t1) + (if t3 >= t2 {
                (t3 - t2) as int / NANOS_PER_SEC as int
            } else {
                0
            })
        }),
{
}

/// While the timer runs, its count never goes down as the clock advances.
pub proof fn lemma_count_monotonic(timer: TimerState, t1: u128, t2: u128)
    requires
        t1 <= t2,
    ensures
        timer.spec_elapsed(t1) <= timer.spec_elapsed(t2),
{
    if t1 >= timer.start_time {
        let a = (t1 - timer.start_time) as int;
        let b = (t2 - timer.start_time) as int;
        assert(a / 1_000_000_000 <= b / 1_000_000_000) by (nonlinear_arith)
            requires
                0 <= a <= b,
        ;
    }
}

/// Menu items other than `Stop` and `Start` leave the timer as it was.
pub proof fn lemma_other_commands_inert(timer: TimerState, now: u128)
    ensures
        timer.after_command(MenuCommand::Quit, now) == timer,
        timer.after_command(MenuCommand::Other, now) == timer,
{
}

/// The title's hours, minutes and seconds add up to the count, with minutes
/// and seconds under 60.
pub proof fn lemma_clock_parts(secs: nat)
    ensures
        (secs / 3600) * 3600 + ((secs % 3600) / 60) * 60 + secs % 60 == secs,
        (secs % 3600) / 60 < 60,
        secs % 60 < 60,
{
    assert((secs / 3600) * 3600 + ((secs % 3600) / 60) * 60 + secs % 60 == secs) by (nonlinear_arith);
}

} // verus!
