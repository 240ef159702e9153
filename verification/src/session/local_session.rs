//! A session kept on this machine: a run of focused time with breaks,
//! measured by the monotonic clock and shown in local time.

use std::time::Instant;
use vstd::prelude::*;

use crate::ident::{is_random_uuid, new_random_uuid};
use crate::session::data::{break_sums_in_range, break_total, BreakData, SessionData, SessionEvent};
use crate::session::formatter::SessionFormatter;
use crate::session::{
    all_breaks_closed, breaks_after_start, breaks_after_stop, no_earlier_than_marks, Session,
};
use crate::timestamp::{
    delta_in_range, instant_now, local_now, max_instant, min_instant, nanos_between, TimeDelta,
    Timestamp, MAX_DELTA_NANOS,
};

verus! {

/// A break, as nanoseconds since the session started.
struct BreakRecord {
    start: u128,
    end: Option<u128>,
}

/// A session kept on this machine. The files it is logged to are kept by
/// the program that runs it; this holds what the session decides.
pub struct LocalSession {
    id: u128,
    start_instant: Instant,
    start_wall: Timestamp,
    breaks: Vec<BreakRecord>,
    is_running: bool,
    event_sink: Vec<SessionEvent>,
    event_sink_max_size: usize,
}

/// Only the last break may be open, and it is open exactly when the session
/// is not `running`.
pub open spec fn breaks_shaped(marks: Seq<(u128, Option<u128>)>, running: bool) -> bool {
    &&& forall|i: int| 0 <= i < marks.len() - 1 ==> (#[trigger] marks[i]).1 is Some
    &&& running <==> (marks.len() == 0 || marks.last().1 is Some)
}

/// The span that chrono's `TimeDelta::from_std` makes of `nanos` (a
/// `std::time::Duration`), with `unwrap_or_default`: zero where it is too long.
pub open spec fn span_of(nanos: u128) -> int {
    if nanos <= MAX_DELTA_NANOS {
        nanos as int
    } else {
        0
    }
}

impl LocalSession {
    /// The session's identifier.
    pub closed spec fn id(&self) -> u128 {
        self.id
    }

    /// When the session started, on the wall clock.
    pub closed spec fn start_wall(&self) -> Timestamp {
        self.start_wall
    }

    /// Whether the session runs (is not on a break).
    pub closed spec fn running(&self) -> bool {
        self.is_running
    }

    /// The breaks as (start, end) in nanoseconds since the session started.
    pub closed spec fn break_marks(&self) -> Seq<(u128, Option<u128>)> {
        self.breaks@.map_values(|b: BreakRecord| (b.start, b.end))
    }

    /// The events that wait to be logged.
    pub closed spec fn pending(&self) -> Seq<SessionEvent> {
        self.event_sink@
    }

    /// How many events are gathered before they are logged.
    pub closed spec fn sink_capacity(&self) -> nat {
        self.event_sink_max_size as nat
    }

    /// The monotonic clock reading the session started at.
    pub closed spec fn start_instant(&self) -> Instant {
        self.start_instant
    }

    /// The session's own invariant: its start can be represented, each
    /// pending event can be logged, and only the last break may be open,
    /// which it is exactly while the session is on a break.
    pub closed spec fn wf(&self) -> bool {
        &&& self.start_wall.wf()
        &&& self.pending_loggable()
        &&& breaks_shaped(self.break_marks(), self.is_running)
    }

    /// Every pending event can be logged.
    pub closed spec fn pending_loggable(&self) -> bool {
        forall|i: int| 0 <= i < self.event_sink@.len() ==> (#[trigger] self.event_sink@[i]).wf()
    }

    /// The wall-clock instant (nanoseconds since the epoch) of a reading
    /// `offset` nanoseconds after the session started.
    pub open spec fn wall_instant(&self, offset: u128) -> int {
        self.start_wall().instant() + span_of(offset)
    }

    /// Whether that wall-clock instant can be represented.
    pub open spec fn wall_in_range(&self, offset: u128) -> bool {
        min_instant() <= self.wall_instant(offset) <= max_instant()
    }

    /// Every time a snapshot taken `now` holds can be represented.
    pub open spec fn snapshot_in_range(&self, now: u128) -> bool {
        &&& self.wall_in_range(now)
        &&& forall|i: int|
            0 <= i < self.break_marks().len() ==> {
                &&& self.wall_in_range((#[trigger] self.break_marks()[i]).0)
                &&& self.break_marks()[i].1 matches Some(e) ==> self.wall_in_range(e)
            }
    }

    /// `d` is the snapshot of this session taken `now` nanoseconds after it
    /// started; local offsets are the machine's.
    pub open spec fn is_snapshot(&self, now: u128, d: SessionData) -> bool {
        &&& d.timestamps_wf()
        &&& d.id == self.id()
        &&& d.start == self.start_wall()
        &&& d.end matches Some(e) && e.instant() == self.wall_instant(now)
        &&& d.breaks@.len() == self.break_marks().len()
        &&& forall|i: int|
            0 <= i < d.breaks@.len() ==> {
                &&& (#[trigger] d.breaks@[i]).start.instant() == self.wall_instant(
                    self.break_marks()[i].0,
                )
                &&& (d.breaks@[i].end is Some <==> self.break_marks()[i].1 is Some)
                &&& d.breaks@[i].end matches Some(e) ==> e.instant() == self.wall_instant(
                    self.break_marks()[i].1.unwrap(),
                )
            }
    }

    /// `self` is `before` after a start at `now`: a break that went on ends
    /// at `now` and the session runs; a running session is left as it was.
    pub open spec fn started_from(&self, before: LocalSession, now: u128) -> bool {
        &&& self.wf()
        &&& self.running()
        &&& self.id() == before.id()
        &&& self.start_instant() == before.start_instant()
        &&& self.start_wall() == before.start_wall()
        &&& self.pending() == before.pending()
        &&& self.sink_capacity() == before.sink_capacity()
        &&& if before.running() || before.break_marks().len() == 0 {
            self.break_marks() == before.break_marks()
        } else {
            self.break_marks() == before.break_marks().update(
                before.break_marks().len() - 1,
                (before.break_marks().last().0, Some(now)),
            )
        }
    }

    /// `self` is `before` after a stop at `now`: a running session goes on a
    /// break that starts at `now`; a session on a break is left as it was.
    pub open spec fn stopped_from(&self, before: LocalSession, now: u128) -> bool {
        &&& self.wf()
        &&& !self.running()
        &&& self.id() == before.id()
        &&& self.start_instant() == before.start_instant()
        &&& self.start_wall() == before.start_wall()
        &&& self.pending() == before.pending()
        &&& self.sink_capacity() == before.sink_capacity()
        &&& if before.running() {
            self.break_marks() == before.break_marks().push((now, None))
        } else {
            self.break_marks() == before.break_marks()
        }
    }

    /// A running session with no breaks and nothing pending, identified by
    /// `id`, that started at the monotonic reading `start_instant` and the
    /// wall-clock reading `start_wall`.
    pub fn from_parts(id: u128, start_instant: Instant, start_wall: Timestamp) -> (s: LocalSession)
        requires
            start_wall.wf(),
        ensures
            s.wf(),
            s.running(),
            s.id() == id,
            s.start_instant() == start_instant,
            s.start_wall() == start_wall,
            s.break_marks() == Seq::<(u128, Option<u128>)>::empty(),
            s.pending() == Seq::<SessionEvent>::empty(),
            s.sink_capacity() == 1,
    {
        let s = LocalSession {
            id,
            start_instant,
            start_wall,
            breaks: Vec::new(),
            is_running: true,
            event_sink: Vec::new(),
            event_sink_max_size: 1,
        };
        assert(s.break_marks() =~= Seq::<(u128, Option<u128>)>::empty());
        s
    }

    /// A new running session with no breaks, a fresh random identifier, and
    /// its start read from both clocks.
    pub fn new() -> (s: LocalSession)
        ensures
            s.wf(),
            s.running(),
            s.break_marks() == Seq::<(u128, Option<u128>)>::empty(),
            s.pending() == Seq::<SessionEvent>::empty(),
            s.sink_capacity() == 1,
            is_random_uuid(s.id()),
    {
        let id = new_random_uuid();
        let start_instant = instant_now();
        let start_wall = local_now();
        LocalSession::from_parts(id, start_instant, start_wall)
    }

    /// Whether the session's invariant holds; every session made by `new`
    /// and changed by its methods keeps it.
    pub fn is_well_formed(&self) -> (r: bool)
        ensures
            r == self.wf(),
    {
        if !self.start_wall.is_valid() {
            return false;
        }
        let n = self.breaks.len();
        let mut j: usize = 0;
        while j + 1 < n
            invariant
                n == self.breaks@.len(),
                0 <= j <= n,
                j + 1 <= n || n == 0,
                forall|k: int| 0 <= k < j ==> (#[trigger] self.break_marks()[k]).1 is Some,
            decreases n - j,
        {
            assert(self.break_marks()[j as int] == (self.breaks@[j as int].start, self.breaks@[j as int].end));
            if self.breaks[j].end.is_none() {
                return false;
            }
            j = j + 1;
        }
        let last_closed = n == 0 || self.breaks[n - 1].end.is_some();
        proof {
            if n > 0 {
                assert(self.break_marks().last() == (self.breaks@[n - 1].start, self.breaks@[n - 1].end));
            }
        }
        if self.is_running != last_closed {
            return false;
        }
        let mut i: usize = 0;
        while i < self.event_sink.len()
            invariant
                0 <= i <= self.event_sink@.len(),
                forall|k: int| 0 <= k < i ==> (#[trigger] self.event_sink@[k]).wf(),
            decreases self.event_sink@.len() - i,
        {
            if !self.event_sink[i].is_valid() {
                return false;
            }
            i = i + 1;
        }
        true
    }

    /// The largest clock reading the breaks record.
    fn max_recorded(&self) -> (r: u128)
        ensures
            r == max_mark(self.break_marks()),
    {
        let ghost marks = self.break_marks();
        let mut r: u128 = 0;
        let mut i: usize = 0;
        assert(marks.take(0) =~= Seq::<(u128, Option<u128>)>::empty());
        while i < self.breaks.len()
            invariant
                marks == self.break_marks(),
                marks.len() == self.breaks@.len(),
                0 <= i <= marks.len(),
                r == max_mark(marks.take(i as int)),
            decreases marks.len() - i,
        {
            assert(marks.take(i as int + 1).drop_last() =~= marks.take(i as int));
            assert(marks.take(i as int + 1).last() == marks[i as int]);
            assert(marks[i as int] == (self.breaks@[i as int].start, self.breaks@[i as int].end));
            let b = &self.breaks[i];
            if b.start > r {
                r = b.start;
            }
            match b.end {
                Some(e) => {
                    if e > r {
                        r = e;
                    }
                },
                None => {},
            }
            i = i + 1;
        }
        assert(marks.take(marks.len() as int) =~= marks);
        r
    }

    /// A reading of the monotonic clock for a new mark, in nanoseconds since
    /// the session started. std's `Instant` never reads earlier than a
    /// reading taken before it, so a fresh reading is never earlier than one
    /// the breaks record; should the platform's clock step back, the latest
    /// recorded reading stands in for it.
    pub fn mark_reading(&self) -> (t: u128)
        ensures
            no_earlier_than_marks(self.break_marks(), t as int),
            t >= max_mark(self.break_marks()),
    {
        let t = self.elapsed_nanos();
        let latest = self.max_recorded();
        proof {
            lemma_max_mark(self.break_marks());
        }
        if t < latest {
            latest
        } else {
            t
        }
    }

    /// Nanoseconds since the session started, by the monotonic clock.
    pub fn elapsed_nanos(&self) -> u128 {
        let now = instant_now();
        nanos_between(&now, &self.start_instant)
    }

    /// Ends the current break at `now` (nanoseconds since the session
    /// started) and runs the session; does nothing while it runs.
    pub fn start_at(&mut self, now: u128)
        requires
            old(self).wf(),
        ensures
            final(self).started_from(*old(self), now),
    {
        if self.is_running {
            return;
        }
        let n = self.breaks.len();
        if n > 0 {
            let start = self.breaks[n - 1].start;
            self.breaks.set(n - 1, BreakRecord { start, end: Some(now) });
            assert(self.break_marks() =~= old(self).break_marks().update(
                old(self).break_marks().len() - 1,
                (old(self).break_marks().last().0, Some(now)),
            ));
        }
        self.is_running = true;
        assert(breaks_shaped(self.break_marks(), self.is_running));
    }

    /// Starts a break at `now` (nanoseconds since the session started);
    /// does nothing while on a break.
    pub fn stop_at(&mut self, now: u128)
        requires
            old(self).wf(),
        ensures
            final(self).stopped_from(*old(self), now),
    {
        if !self.is_running {
            return;
        }
        self.breaks.push(BreakRecord { start: now, end: None });
        assert(self.break_marks() =~= old(self).break_marks().push((now, None)));
        self.is_running = false;
        assert(breaks_shaped(self.break_marks(), self.is_running));
    }

    /// The wall-clock time of a reading `offset` nanoseconds after the
    /// session started: the start plus that span, in the machine's time zone.
    fn to_wall(&self, offset: u128) -> (t: Timestamp)
        requires
            self.wf(),
            self.wall_in_range(offset),
        ensures
            t.wf(),
            t.instant() == self.wall_instant(offset),
    {
        let nanos: i128 = if offset <= MAX_DELTA_NANOS as u128 {
            offset as i128
        } else {
            0
        };
        self.start_wall.plus_local(TimeDelta { nanos })
    }

    /// Whether the wall-clock instant of a reading can be represented.
    fn wall_fits(&self, offset: u128) -> (r: bool)
        requires
            self.wf(),
        ensures
            r == self.wall_in_range(offset),
    {
        let nanos: i128 = if offset <= MAX_DELTA_NANOS as u128 {
            offset as i128
        } else {
            0
        };
        let w: i128 = (self.start_wall.secs as i128) * 1_000_000_000 + (self.start_wall.nanos as i128)
            + nanos;
        let lo: i128 = (crate::timestamp::MIN_TIMESTAMP as i128) * 1_000_000_000;
        let hi: i128 = (crate::timestamp::MAX_TIMESTAMP as i128) * 1_000_000_000 + 999_999_999;
        lo <= w && w <= hi
    }

    /// The snapshot of the session taken `now` nanoseconds after it started,
    /// or `None` where a time in it cannot be represented (where chrono
    /// panics).
    pub fn collect_at(&self, now: u128) -> (d: Option<SessionData>)
        requires
            self.wf(),
        ensures
            d is Some <==> self.snapshot_in_range(now),
            d matches Some(x) ==> self.is_snapshot(now, x),
    {
        if !self.wall_fits(now) {
            return None;
        }
        let end = self.to_wall(now);
        let mut breaks: Vec<BreakData> = Vec::new();
        let mut i: usize = 0;
        while i < self.breaks.len()
            invariant
                self.wf(),
                self.wall_in_range(now),
                end.wf(),
                end.instant() == self.wall_instant(now),
                0 <= i <= self.breaks@.len(),
                breaks@.len() == i,
                forall|k: int|
                    0 <= k < i ==> {
                        &&& self.wall_in_range((#[trigger] self.break_marks()[k]).0)
                        &&& self.break_marks()[k].1 matches Some(e) ==> self.wall_in_range(e)
                    },
                forall|k: int|
                    0 <= k < i ==> {
                        &&& (#[trigger] breaks@[k]).wf()
                        &&& breaks@[k].start.instant() == self.wall_instant(self.break_marks()[k].0)
                        &&& (breaks@[k].end is Some <==> self.break_marks()[k].1 is Some)
                        &&& breaks@[k].end matches Some(e) ==> e.instant() == self.wall_instant(
                            self.break_marks()[k].1.unwrap(),
                        )
                    },
            decreases self.breaks@.len() - i,
        {
            let b = &self.breaks[i];
            assert(self.break_marks()[i as int] == (b.start, b.end));
            if !self.wall_fits(b.start) {
                return None;
            }
            let start = self.to_wall(b.start);
            let end_wall = match b.end {
                Some(e) => {
                    if !self.wall_fits(e) {
                        return None;
                    }
                    Some(self.to_wall(e))
                },
                None => None,
            };
            breaks.push(BreakData { start, end: end_wall });
            i = i + 1;
        }
        let d = SessionData { id: self.id, start: self.start_wall, end: Some(end), breaks };
        assert(self.break_marks().len() == self.breaks@.len());
        Some(d)
    }

    /// The event log's lines for the pending events, formatted by `formatter`.
    fn format_pending<F: SessionFormatter>(&self, formatter: &F) -> (lines: Vec<String>)
        requires
            self.pending_loggable(),
            formatter.formats_events() || self.pending().len() == 0,
        ensures
            lines@.len() == self.pending().len(),
            forall|i: int|
                0 <= i < lines@.len() ==> (#[trigger] lines@[i])@ == formatter.spec_format_event(
                    self.pending()[i],
                ),
    {
        let mut lines: Vec<String> = Vec::new();
        let mut i: usize = 0;
        while i < self.event_sink.len()
            invariant
                self.pending_loggable(),
                formatter.formats_events() || self.pending().len() == 0,
                0 <= i <= self.event_sink@.len(),
                lines@.len() == i,
                forall|k: int|
                    0 <= k < i ==> (#[trigger] lines@[k])@ == formatter.spec_format_event(
                        self.pending()[k],
                    ),
            decreases self.event_sink@.len() - i,
        {
            assert(self.event_sink@[i as int].wf());
            let line = formatter.format_event(&self.event_sink[i]);
            lines.push(line);
            i = i + 1;
        }
        lines
    }

    /// `after` is `before` stopped at `stopped`, and `content` is the
    /// snapshot of `after` taken at `now` formatted by `formatter`, or `None`
    /// where that snapshot cannot be taken or measured.
    pub open spec fn saved<F: SessionFormatter>(
        before: LocalSession,
        after: LocalSession,
        stopped: u128,
        now: u128,
        content: Option<String>,
        formatter: F,
    ) -> bool {
        &&& after.stopped_from(before, stopped)
        &&& content matches Some(text) ==> exists|d: SessionData|
            after.is_snapshot(now, d) && d.wf() && text@ == formatter.spec_format(d)
        &&& content is None ==> !after.snapshot_in_range(now) || forall|d: SessionData|
            after.is_snapshot(now, d) ==> !d.durations_in_range()
    }

    /// Stops the session at `stopped` and formats its snapshot taken at
    /// `now` (both nanoseconds since the session started). `None` where the
    /// snapshot cannot be taken or measured (where chrono panics).
    pub fn save_at<F: SessionFormatter>(&mut self, stopped: u128, now: u128, formatter: &F) -> (content: Option<String>)
        requires
            old(self).wf(),
        ensures
            Self::saved(*old(self), *final(self), stopped, now, content, *formatter),
    {
        self.stop_at(stopped);
        match self.collect_at(now) {
            Some(d) => {
                if d.durations_fit() {
                    let text = formatter.format(&d);
                    assert(self.is_snapshot(now, d) && d.wf());
                    Some(text)
                } else {
                    proof {
                        assert forall|x: SessionData| self.is_snapshot(now, x) implies !x.durations_in_range() by {
                            same_instants_same_durations(d, x);
                        }
                    }
                    None
                }
            },
            None => None,
        }
    }
}

/// The largest clock reading the breaks record; zero when there is none.
pub open spec fn max_mark(marks: Seq<(u128, Option<u128>)>) -> int
    decreases marks.len(),
{
    if marks.len() == 0 {
        0
    } else {
        let m = max_mark(marks.drop_last());
        let l = marks.last();
        let a = if l.0 > m {
            l.0 as int
        } else {
            m
        };
        match l.1 {
            Some(e) => if e > a {
                e as int
            } else {
                a
            },
            None => a,
        }
    }
}

/// The largest recorded reading is a reading, and none is later.
pub proof fn lemma_max_mark(marks: Seq<(u128, Option<u128>)>)
    ensures
        0 <= max_mark(marks) <= u128::MAX,
        no_earlier_than_marks(marks, max_mark(marks)),
    decreases marks.len(),
{
    if marks.len() > 0 {
        let rest = marks.drop_last();
        lemma_max_mark(rest);
        assert forall|i: int| 0 <= i < marks.len() implies (#[trigger] marks[i]).0 <= max_mark(marks)
            && (marks[i].1 is Some ==> marks[i].1.unwrap() <= max_mark(marks)) by {
            if i < marks.len() - 1 {
                assert(marks[i] == rest[i]);
            } else {
                assert(marks[i] == marks.last());
            }
        }
    }
}

/// Ordered breaks have their latest reading as their largest.
pub proof fn lemma_ordered_latest_is_max(marks: Seq<(u128, Option<u128>)>)
    requires
        marks_ordered(marks),
    ensures
        latest_mark(marks) == max_mark(marks),
{
    lemma_max_mark(marks);
    lemma_marks_below_latest(marks);
    lemma_max_mark_attained(marks);
}

/// The largest recorded reading is one of the readings (or zero).
proof fn lemma_max_mark_attained(marks: Seq<(u128, Option<u128>)>)
    ensures
        max_mark(marks) == 0 || exists|i: int|
            0 <= i < marks.len() && (max_mark(marks) == (#[trigger] marks[i]).0 || (marks[i].1 is Some
                && max_mark(marks) == marks[i].1.unwrap())),
    decreases marks.len(),
{
    if marks.len() > 0 {
        let rest = marks.drop_last();
        lemma_max_mark_attained(rest);
        let n = marks.len() - 1;
        assert(marks.last() == marks[n]);
        if max_mark(marks) != 0 && max_mark(marks) == max_mark(rest) {
            let i = choose|i: int|
                0 <= i < rest.len() && (max_mark(rest) == (#[trigger] rest[i]).0 || (rest[i].1 is Some
                    && max_mark(rest) == rest[i].1.unwrap()));
            assert(marks[i] == rest[i]);
        }
    }
}

/// The last clock reading the breaks record: the end of the last break, or
/// its start while it goes on; zero when there is none.
pub open spec fn latest_mark(marks: Seq<(u128, Option<u128>)>) -> int {
    if marks.len() == 0 {
        0
    } else {
        match marks.last().1 {
            Some(e) => e as int,
            None => marks.last().0 as int,
        }
    }
}

/// The breaks follow one another: each ends no earlier than it started, and
/// every break before another has ended by the time the other starts.
pub open spec fn marks_ordered(marks: Seq<(u128, Option<u128>)>) -> bool {
    &&& forall|i: int|
        0 <= i < marks.len() ==> ((#[trigger] marks[i]).1 is Some ==> marks[i].0 <= marks[i].1.unwrap())
    &&& forall|i: int, j: int|
        #![trigger marks[i], marks[j]]
        0 <= i < j < marks.len() ==> ended_by(marks[i], marks[j].0)
}

/// The break `m` has ended, at reading `t` or before.
pub open spec fn ended_by(m: (u128, Option<u128>), t: u128) -> bool {
    match m.1 {
        Some(e) => e <= t,
        None => false,
    }
}

/// The length of a recorded break once it has ended.
pub open spec fn mark_duration(m: (u128, Option<u128>)) -> Option<int> {
    match m.1 {
        Some(e) => Some(e - m.0),
        None => None,
    }
}

/// The summed length of the recorded breaks that have ended.
pub open spec fn mark_total(marks: Seq<(u128, Option<u128>)>) -> int
    decreases marks.len(),
{
    if marks.len() == 0 {
        0
    } else {
        mark_total(marks.drop_last()) + match mark_duration(marks.last()) {
            Some(d) => d,
            None => 0,
        }
    }
}

/// In ordered breaks, a break before another has ended by the time the
/// other starts.
proof fn lemma_ordered_pair(marks: Seq<(u128, Option<u128>)>, i: int, j: int)
    requires
        marks_ordered(marks),
        0 <= i < j < marks.len(),
    ensures
        marks[i].1 is Some,
        marks[i].1.unwrap() <= marks[j].0,
{
    assert(ended_by(marks[i], marks[j].0));
}

/// Dropping the last break keeps breaks in order.
proof fn lemma_ordered_drop_last(marks: Seq<(u128, Option<u128>)>)
    requires
        marks_ordered(marks),
        marks.len() > 0,
    ensures
        marks_ordered(marks.drop_last()),
{
    let rest = marks.drop_last();
    assert forall|i: int| 0 <= i < rest.len() && (#[trigger] rest[i]).1 is Some implies rest[i].0
        <= rest[i].1.unwrap() by {
        assert(rest[i] == marks[i]);
    }
    assert forall|i: int, j: int|
        #![trigger rest[i], rest[j]]
        0 <= i < j < rest.len() implies ended_by(rest[i], rest[j].0) by {
        assert(rest[i] == marks[i] && rest[j] == marks[j]);
    }
}

/// In ordered breaks, every reading is at most the latest one.
pub proof fn lemma_marks_below_latest(marks: Seq<(u128, Option<u128>)>)
    requires
        marks_ordered(marks),
    ensures
        forall|i: int|
            0 <= i < marks.len() ==> (#[trigger] marks[i]).0 <= latest_mark(marks) && (marks[i].1 matches Some(e)
                ==> e <= latest_mark(marks)),
{
    let n = marks.len();
    assert forall|i: int| 0 <= i < n implies (#[trigger] marks[i]).0 <= latest_mark(marks) && (
    marks[i].1 matches Some(e) ==> e <= latest_mark(marks)) by {
        if i < n - 1 {
            lemma_ordered_pair(marks, i, n - 1);
            assert(marks[n - 1] == marks.last());
        } else {
            assert(marks[i] == marks.last());
        }
    }
}

/// Ordered breaks last, in sum, no less than nothing and no longer than up
/// to the latest reading.
pub proof fn lemma_mark_total_bounds(marks: Seq<(u128, Option<u128>)>)
    requires
        marks_ordered(marks),
    ensures
        0 <= mark_total(marks) <= latest_mark(marks),
    decreases marks.len(),
{
    if marks.len() > 0 {
        let rest = marks.drop_last();
        lemma_ordered_drop_last(marks);
        lemma_mark_total_bounds(rest);
        let n = marks.len();
        assert(marks.last() == marks[n - 1]);
        assert(marks[n - 1].1 matches Some(e) ==> marks[n - 1].0 <= e);
        if n > 1 {
            assert(rest.last() == marks[n - 2]);
            assert(marks[n - 2].1 is Some && marks[n - 2].1.unwrap() <= marks[n - 1].0);
        }
    }
}

/// Breaks recorded from readings that never go back stay in order: a stop
/// at a reading no earlier than the latest one keeps the breaks ordered.
pub proof fn lemma_stop_keeps_order(s0: LocalSession, s1: LocalSession, t: u128)
    requires
        s0.wf(),
        s1.stopped_from(s0, t),
        marks_ordered(s0.break_marks()),
        latest_mark(s0.break_marks()) <= t,
    ensures
        marks_ordered(s1.break_marks()),
        latest_mark(s1.break_marks()) <= t,
{
    lemma_breaks_shape(&s0);
    lemma_marks_below_latest(s0.break_marks());
    let m0 = s0.break_marks();
    let m1 = s1.break_marks();
    if s0.running() {
        assert forall|i: int, j: int|
            #![trigger m1[i], m1[j]]
            0 <= i < j < m1.len() implies ended_by(m1[i], m1[j].0) by {
            assert(m1[i] == m0[i]);
            if j == m0.len() {
                assert(m1[j] == (t, None::<u128>));
                assert(m0[i].1 is Some);
            } else {
                assert(m1[j] == m0[j]);
            }
        }
        assert forall|i: int| 0 <= i < m1.len() && (#[trigger] m1[i]).1 is Some implies m1[i].0 <= m1[i].1.unwrap() by {
            if i < m0.len() {
                assert(m1[i] == m0[i]);
            }
        }
    }
}

/// A start at a reading no earlier than the latest one keeps the breaks
/// ordered.
pub proof fn lemma_start_keeps_order(s0: LocalSession, s1: LocalSession, t: u128)
    requires
        s0.wf(),
        s1.started_from(s0, t),
        marks_ordered(s0.break_marks()),
        latest_mark(s0.break_marks()) <= t,
    ensures
        marks_ordered(s1.break_marks()),
        latest_mark(s1.break_marks()) <= t,
{
    lemma_breaks_shape(&s0);
    lemma_marks_below_latest(s0.break_marks());
    let m0 = s0.break_marks();
    let m1 = s1.break_marks();
    if !s0.running() && m0.len() > 0 {
        let n = m0.len();
        assert(m0.last() == m0[n - 1]);
        assert forall|i: int| 0 <= i < m1.len() && (#[trigger] m1[i]).1 is Some implies m1[i].0 <= m1[i].1.unwrap() by {
            if i < n - 1 {
                assert(m1[i] == m0[i]);
            }
        }
        assert forall|i: int, j: int|
            #![trigger m1[i], m1[j]]
            0 <= i < j < m1.len() implies ended_by(m1[i], m1[j].0) by {
            assert(m1[i] == m0[i]);
            assert(m1[j].0 == m0[j].0);
        }
    }
}

/// Two break lists whose breaks last as long have the same total.
proof fn lemma_totals_agree(bs: Seq<BreakData>, ms: Seq<(u128, Option<u128>)>)
    requires
        bs.len() == ms.len(),
        forall|i: int| 0 <= i < bs.len() ==> (#[trigger] bs[i]).spec_duration() == mark_duration(ms[i]),
    ensures
        break_total(bs) == mark_total(ms),
    decreases bs.len(),
{
    if bs.len() > 0 {
        lemma_totals_agree(bs.drop_last(), ms.drop_last());
        assert(bs.last() == bs[bs.len() - 1]);
    }
}

/// In a snapshot of breaks recorded in order, taken no earlier than the
/// latest reading (and within chrono's span range), the breaks last no
/// less than nothing and no longer than the session, so the active time is
/// never negative.
pub proof fn lemma_ordered_snapshot(s: LocalSession, now: u128, d: SessionData)
    requires
        s.is_snapshot(now, d),
        marks_ordered(s.break_marks()),
        latest_mark(s.break_marks()) <= now,
        now <= MAX_DELTA_NANOS,
    ensures
        d.spec_total() == Some(now as int),
        0 <= break_total(d.breaks@) <= now,
        d.spec_active() matches Some(a) && 0 <= a <= now,
{
    let m = s.break_marks();
    lemma_marks_below_latest(m);
    assert forall|i: int| 0 <= i < d.breaks@.len() implies (#[trigger] d.breaks@[i]).spec_duration()
        == mark_duration(m[i]) by {
        lemma_snapshot_durations(s, now, d, i);
    }
    if d.breaks@.len() == 0 {
        lemma_snapshot_durations_total(s, now, d);
    } else {
        lemma_snapshot_durations(s, now, d, 0);
    }
    lemma_totals_agree(d.breaks@, m);
    lemma_mark_total_bounds(m);
}

/// A snapshot lasts from the session's start to the moment it was taken.
proof fn lemma_snapshot_durations_total(s: LocalSession, now: u128, d: SessionData)
    requires
        s.is_snapshot(now, d),
    ensures
        d.spec_total() == Some(span_of(now)),
{
}

/// Readings no later than chrono's longest span map to wall-clock instants
/// in the same order.
pub proof fn lemma_wall_monotonic(s: LocalSession, i1: u128, i2: u128)
    requires
        i1 <= i2 <= MAX_DELTA_NANOS,
    ensures
        s.wall_instant(i1) <= s.wall_instant(i2),
{
}

/// Two snapshots of a session that was not changed in between agree on its
/// identifier, start and breaks; the one taken at the later reading (within
/// chrono's span range) ends no earlier.
pub proof fn lemma_snapshots_agree(
    s: LocalSession,
    n1: u128,
    d1: SessionData,
    n2: u128,
    d2: SessionData,
)
    requires
        s.is_snapshot(n1, d1),
        s.is_snapshot(n2, d2),
    ensures
        d1.id == d2.id,
        d1.start == d2.start,
        d1.breaks@.len() == d2.breaks@.len(),
        forall|i: int|
            0 <= i < d1.breaks@.len() ==> (#[trigger] d1.breaks@[i]).start.instant()
                == d2.breaks@[i].start.instant() && d1.breaks@[i].spec_duration()
                == d2.breaks@[i].spec_duration(),
        n1 <= n2 <= MAX_DELTA_NANOS ==> d1.end.unwrap().instant() <= d2.end.unwrap().instant(),
{
    assert forall|i: int| 0 <= i < d1.breaks@.len() implies (#[trigger] d1.breaks@[i]).start.instant()
        == d2.breaks@[i].start.instant() && d1.breaks@[i].spec_duration()
        == d2.breaks@[i].spec_duration() by {
        lemma_snapshot_durations(s, n1, d1, i);
        lemma_snapshot_durations(s, n2, d2, i);
    }
}

/// A snapshot of a session with ordered breaks, taken at a reading `now` no
/// earlier than any recorded reading (as `collect` takes it) and within
/// chrono's span range, covers its breaks: each ended break lasts no less
/// than nothing, the breaks together last no longer than the session, and
/// the active time is never negative.
pub proof fn lemma_collected_snapshot_bounds(s: LocalSession, now: u128, d: SessionData)
    requires
        marks_ordered(s.break_marks()),
        no_earlier_than_marks(s.break_marks(), now as int),
        s.is_snapshot(now, d),
        now <= MAX_DELTA_NANOS,
    ensures
        forall|i: int|
            0 <= i < d.breaks@.len() ==> ((#[trigger] d.breaks@[i]).spec_duration() matches Some(x)
                ==> x >= 0),
        d.spec_total() == Some(now as int),
        0 <= break_total(d.breaks@) <= now,
        d.spec_active() matches Some(a) && 0 <= a <= now,
{
    let m = s.break_marks();
    lemma_marks_below_latest(m);
    if m.len() > 0 {
        assert(m.last() == m[m.len() - 1]);
    }
    lemma_ordered_snapshot(s, now, d);
    assert forall|i: int| 0 <= i < d.breaks@.len() implies ((#[trigger] d.breaks@[i]).spec_duration()
        matches Some(x) ==> x >= 0) by {
        lemma_snapshot_durations(s, now, d, i);
    }
}

/// The report a save makes ends no earlier than the break the save opened:
/// the snapshot is taken at a reading no earlier than the stop's.
pub proof fn lemma_saved_after_stop<F: SessionFormatter>(
    before: LocalSession,
    after: LocalSession,
    stopped: u128,
    now: u128,
    content: Option<String>,
    formatter: F,
    d: SessionData,
)
    requires
        LocalSession::saved(before, after, stopped, now, content, formatter),
        stopped <= now <= MAX_DELTA_NANOS,
        after.is_snapshot(now, d),
    ensures
        d.spec_total() == Some(now as int),
        before.running() ==> d.breaks@.last().start.instant() <= d.end.unwrap().instant(),
{
    lemma_snapshot_durations_total(after, now, d);
    if before.running() {
        let n = d.breaks@.len() - 1;
        assert(after.break_marks()[n] == (stopped, None::<u128>));
        assert(d.breaks@.last() == d.breaks@[n]);
    }
}

/// In a session, every break has ended while it runs; while it is on a
/// break, only the last break goes on.
pub proof fn lemma_breaks_shape(s: &LocalSession)
    requires
        s.wf(),
    ensures
        s.running() ==> all_breaks_closed(s.break_marks()),
        !s.running() ==> s.break_marks().len() > 0 && s.break_marks().last().1 is None
            && forall|i: int| 0 <= i < s.break_marks().len() - 1 ==> (#[trigger] s.break_marks()[i]).1 is Some,
{
    let m = s.break_marks();
    if s.running() && m.len() > 0 {
        assert forall|i: int| 0 <= i < m.len() implies (#[trigger] m[i]).1 is Some by {
            if i < m.len() - 1 {
                assert(m[i].1 is Some);
            } else {
                assert(m[i] == m.last());
            }
        }
    }
}

/// A pause is recorded as one break: a running session stopped at `t1`
/// and started again at `t2` gains the break from `t1` to `t2`.
pub proof fn lemma_pause_recorded(s0: LocalSession, s1: LocalSession, s2: LocalSession, t1: u128, t2: u128)
    requires
        s0.running(),
        s1.stopped_from(s0, t1),
        s2.started_from(s1, t2),
    ensures
        s2.running(),
        s2.break_marks() == s0.break_marks().push((t1, Some(t2))),
{
    assert(s2.break_marks() =~= s0.break_marks().push((t1, Some(t2))));
}

/// Stopping a stopped session, or starting a running one, changes nothing
/// of what it records.
pub proof fn lemma_repeat_is_inert(s0: LocalSession, s1: LocalSession, t: u128)
    ensures
        !s0.running() && s1.stopped_from(s0, t) ==> s1.break_marks() == s0.break_marks()
            && s1.running() == s0.running(),
        s0.running() && s1.started_from(s0, t) ==> s1.break_marks() == s0.break_marks()
            && s1.running() == s0.running(),
{
}

/// In a snapshot, a break that has ended lasts from its start mark to its
/// end mark (each as chrono converts a clock span), and the session lasts
/// from its start to the moment the snapshot was taken.
pub proof fn lemma_snapshot_durations(s: LocalSession, now: u128, d: SessionData, i: int)
    requires
        s.is_snapshot(now, d),
        0 <= i < d.breaks@.len(),
    ensures
        d.spec_total() == Some(span_of(now)),
        s.break_marks()[i].1 matches Some(e) ==> d.breaks@[i].spec_duration() == Some(
            span_of(e) - span_of(s.break_marks()[i].0),
        ),
        s.break_marks()[i].1 is None ==> d.breaks@[i].spec_duration() is None,
{
    assert(d.breaks@[i].start.instant() == s.wall_instant(s.break_marks()[i].0));
}

/// Two snapshots with the same instants have the same durations.
proof fn same_instants_same_durations(a: SessionData, b: SessionData)
    requires
        a.end is Some,
        b.end is Some,
        a.start.instant() == b.start.instant(),
        a.end.unwrap().instant() == b.end.unwrap().instant(),
        a.breaks@.len() == b.breaks@.len(),
        forall|i: int| 0 <= i < a.breaks@.len() ==> (#[trigger] a.breaks@[i]).spec_duration() == b.breaks@[i].spec_duration(),
    ensures
        a.durations_in_range() == b.durations_in_range(),
{
    same_break_totals(a.breaks@, b.breaks@);
    if break_sums_in_range(a.breaks@) {
        assert forall|k: int| 0 <= k <= b.breaks@.len() implies delta_in_range(
            #[trigger] break_total(b.breaks@.take(k)),
        ) by {
            same_break_totals(a.breaks@.take(k), b.breaks@.take(k));
        }
    }
    if break_sums_in_range(b.breaks@) {
        assert forall|k: int| 0 <= k <= a.breaks@.len() implies delta_in_range(
            #[trigger] break_total(a.breaks@.take(k)),
        ) by {
            same_break_totals(a.breaks@.take(k), b.breaks@.take(k));
        }
    }
}

/// Break lists of equal length whose breaks last as long have the same total.
proof fn same_break_totals(a: Seq<BreakData>, b: Seq<BreakData>)
    requires
        a.len() == b.len(),
        forall|i: int| 0 <= i < a.len() ==> (#[trigger] a[i]).spec_duration() == b[i].spec_duration(),
    ensures
        break_total(a) == break_total(b),
    decreases a.len(),
{
    if a.len() > 0 {
        same_break_totals(a.drop_last(), b.drop_last());
    }
}

impl Session for LocalSession {
    open spec fn is_operational(&self) -> bool {
        self.wf()
    }

    open spec fn is_running(&self) -> bool {
        self.running()
    }

    open spec fn drains_on_next_event(&self) -> bool {
        self.pending().len() + 1 == self.sink_capacity()
    }

    open spec fn pending_events(&self) -> nat {
        self.pending().len()
    }

    open spec fn recorded_breaks(&self) -> Seq<(u128, Option<u128>)> {
        self.break_marks()
    }

    open spec fn is_collected(&self, d: SessionData) -> bool {
        exists|now: u128| no_earlier_than_marks(self.break_marks(), now as int) && self.is_snapshot(now, d)
    }


    fn check_operational(&self) -> (r: bool) {
        self.is_well_formed()
    }

    fn drains_next(&self) -> (r: bool) {
        self.event_sink_max_size >= 1 && self.event_sink.len() == self.event_sink_max_size - 1
    }

    fn start(&mut self)
        ensures
            exists|t: u128|
                no_earlier_than_marks(old(self).break_marks(), t as int)
                    && #[trigger] final(self).started_from(*old(self), t),
            marks_ordered(old(self).break_marks()) ==> marks_ordered(final(self).break_marks()),
    {
        let now = self.mark_reading();
        self.start_at(now);
        proof {
            lemma_breaks_shape(self);
            if marks_ordered(old(self).break_marks()) {
                lemma_ordered_latest_is_max(old(self).break_marks());
                lemma_start_keeps_order(*old(self), *self, now);
            }
            assert(self.recorded_breaks() == breaks_after_start(
                old(self).recorded_breaks(),
                old(self).is_running(),
                now,
            ));
        }
    }

    fn stop(&mut self)
        ensures
            exists|t: u128|
                no_earlier_than_marks(old(self).break_marks(), t as int)
                    && #[trigger] final(self).stopped_from(*old(self), t),
            marks_ordered(old(self).break_marks()) ==> marks_ordered(final(self).break_marks()),
    {
        let now = self.mark_reading();
        self.stop_at(now);
        proof {
            if marks_ordered(old(self).break_marks()) {
                lemma_ordered_latest_is_max(old(self).break_marks());
                lemma_stop_keeps_order(*old(self), *self, now);
            }
        }
        assert(self.recorded_breaks() == breaks_after_stop(
            old(self).recorded_breaks(),
            old(self).is_running(),
            now,
        ));
    }

    fn collect(&self) -> (d: Option<SessionData>)
        ensures
            exists|t: u128|
                no_earlier_than_marks(self.break_marks(), t as int) && (d is Some
                    <==> #[trigger] self.snapshot_in_range(t)) && (d matches Some(x)
                    ==> self.is_snapshot(t, x)),
    {
        let now = self.mark_reading();
        self.collect_at(now)
    }

    fn log_event<F: SessionFormatter>(&mut self, event: SessionEvent, formatter: &F) -> (lines: Vec<String>)
        ensures
            final(self).pending() == old(self).pending().push(event),
            final(self).running() == old(self).running(),
            final(self).id() == old(self).id(),
            final(self).start_instant() == old(self).start_instant(),
            final(self).start_wall() == old(self).start_wall(),
            final(self).break_marks() == old(self).break_marks(),
            final(self).sink_capacity() == old(self).sink_capacity(),
            old(self).pending().len() + 1 == old(self).sink_capacity() ==> {
                &&& lines@.len() == old(self).pending().len() + 1
                &&& forall|i: int|
                    0 <= i < lines@.len() ==> (#[trigger] lines@[i])@
                        == formatter.spec_format_event(old(self).pending().push(event)[i])
            },
            old(self).pending().len() + 1 != old(self).sink_capacity() ==> lines@.len() == 0,
    {
        let ghost queued = old(self).pending().push(event);
        self.event_sink.push(event);
        assert(self.event_sink@ == queued);
        let lines = if self.event_sink.len() == self.event_sink_max_size {
            self.format_pending(formatter)
        } else {
            Vec::new()
        };
        assert(self.break_marks() == old(self).break_marks());
        lines
    }

    fn finish_log(&mut self, written: bool)
        ensures
            written ==> final(self).pending() == Seq::<SessionEvent>::empty(),
            !written ==> final(self).pending() == old(self).pending(),
            final(self).running() == old(self).running(),
            final(self).id() == old(self).id(),
            final(self).start_instant() == old(self).start_instant(),
            final(self).start_wall() == old(self).start_wall(),
            final(self).break_marks() == old(self).break_marks(),
            final(self).sink_capacity() == old(self).sink_capacity(),
    {
        if written {
            self.event_sink = Vec::new();
        }
    }

    fn drain<F: SessionFormatter>(&self, formatter: &F) -> (lines: Vec<String>)
        ensures
            forall|i: int|
                0 <= i < lines@.len() ==> (#[trigger] lines@[i])@ == formatter.spec_format_event(
                    self.pending()[i],
                ),
    {
        self.format_pending(formatter)
    }

    fn save<F: SessionFormatter>(&mut self, formatter: &F) -> (content: Option<String>)
        ensures
            exists|stopped: u128, now: u128|
                #![trigger Self::saved(*old(self), *final(self), stopped, now, content, *formatter)]
                {
                    &&& no_earlier_than_marks(old(self).break_marks(), stopped as int)
                    &&& stopped <= now
                    &&& no_earlier_than_marks(final(self).break_marks(), now as int)
                    &&& Self::saved(*old(self), *final(self), stopped, now, content, *formatter)
                },
            marks_ordered(old(self).break_marks()) ==> marks_ordered(final(self).break_marks()),
    {
        let stopped = self.mark_reading();
        let later = self.elapsed_nanos();
        let now = if later < stopped {
            stopped
        } else {
            later
        };
        let content = self.save_at(stopped, now, formatter);
        proof {
            let m0 = old(self).break_marks();
            let m1 = self.break_marks();
            assert(no_earlier_than_marks(m1, now as int)) by {
                assert forall|i: int| 0 <= i < m1.len() implies (#[trigger] m1[i]).0 <= now && (m1[i].1 is Some
                    ==> m1[i].1.unwrap() <= now) by {
                    if i < m0.len() {
                        assert(m1[i] == m0[i]);
                    }
                }
            }
            if marks_ordered(m0) {
                lemma_ordered_latest_is_max(m0);
                lemma_stop_keeps_order(*old(self), *self, stopped);
            }
            if content is Some {
                let text = content.unwrap();
                let d = choose|d: SessionData|
                    self.is_snapshot(now, d) && d.wf() && text@ == formatter.spec_format(d);
                assert(self.is_collected(d));
            }
        }
        assert(self.recorded_breaks() == breaks_after_stop(
            old(self).recorded_breaks(),
            old(self).is_running(),
            stopped,
        ));
        content
    }
}

} // verus!
