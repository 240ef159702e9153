//! Sessions: stretches of focused time with breaks, their snapshots, and
//! the text they are logged as.

pub mod data;
pub mod formatter;
pub mod local_session;
pub mod web_session;

use vstd::prelude::*;

pub use data::{BreakData, SessionData, SessionEvent};
pub use formatter::{JsonFormatter, PrettyFormatter, SessionFormatter};
pub use local_session::LocalSession;
pub use web_session::WebSession;

verus! {

/// A session that can be started, paused, snapshotted and saved.
pub trait Session: Sized {
    /// Whether the session can be operated at all.
    spec fn is_operational(&self) -> bool;

    /// Whether the session is running (not on a break).
    spec fn is_running(&self) -> bool;

    /// Whether logging one more event drains the pending events.
    spec fn drains_on_next_event(&self) -> bool;

    /// How many events wait to be logged.
    spec fn pending_events(&self) -> nat;

    /// The breaks, as (start, end) clock readings; `end` is `None` while the
    /// break goes on.
    spec fn recorded_breaks(&self) -> Seq<(u128, Option<u128>)>;

    /// `d` is a snapshot of the session as it stands.
    spec fn is_collected(&self, d: SessionData) -> bool;


    /// Whether the session can be operated at all.
    fn check_operational(&self) -> (r: bool)
        ensures
            r == self.is_operational(),
    ;

    /// Whether logging one more event drains the pending events.
    fn drains_next(&self) -> (r: bool)
        requires
            self.is_operational(),
        ensures
            r == self.drains_on_next_event(),
    ;

    /// Ends the current break, if any, and runs the session.
    fn start(&mut self)
        requires
            old(self).is_operational(),
        ensures
            final(self).is_operational(),
            final(self).is_running(),
            all_breaks_closed(final(self).recorded_breaks()),
            exists|t: u128|
                no_earlier_than_marks(old(self).recorded_breaks(), t as int)
                    && final(self).recorded_breaks() == #[trigger] breaks_after_start(
                    old(self).recorded_breaks(),
                    old(self).is_running(),
                    t,
                ),
    ;

    /// Starts a break, unless one goes on already.
    fn stop(&mut self)
        requires
            old(self).is_operational(),
        ensures
            final(self).is_operational(),
            !final(self).is_running(),
            exists|t: u128|
                no_earlier_than_marks(old(self).recorded_breaks(), t as int)
                    && final(self).recorded_breaks() == #[trigger] breaks_after_stop(
                    old(self).recorded_breaks(),
                    old(self).is_running(),
                    t,
                ),
    ;

    /// Collects a point-in-time snapshot of session state as a plain data
    /// type; `None` where a time in it cannot be represented.
    fn collect(&self) -> (d: Option<SessionData>)
        requires
            self.is_operational(),
        ensures
            d matches Some(x) ==> x.timestamps_wf() && x.end is Some && self.is_collected(x),
    ;

    /// Records an event: it joins the pending events. Returns the lines to
    /// append to the event log, which are the pending events' when they are
    /// drained; `finish_log` then reports whether they were written.
    fn log_event<F: SessionFormatter>(&mut self, event: SessionEvent, formatter: &F) -> (lines: Vec<String>)
        requires
            old(self).is_operational(),
            event.wf(),
            formatter.formats_events() || !old(self).drains_on_next_event(),
        ensures
            final(self).is_operational(),
            final(self).pending_events() == old(self).pending_events() + 1,
            final(self).is_running() == old(self).is_running(),
    ;

    /// Ends the logging of an event: the pending events are dropped when the
    /// lines `log_event` returned were `written`, and kept when writing them
    /// failed.
    fn finish_log(&mut self, written: bool)
        requires
            old(self).is_operational(),
        ensures
            final(self).is_operational(),
            written ==> final(self).pending_events() == 0,
            !written ==> final(self).pending_events() == old(self).pending_events(),
            final(self).is_running() == old(self).is_running(),
    ;

    /// The event log's lines for the pending events.
    fn drain<F: SessionFormatter>(&self, formatter: &F) -> (lines: Vec<String>)
        requires
            self.is_operational(),
            formatter.formats_events() || self.pending_events() == 0,
        ensures
            lines.len() == self.pending_events(),
    ;

    /// Stops the session and formats the current snapshot with `formatter`;
    /// the text is what to persist. `None` where the snapshot cannot be taken.
    fn save<F: SessionFormatter>(&mut self, formatter: &F) -> (content: Option<String>)
        requires
            old(self).is_operational(),
        ensures
            final(self).is_operational(),
            !final(self).is_running(),
            exists|t: u128|
                no_earlier_than_marks(old(self).recorded_breaks(), t as int)
                    && final(self).recorded_breaks() == #[trigger] breaks_after_stop(
                    old(self).recorded_breaks(),
                    old(self).is_running(),
                    t,
                ),
            content matches Some(text) ==> exists|d: SessionData|
                final(self).is_collected(d) && d.wf() && text@ == formatter.spec_format(d),
    ;
}

/// The breaks after a stop at reading `t`: a running session gains an open
/// break starting at `t`; a session on a break keeps its breaks.
pub open spec fn breaks_after_stop(
    breaks: Seq<(u128, Option<u128>)>,
    running: bool,
    t: u128,
) -> Seq<(u128, Option<u128>)> {
    if running {
        breaks.push((t, None))
    } else {
        breaks
    }
}

/// The breaks after a start at reading `t`: the last break, when the
/// session is on it, ends at `t`; otherwise the breaks stay.
pub open spec fn breaks_after_start(
    breaks: Seq<(u128, Option<u128>)>,
    running: bool,
    t: u128,
) -> Seq<(u128, Option<u128>)> {
    if running || breaks.len() == 0 {
        breaks
    } else {
        breaks.update(breaks.len() - 1, (breaks.last().0, Some(t)))
    }
}

/// The reading `t` is no earlier than any reading the breaks record.
pub open spec fn no_earlier_than_marks(breaks: Seq<(u128, Option<u128>)>, t: int) -> bool {
    forall|i: int|
        0 <= i < breaks.len() ==> (#[trigger] breaks[i]).0 <= t && (breaks[i].1 is Some
            ==> breaks[i].1.unwrap() <= t)
}

/// Every break has ended.
pub open spec fn all_breaks_closed(breaks: Seq<(u128, Option<u128>)>) -> bool {
    forall|i: int| 0 <= i < breaks.len() ==> (#[trigger] breaks[i]).1 is Some
}

/// `after` is `before` stopped at a clock reading no earlier than any it
/// recorded before.
pub open spec fn stop_step<S: Session>(before: S, after: S) -> bool {
    &&& after.is_operational()
    &&& !after.is_running()
    &&& exists|t: u128|
        no_earlier_than_marks(before.recorded_breaks(), t as int)
            && after.recorded_breaks() == #[trigger] breaks_after_stop(
            before.recorded_breaks(),
            before.is_running(),
            t,
        )
}

/// `after` is `before` started at a clock reading no earlier than any it
/// recorded before; then every break has ended.
pub open spec fn start_step<S: Session>(before: S, after: S) -> bool {
    &&& after.is_operational()
    &&& after.is_running()
    &&& all_breaks_closed(after.recorded_breaks())
    &&& exists|t: u128|
        no_earlier_than_marks(before.recorded_breaks(), t as int)
            && after.recorded_breaks() == #[trigger] breaks_after_start(
            before.recorded_breaks(),
            before.is_running(),
            t,
        )
}

/// Why an operation on the global session failed.
#[derive(Clone, Copy, Debug, PartialEq, Eq)]
pub enum SessionError {
    /// No session has been set up.
    NotInitialised,
    /// A time in the session cannot be represented.
    TimeOutOfRange,
}

/// The slot after `init` offered it `session`: the first session stays.
pub open spec fn init_result<S>(slot: Option<S>, session: S) -> Option<S> {
    match slot {
        Some(s) => Some(s),
        None => Some(session),
    }
}

/// Sets up the session held in `slot`. Must be called once before any
/// other function; subsequent calls are silently ignored.
pub fn init<S: Session>(slot: &mut Option<S>, session: S)
    ensures
        *final(slot) == init_result(*old(slot), session),
{
    if slot.is_none() {
        *slot = Some(session);
    }
}

/// Runs the session in `slot`.
pub fn start<S: Session>(slot: &mut Option<S>) -> (r: Result<(), SessionError>)
    requires
        (*old(slot)) matches Some(s) ==> s.is_operational(),
    ensures
        (*old(slot)) is None ==> r == Err::<(), SessionError>(SessionError::NotInitialised)
            && (*final(slot)) is None,
        (*old(slot)) matches Some(s0) ==> r is Ok && ((*final(slot)) matches Some(s1)
            && start_step(s0, s1)),
{
    match slot {
        Some(s) => {
            s.start();
            Ok(())
        },
        None => Err(SessionError::NotInitialised),
    }
}

/// Puts the session in `slot` on a break.
pub fn stop<S: Session>(slot: &mut Option<S>) -> (r: Result<(), SessionError>)
    requires
        (*old(slot)) matches Some(s) ==> s.is_operational(),
    ensures
        (*old(slot)) is None ==> r == Err::<(), SessionError>(SessionError::NotInitialised)
            && (*final(slot)) is None,
        (*old(slot)) matches Some(s0) ==> r is Ok && ((*final(slot)) matches Some(s1)
            && stop_step(s0, s1)),
{
    match slot {
        Some(s) => {
            s.stop();
            Ok(())
        },
        None => Err(SessionError::NotInitialised),
    }
}

/// Stops the session in `slot` and formats its snapshot with `formatter`;
/// returns the text to persist.
pub fn save<S: Session, F: SessionFormatter>(slot: &mut Option<S>, formatter: &F) -> (r: Result<
    String,
    SessionError,
>)
    requires
        (*old(slot)) matches Some(s) ==> s.is_operational(),
    ensures
        (*old(slot)) is None ==> r == Err::<String, SessionError>(SessionError::NotInitialised)
            && (*final(slot)) is None,
        (*old(slot)) matches Some(s0) ==> ((*final(slot)) matches Some(s1) && stop_step(s0, s1)
            && (r matches Ok(text) ==> exists|d: SessionData|
            s1.is_collected(d) && d.wf() && text@ == formatter.spec_format(d)) && (r is Err ==> r
            == Err::<String, SessionError>(SessionError::TimeOutOfRange))),
{
    match slot {
        Some(s) => match s.save(formatter) {
            Some(content) => Ok(content),
            None => Err(SessionError::TimeOutOfRange),
        },
        None => Err(SessionError::NotInitialised),
    }
}

/// Only the first `init` counts: once a session is set up, offering
/// another leaves the first in place.
pub proof fn lemma_init_first_wins<S>(slot: Option<S>, first: S, second: S)
    ensures
        init_result(init_result(slot, first), second) == init_result(slot, first),
        slot is None ==> init_result(init_result(slot, first), second) == Some(first),
{
}

/// A start ends the break that goes on no earlier than it began (and no
/// earlier than any reading recorded before), and leaves every other break
/// as it was.
pub proof fn lemma_start_ends_break_after_it_began<S: Session>(before: S, after: S)
    requires
        start_step(before, after),
        !before.is_running(),
        before.recorded_breaks().len() > 0,
    ensures
        after.recorded_breaks().len() == before.recorded_breaks().len(),
        after.recorded_breaks().last().0 == before.recorded_breaks().last().0,
        after.recorded_breaks().last().1 is Some,
        after.recorded_breaks().last().0 <= after.recorded_breaks().last().1.unwrap(),
        forall|i: int|
            0 <= i < before.recorded_breaks().len() - 1 ==> #[trigger] after.recorded_breaks()[i]
                == before.recorded_breaks()[i],
{
    let b = before.recorded_breaks();
    let t = choose|t: u128|
        no_earlier_than_marks(b, t as int) && after.recorded_breaks() == #[trigger] breaks_after_start(
            b,
            before.is_running(),
            t,
        );
    assert(b.last() == b[b.len() - 1]);
}

/// A stop of a running session opens one new break, at a reading no earlier
/// than any recorded before, and leaves the earlier breaks as they were.
pub proof fn lemma_stop_opens_break_after_all<S: Session>(before: S, after: S)
    requires
        stop_step(before, after),
        before.is_running(),
    ensures
        after.recorded_breaks().len() == before.recorded_breaks().len() + 1,
        after.recorded_breaks().last().1 is None,
        no_earlier_than_marks(before.recorded_breaks(), after.recorded_breaks().last().0 as int),
        forall|i: int|
            0 <= i < before.recorded_breaks().len() ==> #[trigger] after.recorded_breaks()[i]
                == before.recorded_breaks()[i],
{
    let b = before.recorded_breaks();
    let t = choose|t: u128|
        no_earlier_than_marks(b, t as int) && after.recorded_breaks() == #[trigger] breaks_after_stop(
            b,
            before.is_running(),
            t,
        );
}

} // verus!
