//! The plain data of a session: its breaks, its events, and the snapshot
//! that formatters turn into text.

use vstd::prelude::*;

use crate::ident::{is_random_uuid, new_random_uuid};
use crate::timestamp::{delta_in_range, utc_now, TimeDelta, Timestamp};

verus! {

/// A pause in a session; `end` is `None` while the break goes on.
pub struct BreakData {
    pub start: Timestamp,
    pub end: Option<Timestamp>,
}

impl BreakData {
    /// Both ends are timestamps chrono can represent.
    pub open spec fn wf(self) -> bool {
        &&& self.start.wf()
        &&& self.end matches Some(e) ==> e.wf()
    }

    /// The length of the break in nanoseconds, once it has ended.
    pub open spec fn spec_duration(self) -> Option<int> {
        match self.end {
            Some(e) => Some(e.instant() - self.start.instant()),
            None => None,
        }
    }

    /// The length of the break, or `None` while it goes on.
    pub fn duration(&self) -> (d: Option<TimeDelta>)
        requires
            self.wf(),
        ensures
            d is Some <==> self.end is Some,
            d matches Some(x) ==> x.wf() && Some(x.nanos as int) == self.spec_duration(),
    {
        match &self.end {
            Some(e) => Some(e.duration_since(&self.start)),
            None => None,
        }
    }
}

/// The kinds of event a session records.
#[derive(Clone, Copy, Debug, PartialEq, Eq)]
pub enum EventType {
    TestEvent,
}

impl EventType {
    /// The name of the kind, as the event log prints it.
    pub open spec fn label(self) -> Seq<char> {
        match self {
            EventType::TestEvent => "TestEvent"@,
        }
    }

    /// The name of the kind, as the event log prints it.
    pub fn to_string(&self) -> (s: String)
        ensures
            s@ == self.label(),
    {
        match self {
            EventType::TestEvent => String::from_str("TestEvent"),
        }
    }
}

/// Something that happened during a session.
pub struct SessionEvent {
    /// When it happened (UTC, so `offset` is zero).
    pub timestamp: Timestamp,
    pub id: u128,
    pub event_type: EventType,
    pub meta: String,
}

impl SessionEvent {
    /// A timestamp chrono can represent, in UTC.
    pub open spec fn wf(self) -> bool {
        &&& self.timestamp.wf()
        &&& self.timestamp.offset == 0
    }

    /// Whether the event can be logged: its timestamp is valid and in UTC.
    pub fn is_valid(&self) -> (r: bool)
        ensures
            r == self.wf(),
    {
        self.timestamp.is_valid() && self.timestamp.offset == 0
    }

    /// An event of kind `event_type` with the text `meta`, stamped with the
    /// current UTC time and a fresh random identifier.
    pub fn new(event_type: EventType, meta: String) -> (e: SessionEvent)
        ensures
            e.wf(),
            e.event_type == event_type,
            e.meta@ == meta@,
            is_random_uuid(e.id),
    {
        let timestamp = utc_now();
        let id = new_random_uuid();
        SessionEvent { timestamp, id, event_type, meta }
    }
}

/// A point-in-time snapshot of a session.
pub struct SessionData {
    pub id: u128,
    pub start: Timestamp,
    /// The time at which this snapshot was taken. Always `Some` for a collected snapshot.
    pub end: Option<Timestamp>,
    pub breaks: Vec<BreakData>,
}

/// The summed length, in nanoseconds, of the breaks in `breaks` that have ended.
pub open spec fn break_total(breaks: Seq<BreakData>) -> int
    decreases breaks.len(),
{
    if breaks.len() == 0 {
        0
    } else {
        break_total(breaks.drop_last()) + match breaks.last().spec_duration() {
            Some(d) => d,
            None => 0,
        }
    }
}

/// Every running sum of the ended breaks' lengths, taken in order, fits in
/// chrono's `TimeDelta`, so that adding them up does not panic.
pub open spec fn break_sums_in_range(breaks: Seq<BreakData>) -> bool {
    forall|k: int| 0 <= k <= breaks.len() ==> delta_in_range(#[trigger] break_total(breaks.take(k)))
}

impl SessionData {
    /// Every timestamp in the snapshot can be represented by chrono.
    pub open spec fn timestamps_wf(self) -> bool {
        &&& self.start.wf()
        &&& self.end matches Some(e) ==> e.wf()
        &&& forall|i: int| 0 <= i < self.breaks@.len() ==> (#[trigger] self.breaks@[i]).wf()
    }

    /// The length of the session in nanoseconds, once it has an end.
    pub open spec fn spec_total(self) -> Option<int> {
        match self.end {
            Some(e) => Some(e.instant() - self.start.instant()),
            None => None,
        }
    }

    /// The length of the session without its breaks, in nanoseconds, once it has an end.
    pub open spec fn spec_active(self) -> Option<int> {
        match self.spec_total() {
            Some(t) => Some(t - break_total(self.breaks@)),
            None => None,
        }
    }

    /// The snapshot's durations can all be computed without leaving chrono's range.
    pub open spec fn durations_in_range(self) -> bool {
        &&& break_sums_in_range(self.breaks@)
        &&& self.spec_active() matches Some(a) ==> delta_in_range(a)
    }

    /// A snapshot that can be measured and formatted.
    pub open spec fn wf(self) -> bool {
        &&& self.timestamps_wf()
        &&& self.durations_in_range()
    }

    /// Whether every timestamp in the snapshot can be represented.
    pub fn timestamps_valid(&self) -> (r: bool)
        ensures
            r == self.timestamps_wf(),
    {
        if !self.start.is_valid() {
            return false;
        }
        match &self.end {
            Some(e) => {
                if !e.is_valid() {
                    return false;
                }
            },
            None => {},
        }
        let mut i: usize = 0;
        while i < self.breaks.len()
            invariant
                0 <= i <= self.breaks@.len(),
                forall|k: int| 0 <= k < i ==> (#[trigger] self.breaks@[k]).wf(),
            decreases self.breaks@.len() - i,
        {
            let b = &self.breaks[i];
            if !b.start.is_valid() {
                return false;
            }
            match &b.end {
                Some(e) => {
                    if !e.is_valid() {
                        return false;
                    }
                },
                None => {},
            }
            i = i + 1;
        }
        true
    }

    /// Whether the snapshot can be measured and formatted.
    pub fn is_valid(&self) -> (r: bool)
        ensures
            r == self.wf(),
    {
        self.timestamps_valid() && self.durations_fit()
    }

    /// The time from start to end, or `None` while the session has no end.
    pub fn total_duration(&self) -> (d: Option<TimeDelta>)
        requires
            self.start.wf(),
            self.end matches Some(e) ==> e.wf(),
        ensures
            d is Some <==> self.end is Some,
            d matches Some(x) ==> x.wf() && Some(x.nanos as int) == self.spec_total(),
    {
        match &self.end {
            Some(e) => Some(e.duration_since(&self.start)),
            None => None,
        }
    }

    /// The summed length of the breaks that have ended, or `None` where a
    /// running sum leaves chrono's range.
    pub fn checked_break_duration(&self) -> (d: Option<TimeDelta>)
        requires
            self.timestamps_wf(),
        ensures
            d is Some <==> break_sums_in_range(self.breaks@),
            d matches Some(x) ==> x.wf() && x.nanos == break_total(self.breaks@),
    {
        let ghost bs = self.breaks@;
        let mut acc = TimeDelta::zero();
        let mut i: usize = 0;
        assert(bs.take(0) =~= Seq::<BreakData>::empty());
        while i < self.breaks.len()
            invariant
                bs == self.breaks@,
                self.timestamps_wf(),
                0 <= i <= bs.len(),
                acc.wf(),
                acc.nanos == break_total(bs.take(i as int)),
                forall|k: int| 0 <= k <= i ==> delta_in_range(#[trigger] break_total(bs.take(k))),
            decreases bs.len() - i,
        {
            assert(bs.take(i as int + 1).drop_last() =~= bs.take(i as int));
            assert(bs.take(i as int + 1).last() == bs[i as int]);
            let b = &self.breaks[i];
            assert(b.wf());
            match b.duration() {
                Some(d) => {
                    match acc.checked_add(&d) {
                        Some(s) => {
                            acc = s;
                        },
                        None => {
                            assert(!delta_in_range(break_total(bs.take(i as int + 1))));
                            return None;
                        },
                    }
                },
                None => {},
            }
            i = i + 1;
        }
        assert(bs.take(bs.len() as int) =~= bs);
        Some(acc)
    }

    /// The summed length of the breaks that have ended; a break still going
    /// on counts for nothing.
    pub fn break_duration(&self) -> (d: TimeDelta)
        requires
            self.timestamps_wf(),
            break_sums_in_range(self.breaks@),
        ensures
            d.wf(),
            d.nanos == break_total(self.breaks@),
    {
        match self.checked_break_duration() {
            Some(d) => d,
            None => TimeDelta::zero(),
        }
    }

    /// The session's length without its breaks, or `None` while the session
    /// has no end.
    pub fn active_duration(&self) -> (d: Option<TimeDelta>)
        requires
            self.wf(),
        ensures
            d is Some <==> self.end is Some,
            d matches Some(x) ==> x.wf() && Some(x.nanos as int) == self.spec_active(),
    {
        match self.total_duration() {
            Some(total) => {
                let b = self.break_duration();
                match total.checked_sub(&b) {
                    Some(a) => Some(a),
                    None => None,
                }
            },
            None => None,
        }
    }

    /// Whether the snapshot's durations can all be computed without leaving
    /// chrono's range.
    pub fn durations_fit(&self) -> (r: bool)
        requires
            self.timestamps_wf(),
        ensures
            r == self.durations_in_range(),
    {
        match self.checked_break_duration() {
            None => false,
            Some(b) => match self.total_duration() {
                None => true,
                Some(total) => total.checked_sub(&b).is_some(),
            },
        }
    }
}

/// A break still going on adds nothing to the breaks' total; one that has
/// ended adds its length.
pub proof fn lemma_break_total_push(breaks: Seq<BreakData>, b: BreakData)
    ensures
        break_total(breaks.push(b)) == break_total(breaks) + match b.spec_duration() {
            Some(d) => d,
            None => 0,
        },
        b.end is None ==> break_total(breaks.push(b)) == break_total(breaks),
{
    assert(breaks.push(b).drop_last() =~= breaks);
}

/// The breaks' total over two lists put together is the sum of their totals.
pub proof fn lemma_break_total_concat(a: Seq<BreakData>, b: Seq<BreakData>)
    ensures
        break_total(a + b) == break_total(a) + break_total(b),
    decreases b.len(),
{
    if b.len() == 0 {
        assert(a + b =~= a);
    } else {
        lemma_break_total_concat(a, b.drop_last());
        assert((a + b).drop_last() =~= a + b.drop_last());
        assert((a + b).last() == b.last());
    }
}

/// The order of the breaks does not matter to their total: swapping two
/// runs of breaks keeps it, and an open break anywhere adds nothing.
pub proof fn lemma_break_total_order_free(a: Seq<BreakData>, b: Seq<BreakData>, open: BreakData)
    requires
        open.end is None,
    ensures
        break_total(a + b) == break_total(b + a),
        break_total(a + seq![open] + b) == break_total(a + b),
{
    lemma_break_total_concat(a, b);
    lemma_break_total_concat(b, a);
    lemma_break_total_concat(a + seq![open], b);
    lemma_break_total_concat(a, seq![open]);
    assert(seq![open] =~= Seq::<BreakData>::empty().push(open));
    lemma_break_total_push(Seq::<BreakData>::empty(), open);
}

/// The breaks of `breaks` that have ended, in order.
pub open spec fn ended_breaks(breaks: Seq<BreakData>) -> Seq<BreakData> {
    breaks.filter(|b: BreakData| b.end is Some)
}

/// Taking out the break at `k` takes its length (if it has ended) out of
/// the total.
pub proof fn lemma_break_total_remove(breaks: Seq<BreakData>, k: int)
    requires
        0 <= k < breaks.len(),
    ensures
        break_total(breaks) == break_total(breaks.remove(k)) + match breaks[k].spec_duration() {
            Some(d) => d,
            None => 0,
        },
{
    let front = breaks.take(k);
    let back = breaks.skip(k + 1);
    assert(breaks =~= front + seq![breaks[k]] + back);
    assert(breaks.remove(k) =~= front + back);
    lemma_break_total_concat(front + seq![breaks[k]], back);
    lemma_break_total_concat(front, seq![breaks[k]]);
    lemma_break_total_concat(front, back);
    assert(seq![breaks[k]] =~= Seq::<BreakData>::empty().push(breaks[k]));
    lemma_break_total_push(Seq::<BreakData>::empty(), breaks[k]);
}

/// Any reordering of the breaks keeps their total: lists with the same
/// breaks, counted with their multiplicity, have the same total.
pub proof fn lemma_break_total_permutation(a: Seq<BreakData>, b: Seq<BreakData>)
    requires
        a.to_multiset() =~= b.to_multiset(),
    ensures
        break_total(a) == break_total(b),
    decreases a.len(),
{
    broadcast use vstd::seq_lib::group_to_multiset_ensures;

    if a.len() == 0 {
        assert(b.to_multiset().len() == 0);
        assert(b =~= Seq::<BreakData>::empty());
    } else {
        let x = a.last();
        let rest = a.drop_last();
        assert(a =~= rest.push(x));
        assert(a.to_multiset() =~= rest.to_multiset().insert(x));
        assert(b.to_multiset().count(x) > 0);
        assert(b.contains(x));
        let k = choose|k: int| 0 <= k < b.len() && b[k] == x;
        assert(b.remove(k).to_multiset() =~= b.to_multiset().remove(x));
        assert(rest.to_multiset() =~= a.to_multiset().remove(x));
        lemma_break_total_permutation(rest, b.remove(k));
        lemma_break_total_remove(b, k);
    }
}

/// Breaks that go on count for nothing: the total is that of the ended
/// breaks alone.
pub proof fn lemma_break_total_ended_only(breaks: Seq<BreakData>)
    ensures
        break_total(breaks) == break_total(ended_breaks(breaks)),
    decreases breaks.len(),
{
    if breaks.len() > 0 {
        let rest = breaks.drop_last();
        let x = breaks.last();
        assert(breaks =~= rest.push(x));
        rest.lemma_filter_push(x, |b: BreakData| b.end is Some);
        lemma_break_total_ended_only(rest);
        lemma_break_total_push(ended_breaks(rest), x);
    }
}

/// The breaks' total does not depend on their order, nor on breaks that go
/// on: two lists whose ended breaks are the same, counted with their
/// multiplicity, have the same total.
pub proof fn lemma_break_total_reordering(a: Seq<BreakData>, b: Seq<BreakData>)
    requires
        ended_breaks(a).to_multiset() =~= ended_breaks(b).to_multiset(),
    ensures
        break_total(a) == break_total(b),
{
    lemma_break_total_ended_only(a);
    lemma_break_total_ended_only(b);
    lemma_break_total_permutation(ended_breaks(a), ended_breaks(b));
}

} // verus!
