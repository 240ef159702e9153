//! The text a session snapshot and its events are logged as: a report for
//! people and a JSON object for programs.

use vstd::prelude::*;
use vstd::string::StringExecFns;

use crate::ident::{uuid_text, uuid_to_string};
use crate::session::data::{BreakData, SessionData, SessionEvent};
use crate::text::{dec, int_text, left2, push_dec, push_int, push_left2};
use crate::timestamp::{
    datetime_zone_text, format_datetime_zone, format_hms, format_rfc3339, format_utc, hms_text,
    rfc3339_text, utc_display_text, whole_secs, TimeDelta,
};

verus! {

/// Turns session snapshots and events into the text that is logged.
pub trait SessionFormatter {
    /// The text of a snapshot.
    spec fn spec_format(&self, data: SessionData) -> Seq<char>;

    /// Whether events can be formatted at all.
    spec fn formats_events(&self) -> bool;

    /// The text of an event.
    spec fn spec_format_event(&self, event: SessionEvent) -> Seq<char>;

    /// Whether events can be formatted at all.
    fn can_format_events(&self) -> (r: bool)
        ensures
            r == self.formats_events(),
    ;

    fn format(&self, data: &SessionData) -> (s: String)
        requires
            data.wf(),
        ensures
            s@ == self.spec_format(*data),
    ;

    fn format_event(&self, event: &SessionEvent) -> (s: String)
        requires
            self.formats_events(),
            event.wf(),
        ensures
            s@ == self.spec_format_event(*event),
    ;
}

/// A span of `n` nanoseconds as `fmt_duration` prints it: its whole seconds
/// (negative spans count as none) as hours, minutes and seconds, leaving out
/// leading units that are zero.
pub open spec fn duration_text(n: int) -> Seq<char> {
    let total = if whole_secs(n) > 0 {
        whole_secs(n)
    } else {
        0
    };
    let h = total / 3600;
    let m = (total % 3600) / 60;
    let s = total % 60;
    if h > 0 {
        dec(h as nat) + "h "@ + dec(m as nat) + "m "@ + dec(s as nat) + "s"@
    } else if m > 0 {
        dec(m as nat) + "m "@ + dec(s as nat) + "s"@
    } else {
        dec(s as nat) + "s"@
    }
}

/// A span as a report prints it, e.g. `1h 2m 3s`, `2m 3s` or `3s`.
pub fn fmt_duration(d: &TimeDelta) -> (s: String)
    requires
        d.wf(),
    ensures
        s@ == duration_text(d.nanos as int),
{
    let secs = d.num_seconds();
    let total: u64 = if secs > 0 {
        secs as u64
    } else {
        0
    };
    let h = total / 3600;
    let m = (total % 3600) / 60;
    let sec = total % 60;
    let mut s = String::new();
    if h > 0 {
        push_dec(&mut s, h);
        s.append("h ");
        push_dec(&mut s, m);
        s.append("m ");
        push_dec(&mut s, sec);
        s.append("s");
    } else if m > 0 {
        push_dec(&mut s, m);
        s.append("m ");
        push_dec(&mut s, sec);
        s.append("s");
    } else {
        push_dec(&mut s, sec);
        s.append("s");
    }
    assert(s@ =~= duration_text(d.nanos as int));
    s
}

/// A value in JSON: quoted when present, `null` when absent.
pub open spec fn quoted_or_null(v: Option<Seq<char>>) -> Seq<char> {
    match v {
        Some(s) => "\""@ + s + "\""@,
        None => "null"@,
    }
}

/// A value in JSON: quoted when present, `null` when absent.
pub fn opt_quoted(v: Option<String>) -> (s: String)
    ensures
        s@ == quoted_or_null(
            match v {
                Some(x) => Some(x@),
                None => None,
            },
        ),
{
    match v {
        Some(x) => {
            let mut s = String::from_str("\"");
            s.append(x.as_str());
            s.append("\"");
            s
        },
        None => String::from_str("null"),
    }
}

/// A span in JSON: its whole seconds when present, `null` when absent.
pub open spec fn secs_or_null(v: Option<int>) -> Seq<char> {
    match v {
        Some(n) => int_text(whole_secs(n)),
        None => "null"@,
    }
}

/// Appends a span's whole seconds, or `null` when there is none.
fn push_secs_or_null(s: &mut String, d: Option<TimeDelta>)
    requires
        d matches Some(x) ==> x.wf(),
    ensures
        final(s)@ == old(s)@ + secs_or_null(
            match d {
                Some(x) => Some(x.nanos as int),
                None => None,
            },
        ),
{
    match d {
        Some(x) => push_int(s, x.num_seconds()),
        None => s.append("null"),
    }
}

/// The local time of day of an optional timestamp, or `ongoing`.
pub open spec fn hms_or_ongoing(t: Option<crate::timestamp::Timestamp>) -> Seq<char> {
    match t {
        Some(e) => hms_text(e.local_secs()),
        None => "ongoing"@,
    }
}

/// A span as a report prints it, or `—` when there is none.
pub open spec fn duration_or_dash(v: Option<int>) -> Seq<char> {
    match v {
        Some(n) => duration_text(n),
        None => "\u{2014}"@,
    }
}

/// The report's line for the break numbered `number` (from 1).
pub open spec fn pretty_break_line(number: nat, b: BreakData) -> Seq<char> {
    "  #"@ + left2(number) + " "@ + hms_text(b.start.local_secs()) + "  \u{2192}  "@
        + hms_or_ongoing(b.end) + "  ("@ + duration_or_dash(b.spec_duration()) + ")\n"@
}

/// The report's lines for `breaks`, numbered from 1.
pub open spec fn pretty_break_lines(breaks: Seq<BreakData>) -> Seq<char>
    decreases breaks.len(),
{
    if breaks.len() == 0 {
        Seq::empty()
    } else {
        pretty_break_lines(breaks.drop_last()) + pretty_break_line(breaks.len(), breaks.last())
    }
}

/// The report of a snapshot.
pub open spec fn pretty_text(data: SessionData) -> Seq<char> {
    let breaks = data.breaks@;
    "=== web-blocker session ===\nID:          "@ + uuid_text(data.id) + "\nStarted:     "@
        + datetime_zone_text(data.start.secs, data.start.offset) + "\nEnded:       "@ + match data.end {
        Some(e) => datetime_zone_text(e.secs, e.offset),
        None => "ongoing"@,
    } + "\nDuration:    "@ + match data.spec_total() {
        Some(t) => duration_text(t),
        None => "ongoing"@,
    } + "\n\nBreaks ("@ + dec(breaks.len()) + "):\n"@ + if breaks.len() == 0 {
        "  (none)\n"@
    } else {
        pretty_break_lines(breaks)
    } + "Active time: "@ + duration_or_dash(data.spec_active()) + "\n"@
}

/// The event log's line for an event.
pub open spec fn pretty_event_text(e: SessionEvent) -> Seq<char> {
    utc_display_text(e.timestamp.secs, e.timestamp.nanos) + " "@ + e.event_type.label() + "["@
        + uuid_text(e.id) + "] "@ + e.meta@ + "\n"@
}

/// The report format, for people.
pub struct PrettyFormatter;

/// Appends the report's line for the break numbered `number`.
#[verifier::spinoff_prover]
#[verifier::rlimit(40)]
fn push_pretty_break(s: &mut String, number: u64, b: &BreakData)
    requires
        b.wf(),
    ensures
        final(s)@ == old(s)@ + pretty_break_line(number as nat, *b),
{
    s.append("  #");
    push_left2(s, number);
    s.append(" ");
    let start = format_hms(&b.start);
    s.append(start.as_str());
    s.append("  \u{2192}  ");
    match &b.end {
        Some(e) => {
            let end = format_hms(e);
            s.append(end.as_str());
        },
        None => s.append("ongoing"),
    }
    s.append("  (");
    match b.duration() {
        Some(d) => {
            let text = fmt_duration(&d);
            s.append(text.as_str());
        },
        None => s.append("\u{2014}"),
    }
    s.append(")\n");
    assert(s@ =~= old(s)@ + pretty_break_line(number as nat, *b));
}

impl SessionFormatter for PrettyFormatter {
    open spec fn spec_format(&self, data: SessionData) -> Seq<char> {
        pretty_text(data)
    }

    open spec fn formats_events(&self) -> bool {
        true
    }

    open spec fn spec_format_event(&self, event: SessionEvent) -> Seq<char> {
        pretty_event_text(event)
    }

    fn can_format_events(&self) -> (r: bool) {
        true
    }

    fn format(&self, data: &SessionData) -> (s: String) {
        let ghost breaks = data.breaks@;
        let mut lines = String::new();
        let mut i: usize = 0;
        while i < data.breaks.len()
            invariant
                breaks == data.breaks@,
                data.wf(),
                0 <= i <= breaks.len(),
                lines@ == pretty_break_lines(breaks.take(i as int)),
            decreases breaks.len() - i,
        {
            assert(breaks.take(i as int + 1).drop_last() =~= breaks.take(i as int));
            assert(data.breaks@[i as int].wf());
            push_pretty_break(&mut lines, (i as u64) + 1, &data.breaks[i]);
            i = i + 1;
        }
        assert(breaks.take(breaks.len() as int) =~= breaks);

        let mut s = String::from_str("=== web-blocker session ===\nID:          ");
        let id = uuid_to_string(data.id);
        s.append(id.as_str());
        s.append("\nStarted:     ");
        let started = format_datetime_zone(&data.start);
        s.append(started.as_str());
        s.append("\nEnded:       ");
        match &data.end {
            Some(e) => {
                let ended = format_datetime_zone(e);
                s.append(ended.as_str());
            },
            None => s.append("ongoing"),
        }
        s.append("\nDuration:    ");
        match data.total_duration() {
            Some(t) => {
                let text = fmt_duration(&t);
                s.append(text.as_str());
            },
            None => s.append("ongoing"),
        }
        s.append("\n\nBreaks (");
        push_dec(&mut s, data.breaks.len() as u64);
        s.append("):\n");
        if data.breaks.len() == 0 {
            s.append("  (none)\n");
        } else {
            s.append(lines.as_str());
        }
        s.append("Active time: ");
        match data.active_duration() {
            Some(a) => {
                let text = fmt_duration(&a);
                s.append(text.as_str());
            },
            None => s.append("\u{2014}"),
        }
        s.append("\n");
        assert(s@ =~= pretty_text(*data));
        s
    }

    fn format_event(&self, event: &SessionEvent) -> (s: String) {
        let mut s = format_utc(&event.timestamp);
        s.append(" ");
        let kind = event.event_type.to_string();
        s.append(kind.as_str());
        s.append("[");
        let id = uuid_to_string(event.id);
        s.append(id.as_str());
        s.append("] ");
        s.append(event.meta.as_str());
        s.append("\n");
        assert(s@ =~= pretty_event_text(*event));
        s
    }
}

/// The JSON object of one break.
pub open spec fn break_json(b: BreakData) -> Seq<char> {
    "{\"start\":\""@ + rfc3339_text(b.start.secs, b.start.nanos, b.start.offset) + "\",\"end\":"@
        + quoted_or_null(
        match b.end {
            Some(e) => Some(rfc3339_text(e.secs, e.nanos, e.offset)),
            None => None,
        },
    ) + ",\"duration_secs\":"@ + secs_or_null(b.spec_duration()) + "}"@
}

/// The JSON objects of `breaks`, joined by commas.
pub open spec fn breaks_json(breaks: Seq<BreakData>) -> Seq<char>
    decreases breaks.len(),
{
    if breaks.len() == 0 {
        Seq::empty()
    } else if breaks.len() == 1 {
        break_json(breaks[0])
    } else {
        breaks_json(breaks.drop_last()) + ","@ + break_json(breaks.last())
    }
}

/// The JSON object of a snapshot.
pub open spec fn json_text(data: SessionData) -> Seq<char> {
    "{\"id\":\""@ + uuid_text(data.id) + "\",\"started\":\""@ + rfc3339_text(
        data.start.secs,
        data.start.nanos,
        data.start.offset,
    ) + "\",\"ended\":"@ + quoted_or_null(
        match data.end {
            Some(e) => Some(rfc3339_text(e.secs, e.nanos, e.offset)),
            None => None,
        },
    ) + ",\"duration_secs\":"@ + secs_or_null(data.spec_total()) + ",\"breaks\":["@
        + breaks_json(data.breaks@) + "],\"active_secs\":"@ + secs_or_null(data.spec_active())
        + "}"@
}

/// An optional timestamp in RFC 3339, for `opt_quoted`.
fn rfc3339_or_none(t: &Option<crate::timestamp::Timestamp>) -> (r: Option<String>)
    requires
        t matches Some(e) ==> e.wf(),
    ensures
        r is Some <==> t is Some,
        r matches Some(x) ==> x@ == rfc3339_text(t.unwrap().secs, t.unwrap().nanos, t.unwrap().offset),
{
    match t {
        Some(e) => Some(format_rfc3339(e)),
        None => None,
    }
}

/// Appends the JSON object of one break.
fn push_break_json(s: &mut String, b: &BreakData)
    requires
        b.wf(),
    ensures
        final(s)@ == old(s)@ + break_json(*b),
{
    s.append("{\"start\":\"");
    let start = format_rfc3339(&b.start);
    s.append(start.as_str());
    s.append("\",\"end\":");
    let end = opt_quoted(rfc3339_or_none(&b.end));
    s.append(end.as_str());
    s.append(",\"duration_secs\":");
    push_secs_or_null(s, b.duration());
    s.append("}");
    assert(s@ =~= old(s)@ + break_json(*b));
}

/// The JSON format, for programs. It has no format for events.
pub struct JsonFormatter;

impl SessionFormatter for JsonFormatter {
    open spec fn spec_format(&self, data: SessionData) -> Seq<char> {
        json_text(data)
    }

    open spec fn formats_events(&self) -> bool {
        false
    }

    open spec fn spec_format_event(&self, event: SessionEvent) -> Seq<char> {
        Seq::empty()
    }

    fn can_format_events(&self) -> (r: bool) {
        false
    }

    fn format(&self, data: &SessionData) -> (s: String) {
        let ghost breaks = data.breaks@;
        let mut joined = String::new();
        let mut i: usize = 0;
        while i < data.breaks.len()
            invariant
                breaks == data.breaks@,
                data.wf(),
                0 <= i <= breaks.len(),
                joined@ == breaks_json(breaks.take(i as int)),
            decreases breaks.len() - i,
        {
            assert(breaks.take(i as int + 1).drop_last() =~= breaks.take(i as int));
            assert(data.breaks@[i as int].wf());
            if i > 0 {
                joined.append(",");
            }
            push_break_json(&mut joined, &data.breaks[i]);
            proof {
                if i == 0 {
                    assert(joined@ =~= breaks_json(breaks.take(1)));
                } else {
                    assert(joined@ =~= breaks_json(breaks.take(i as int + 1)));
                }
            }
            i = i + 1;
        }
        assert(breaks.take(breaks.len() as int) =~= breaks);

        let mut s = String::from_str("{\"id\":\"");
        let id = uuid_to_string(data.id);
        s.append(id.as_str());
        s.append("\",\"started\":\"");
        let started = format_rfc3339(&data.start);
        s.append(started.as_str());
        s.append("\",\"ended\":");
        let ended = opt_quoted(rfc3339_or_none(&data.end));
        s.append(ended.as_str());
        s.append(",\"duration_secs\":");
        push_secs_or_null(&mut s, data.total_duration());
        s.append(",\"breaks\":[");
        s.append(joined.as_str());
        s.append("],\"active_secs\":");
        push_secs_or_null(&mut s, data.active_duration());
        s.append("}");
        assert(s@ =~= json_text(*data));
        s
    }

    fn format_event(&self, event: &SessionEvent) -> (s: String) {
        String::new()
    }
}

} // verus!
