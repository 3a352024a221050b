use vstd::prelude::*;

use crate::appointment::Appointment;
use crate::clock::{
    clock_seconds, digit, local_clock, stamp, stamp_of, valid_clock, WallClock, DAY_SECONDS,
    INSTANT_LIMIT,
};

verus! {

/// An instant that lies outside the range the calendar conversion accepts.
#[derive(Clone, Copy, Debug, PartialEq, Eq, Structural)]
pub struct TimestampError {
    pub value: i64,
}

pub open spec fn in_range(ts: i64) -> bool {
    -INSTANT_LIMIT <= ts <= INSTANT_LIMIT
}

/// `n` in decimal, without leading zeros.
pub open spec fn decimal(n: nat) -> Seq<char>
    decreases n,
{
    if n < 10 {
        seq![digit(n as int)]
    } else {
        decimal(n / 10) + seq![digit((n % 10) as int)]
    }
}

/// `Appointment #<id>: <start> - <end>`.
pub open spec fn line_of(id: usize, start: WallClock, end: WallClock) -> Seq<char> {
    "Appointment #"@ + decimal(id as nat) + ": "@ + stamp_of(start) + " - "@ + stamp_of(end)
}

/// A wall clock that shows the instant `ts` in some zone.
pub open spec fn shows_instant(w: WallClock, ts: i64) -> bool {
    valid_clock(w) && -DAY_SECONDS < clock_seconds(w) - ts < DAY_SECONDS
}

/// `s` is the line of `a`, with its bounds shown on wall clocks.
pub open spec fn is_line(a: Appointment, s: Seq<char>) -> bool {
    exists|w1: WallClock, w2: WallClock|
        shows_instant(w1, a.start) && shows_instant(w2, a.end) && s == #[trigger] line_of(a.id, w1, w2)
}

/// Relies on std's `format!` for the line of an appointment; `{}` of a
/// `usize` writes its decimal digits.
#[verifier::external_body]
fn format_line(id: usize, start: &String, end: &String) -> (r: String)
    ensures
        r@ == "Appointment #"@ + decimal(id as nat) + ": "@ + start@ + " - "@ + end@,
{
    format!("Appointment #{}: {} - {}", id, start, end)
}

/// Relies on std's `format!` for the closing line that names the earliest
/// appointment.
#[verifier::external_body]
fn format_best(line: &String) -> (r: String)
    ensures
        r@ == "Best option is "@ + line@,
{
    format!("Best option is {}", line)
}

impl Appointment {
    /// The line of the appointment, with its bounds shown on the given clocks.
    pub fn line(&self, start: &WallClock, end: &WallClock) -> (r: String)
        requires
            valid_clock(*start),
            valid_clock(*end),
        ensures
            r@ == line_of(self.id, *start, *end),
    {
        let s = stamp(start);
        let e = stamp(end);
        format_line(self.id, &s, &e)
    }

    /// The line of the appointment in local time; an error names the first
    /// bound that is out of range.
    pub fn describe(&self) -> (r: Result<String, TimestampError>)
        ensures
            r is Ok <==> in_range(self.start) && in_range(self.end),
            r matches Ok(s) ==> is_line(*self, s@),
            r matches Err(e) ==> e.value == if in_range(self.start) { self.end } else { self.start },
    {
        if self.start < -INSTANT_LIMIT || self.start > INSTANT_LIMIT {
            return Err(TimestampError { value: self.start });
        }
        if self.end < -INSTANT_LIMIT || self.end > INSTANT_LIMIT {
            return Err(TimestampError { value: self.end });
        }
        let w1 = local_clock(self.start);
        let w2 = local_clock(self.end);
        let s = self.line(&w1, &w2);
        assert(s@ == line_of(self.id, w1, w2));
        Ok(s)
    }
}

/// The printed report: one line per appointment in the given order, a blank
/// line, then the earliest appointment or word that there is none.
pub fn report(appointments: &Vec<Appointment>) -> (r: Result<Vec<String>, TimestampError>)
    ensures
        r is Ok <==> forall|k: int|
            0 <= k < appointments@.len() ==> in_range(#[trigger] appointments@[k].start) && in_range(appointments@[k].end),
        r matches Err(e) ==> exists|k: int|
            0 <= k < appointments@.len() && (e.value == #[trigger] appointments@[k].start || e.value == appointments@[k].end)
                && !in_range(e.value),
        r matches Ok(lines) ==> {
            let n = appointments@.len();
            &&& lines@.len() == n + 2
            &&& forall|k: int| 0 <= k < n ==> is_line(appointments@[k], #[trigger] lines@[k]@)
            &&& lines@[n as int]@ == Seq::<char>::empty()
            &&& n == 0 ==> lines@[n + 1int]@ == "No appointments found."@
            &&& n > 0 ==> lines@[n + 1int]@ == "Best option is "@ + lines@[0]@
        },
{
    let mut lines: Vec<String> = Vec::new();
    let mut k: usize = 0;
    while k < appointments.len()
        invariant
            k <= appointments@.len(),
            lines@.len() == k,
            forall|i: int| 0 <= i < k ==> in_range(#[trigger] appointments@[i].start) && in_range(appointments@[i].end),
            forall|i: int| 0 <= i < k ==> is_line(appointments@[i], #[trigger] lines@[i]@),
        decreases appointments@.len() - k,
    {
        let a = appointments[k];
        match a.describe() {
            Ok(s) => {
                lines.push(s);
                assert forall|i: int| 0 <= i < k + 1 implies in_range(#[trigger] appointments@[i].start)
                    && in_range(appointments@[i].end) by {
                    if i == k {
                        assert(appointments@[i] == a);
                    }
                }
            },
            Err(e) => {
                assert(0 <= k < appointments@.len() && (e.value == appointments@[k as int].start || e.value == appointments@[k as int].end));
                return Err(e);
            },
        }
        k = k + 1;
    }
    let n = lines.len();
    lines.push(String::new());
    if n == 0 {
        lines.push("No appointments found.".to_owned());
    } else {
        let best = format_best(&lines[0]);
        lines.push(best);
    }
    Ok(lines)
}

} // verus!
