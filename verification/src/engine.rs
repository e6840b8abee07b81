//! What a day's events add up to, and which kind of stamp comes next.
//!
//! The worked time of a day is the sum of its clock-out times minus the sum
//! of its clock-in times. The sums do not pair the events up: while a
//! clock-in waits for its clock-out the difference is below zero, and that is
//! all that tells an open day from a finished one. The result means what it
//! says only where clock-ins and clock-outs take turns, a clock-in first.

use vstd::prelude::*;
use crate::event::{Event, EventKind};

verus! {

/// What a day's events add up to.
#[derive(Clone, Copy, Debug, PartialEq, Eq, Structural)]
pub struct DaySummary {
    /// The time of the first clock-in, or 0 if there is none.
    pub first_clock_in: i64,
    /// Clock-out times minus clock-in times, in seconds.
    pub net_duration: i128,
    /// Whether a clock-in still waits for its clock-out.
    pub is_open: bool,
}

/// What one event adds to the net duration: a clock-out adds its time, a
/// clock-in takes its time away.
pub open spec fn signed_time(event: Event) -> int {
    match event.kind {
        EventKind::ClockOut => event.time as int,
        EventKind::ClockIn => -(event.time as int),
    }
}

/// The sum of the clock-out times minus the sum of the clock-in times.
pub open spec fn net_duration(events: Seq<Event>) -> int
    decreases events.len(),
{
    if events.len() == 0 {
        0
    } else {
        net_duration(events.drop_last()) + signed_time(events.last())
    }
}

/// The sum of the times of the events of one kind.
pub open spec fn kind_sum(events: Seq<Event>, kind: EventKind) -> int
    decreases events.len(),
{
    if events.len() == 0 {
        0
    } else if events.last().kind == kind {
        kind_sum(events.drop_last(), kind) + events.last().time
    } else {
        kind_sum(events.drop_last(), kind)
    }
}

/// The net duration is what the clock-outs add up to, less what the
/// clock-ins add up to.
pub proof fn lemma_net_duration_is_outs_less_ins(events: Seq<Event>)
    ensures
        net_duration(events) == kind_sum(events, EventKind::ClockOut) - kind_sum(
            events,
            EventKind::ClockIn,
        ),
    decreases events.len(),
{
    if events.len() > 0 {
        lemma_net_duration_is_outs_less_ins(events.drop_last());
    }
}

/// The time of the earliest clock-in among the events, if there is one.
pub open spec fn first_clock_in(events: Seq<Event>) -> Option<int>
    decreases events.len(),
{
    if events.len() == 0 {
        None
    } else {
        match first_clock_in(events.drop_last()) {
            Some(t) => Some(t),
            None => if events.last().kind == EventKind::ClockIn {
                Some(events.last().time as int)
            } else {
                None
            },
        }
    }
}

/// A day is open while its net duration is below zero.
pub open spec fn is_open(events: Seq<Event>) -> bool {
    net_duration(events) < 0
}

/// The kind of the stamp that follows the events: a clock-out while the day
/// is open, a clock-in otherwise. What the last event was plays no part.
pub open spec fn next_kind(events: Seq<Event>) -> EventKind {
    if is_open(events) {
        EventKind::ClockOut
    } else {
        EventKind::ClockIn
    }
}

/// The largest magnitude of one event's time.
pub open spec fn time_limit() -> int {
    0x8000_0000_0000_0000
}

/// The net duration of `n` events lies within `n` times the largest time.
pub proof fn lemma_net_duration_bounds(events: Seq<Event>)
    ensures
        -(events.len() * time_limit()) <= net_duration(events) <= events.len() * time_limit(),
    decreases events.len(),
{
    if events.len() > 0 {
        lemma_net_duration_bounds(events.drop_last());
    }
}

/// The first clock-in is the event at the first place that holds one.
pub proof fn lemma_first_clock_in_is_first(events: Seq<Event>, i: int)
    requires
        0 <= i < events.len(),
        events[i].kind == EventKind::ClockIn,
        forall|j: int| 0 <= j < i ==> events[j].kind != EventKind::ClockIn,
    ensures
        first_clock_in(events) == Some(events[i].time as int),
    decreases events.len(),
{
    let before = events.drop_last();
    if i < events.len() - 1 {
        lemma_first_clock_in_is_first(before, i);
    } else {
        lemma_no_clock_in(before);
    }
}

/// Without a clock-in among the events there is no first one.
pub proof fn lemma_no_clock_in(events: Seq<Event>)
    requires
        forall|j: int| 0 <= j < events.len() ==> events[j].kind != EventKind::ClockIn,
    ensures
        first_clock_in(events) is None,
    decreases events.len(),
{
    if events.len() > 0 {
        lemma_no_clock_in(events.drop_last());
    }
}

/// Adds up a day's events.
pub fn summarize(events: &Vec<Event>) -> (summary: DaySummary)
    ensures
        summary.net_duration == net_duration(events@),
        summary.first_clock_in == match first_clock_in(events@) {
            Some(t) => t,
            None => 0,
        },
        summary.is_open == is_open(events@),
{
    let mut net: i128 = 0;
    let mut first: Option<i64> = None;
    let mut i: usize = 0;
    while i < events.len()
        invariant
            i <= events.len(),
            net == net_duration(events@.take(i as int)),
            -(i * time_limit()) <= net <= i * time_limit(),
            match first {
                Some(t) => first_clock_in(events@.take(i as int)) == Some(t as int),
                None => first_clock_in(events@.take(i as int)) is None,
            },
        decreases events.len() - i,
    {
        let event = events[i];
        proof {
            assert(events@.take(i + 1).drop_last() =~= events@.take(i as int));
        }
        match event.kind {
            EventKind::ClockOut => {
                net = net + (event.time as i128);
            },
            EventKind::ClockIn => {
                net = net - (event.time as i128);
                if first.is_none() {
                    first = Some(event.time);
                }
            },
        }
        i = i + 1;
    }
    assert(events@.take(i as int) =~= events@);
    DaySummary {
        first_clock_in: match first {
            Some(t) => t,
            None => 0,
        },
        net_duration: net,
        is_open: net < 0,
    }
}

/// Decides the kind of the next stamp from a day's summary: a clock-out if
/// the net duration is below zero, a clock-in otherwise.
pub fn decide_next_kind(summary: &DaySummary) -> (kind: EventKind)
    ensures
        kind == if summary.net_duration < 0 {
            EventKind::ClockOut
        } else {
            EventKind::ClockIn
        },
{
    if summary.net_duration < 0 {
        EventKind::ClockOut
    } else {
        EventKind::ClockIn
    }
}

/// The event that a stamp at `time` adds to the day's events.
pub fn stamp(events: &Vec<Event>, time: i64) -> (event: Event)
    ensures
        event == (Event { kind: next_kind(events@), time }),
{
    let summary = summarize(events);
    Event { kind: decide_next_kind(&summary), time }
}

/// The events of a day on which a stamp was made at each of `times` in turn,
/// starting from an empty log: each stamp gets the kind that the events
/// before it call for.
pub open spec fn stamped(times: Seq<i64>) -> Seq<Event>
    decreases times.len(),
{
    if times.len() == 0 {
        Seq::empty()
    } else {
        let before = stamped(times.drop_last());
        before.push(Event { kind: next_kind(before), time: times.last() })
    }
}

/// The kind at place `i` of a day whose stamps take turns, a clock-in first.
pub open spec fn turn(i: int) -> EventKind {
    if i % 2 == 0 {
        EventKind::ClockIn
    } else {
        EventKind::ClockOut
    }
}

/// Times that grow from one stamp to the next, the first one after midnight.
pub open spec fn rising(times: Seq<i64>) -> bool {
    &&& times.len() > 0 ==> times[0] > 0
    &&& forall|i: int, j: int| 0 <= i < j < times.len() ==> times[i] < times[j]
}

/// Stamps at rising times take turns, a clock-in first: the first stamp of a
/// day clocks in, the second out, the third in again, and so on. After an
/// even number of stamps the day is finished, after an odd number it is open.
pub proof fn lemma_stamps_take_turns(times: Seq<i64>)
    requires
        rising(times),
    ensures
        stamped(times).len() == times.len(),
        forall|i: int|
            0 <= i < times.len() ==> (#[trigger] stamped(times)[i]) == (Event {
                kind: turn(i),
                time: times[i],
            }),
        is_open(stamped(times)) <==> times.len() % 2 == 1,
        times.len() > 0 && times.len() % 2 == 0 ==> 0 <= net_duration(stamped(times))
            <= times.last(),
        times.len() % 2 == 1 ==> -times.last() <= net_duration(stamped(times)),
    decreases times.len(),
{
    if times.len() > 0 {
        let earlier = times.drop_last();
        lemma_stamps_take_turns(earlier);
        assert(stamped(times).drop_last() =~= stamped(earlier));
    }
}

} // verus!
