//! The events of a day and the records that store them.
//!
//! An event is a clock-in or a clock-out at a second of the day. It is stored
//! as a record of two texts: a tag for the kind and the time as `HH:MM:SS`.

use vstd::prelude::*;
use vstd::string::*;
use crate::clock::{clock_seconds, hhmmss, hhmmss_to_s, lemma_hhmmss_reads_back, s_to_hhmmss};
use crate::error::TrackError;
use crate::text::str_eq;

verus! {

/// Whether a stamp starts work or ends it.
#[derive(Clone, Copy, Debug, PartialEq, Eq, Structural)]
pub enum EventKind {
    /// Work starts.
    ClockIn,
    /// Work stops: a break, or the end of the day.
    ClockOut,
}

/// One stamp: its kind and its time in seconds since midnight.
#[derive(Clone, Copy, Debug, PartialEq, Eq, Structural)]
pub struct Event {
    pub kind: EventKind,
    pub time: i64,
}

/// An event as it is stored: the tag of its kind, and its time as text.
#[derive(Clone, Debug, PartialEq, Eq)]
pub struct Record {
    pub kind: String,
    pub time: String,
}

/// What a [`Record`] holds, as plain text.
pub struct RecordText {
    pub kind: Seq<char>,
    pub time: Seq<char>,
}

impl View for Record {
    type V = RecordText;

    open spec fn view(&self) -> RecordText {
        RecordText { kind: self.kind@, time: self.time@ }
    }
}

/// The tag under which a kind is stored.
pub open spec fn kind_tag(kind: EventKind) -> Seq<char> {
    match kind {
        EventKind::ClockIn => "strt"@,
        EventKind::ClockOut => "stop"@,
    }
}

/// The kind that a stored tag stands for. The tag of a clock-in is the only
/// one that is looked for: every other tag counts as a clock-out.
pub open spec fn tag_kind(tag: Seq<char>) -> EventKind {
    if tag == "strt"@ {
        EventKind::ClockIn
    } else {
        EventKind::ClockOut
    }
}

/// The record that stores an event.
pub open spec fn encoded(event: Event) -> RecordText {
    RecordText { kind: kind_tag(event.kind), time: hhmmss(event.time as int) }
}

/// The event that a record stores, if its time is well-formed.
pub open spec fn decoded(record: RecordText) -> Result<Event, TrackError> {
    match clock_seconds(record.time) {
        Some(t) => Ok(Event { kind: tag_kind(record.kind), time: t as i64 }),
        None => Err(TrackError::MalformedTime),
    }
}

impl EventKind {
    /// The tag under which this kind is stored.
    pub fn tag(&self) -> (tag: &'static str)
        ensures
            tag@ == kind_tag(*self),
    {
        match self {
            EventKind::ClockIn => "strt",
            EventKind::ClockOut => "stop",
        }
    }

    /// The kind that a stored tag stands for.
    pub fn from_tag(tag: &str) -> (kind: EventKind)
        ensures
            kind == tag_kind(tag@),
    {
        if str_eq(tag, "strt") {
            EventKind::ClockIn
        } else {
            EventKind::ClockOut
        }
    }
}

impl Event {
    /// The record that stores this event.
    pub fn encode(&self) -> (record: Record)
        ensures
            record@ == encoded(*self),
    {
        Record { kind: self.kind.tag().to_owned(), time: s_to_hhmmss(self.time as i128) }
    }
}

impl Record {
    /// The event that this record stores. It fails if and only if the time
    /// is not well-formed; the kind is never turned away.
    pub fn decode(&self) -> (r: Result<Event, TrackError>)
        ensures
            r == decoded(self@),
    {
        match hhmmss_to_s(self.time.as_str()) {
            Ok(time) => Ok(Event { kind: EventKind::from_tag(self.kind.as_str()), time }),
            Err(e) => Err(e),
        }
    }
}

/// The two tags differ, so a kind is found again from its tag.
pub proof fn lemma_tag_names_its_kind(kind: EventKind)
    ensures
        tag_kind(kind_tag(kind)) == kind,
{
    reveal_strlit("strt");
    reveal_strlit("stop");
    assert("stop"@[2] != "strt"@[2]);
}

/// Storing an event and reading the record back gives the same event, for
/// every event whose time is not negative.
pub proof fn lemma_decode_encode(event: Event)
    requires
        event.time >= 0,
    ensures
        decoded(encoded(event)) == Ok::<Event, TrackError>(event),
{
    lemma_tag_names_its_kind(event.kind);
    lemma_hhmmss_reads_back(event.time as int);
}

} // verus!
