//! What to tell the user about a day.

use vstd::prelude::*;
use vstd::string::*;
use crate::clock::{hhmm, s_to_hhmm};
use crate::engine::{
    first_clock_in, is_open, lemma_net_duration_bounds, net_duration, summarize, time_limit,
};
use crate::event::Event;

verus! {

/// The answer to a question about one day.
#[derive(Clone, Debug, PartialEq, Eq)]
pub enum DayReport {
    /// The day has no log: no stamp was made on it.
    NotStarted,
    /// The day is open: a clock-in still waits for its clock-out.
    NotFinished,
    /// The day is finished. The three texts are `HH:MM`: the time worked,
    /// the first clock-in, and the first clock-in plus the time worked.
    Worked { duration: String, from: String, to: String },
}

/// What a [`DayReport`] holds, as plain text.
pub enum ReportText {
    NotStarted,
    NotFinished,
    Worked { duration: Seq<char>, from: Seq<char>, to: Seq<char> },
}

impl View for DayReport {
    type V = ReportText;

    open spec fn view(&self) -> ReportText {
        match *self {
            DayReport::NotStarted => ReportText::NotStarted,
            DayReport::NotFinished => ReportText::NotFinished,
            DayReport::Worked { duration, from, to } => ReportText::Worked {
                duration: duration@,
                from: from@,
                to: to@,
            },
        }
    }
}

/// The report on a day, from its events or from their absence.
pub open spec fn report_of(log: Option<Seq<Event>>) -> ReportText {
    match log {
        None => ReportText::NotStarted,
        Some(events) => if is_open(events) {
            ReportText::NotFinished
        } else {
            let net = net_duration(events);
            let start = match first_clock_in(events) {
                Some(t) => t,
                None => 0,
            };
            ReportText::Worked { duration: hhmm(net), from: hhmm(start), to: hhmm(start + net) }
        },
    }
}

/// The lines that a report is shown as. `day` is the date asked about.
pub open spec fn report_message(report: ReportText, day: Seq<char>) -> Seq<char> {
    match report {
        ReportText::NotStarted => "Work hasn't started yet."@,
        ReportText::NotFinished => "Work ain't over yet."@,
        ReportText::Worked { duration, from, to } => "Worked for "@ + duration + " on "@ + day
            + ".\nFrom "@ + from + " to "@ + to,
    }
}

/// Reports on a day. `log` holds the day's events, or nothing if the day has
/// no log at all; a log without events is not the same as no log.
pub fn day_report(log: Option<&Vec<Event>>) -> (report: DayReport)
    ensures
        report@ == report_of(
            match log {
                Some(events) => Some(events@),
                None => None,
            },
        ),
{
    match log {
        None => DayReport::NotStarted,
        Some(events) => {
            let summary = summarize(events);
            if summary.is_open {
                DayReport::NotFinished
            } else {
                proof {
                    lemma_net_duration_bounds(events@);
                    assert(events@.len() == events.len() <= 0xffff_ffff_ffff_ffff);
                }
                let start: i128 = summary.first_clock_in as i128;
                let end: i128 = start + summary.net_duration;
                DayReport::Worked {
                    duration: s_to_hhmm(summary.net_duration),
                    from: s_to_hhmm(start),
                    to: s_to_hhmm(end),
                }
            }
        },
    }
}

impl DayReport {
    /// True when the report is an answer: the day is finished. The other two
    /// reports say why there is none.
    pub fn is_answer(&self) -> (yes: bool)
        ensures
            yes == (self@ is Worked),
    {
        match self {
            DayReport::Worked { .. } => true,
            _ => false,
        }
    }

    /// The lines to show for this report. `day` is the date asked about.
    pub fn message(&self, day: &str) -> (text: String)
        ensures
            text@ == report_message(self@, day@),
    {
        match self {
            DayReport::NotStarted => "Work hasn't started yet.".to_owned(),
            DayReport::NotFinished => "Work ain't over yet.".to_owned(),
            DayReport::Worked { duration, from, to } => {
                let mut text = "Worked for ".to_owned();
                text.append(duration.as_str());
                text.append(" on ");
                text.append(day);
                text.append(".\nFrom ");
                text.append(from.as_str());
                text.append(" to ");
                text.append(to.as_str());
                text
            },
        }
    }
}

} // verus!
