//! The ways in which reading or writing a day's log can fail.

use vstd::prelude::*;

verus! {

/// Why an operation was given up. Every failure ends the operation at once:
/// nothing is retried and no partial result is handed back.
#[derive(Clone, Copy, Debug, PartialEq, Eq, Structural)]
pub enum TrackError {
    /// A time field is not three decimal numbers separated by `:`.
    MalformedTime,
    /// The log does not split into rows that each hold a kind and a time.
    CorruptRecord,
    /// The storage behind the log reported a failure.
    Io,
}

impl TrackError {
    /// A one-line description for the user.
    pub fn message(&self) -> (text: &'static str)
        ensures
            text@ == match *self {
                TrackError::MalformedTime => "couldn't parse the time"@,
                TrackError::CorruptRecord => "couldn't read a record of the log"@,
                TrackError::Io => "couldn't reach the log"@,
            },
    {
        match self {
            TrackError::MalformedTime => "couldn't parse the time",
            TrackError::CorruptRecord => "couldn't read a record of the log",
            TrackError::Io => "couldn't reach the log",
        }
    }
}

} // verus!
