//! A work-time tracker: a day's log of clock-in and clock-out stamps, the
//! worked duration derived from it, and the text forms both are stored in.
//!
//! The library never reads a clock and never touches a file. It is handed
//! the time of a stamp and what a day's log holds, and hands back what to
//! append to the log or what to tell the user.

pub mod clock;
pub mod daylog;
pub mod engine;
pub mod error;
pub mod event;
pub mod report;
pub mod store;
pub mod text;

pub use clock::{_hhmmss_distance, hhmmss_to_s, s_to_hhmm, s_to_hhmmss};
pub use daylog::{get_report, read_all, read_work_time, update_time, write_record};
pub use engine::{decide_next_kind, stamp, summarize, DaySummary};
pub use error::TrackError;
pub use event::{Event, EventKind, Record};
pub use report::{day_report, DayReport};
pub use store::file_name;
