//! The log of one day: an append-only file of comma-separated rows.
//!
//! The first row names the columns, `kind` and `time`; every row after it
//! stores one event. Rows are cut into fields, and fields are joined into
//! rows, by the `csv` crate. What this module adds is which column is which,
//! when a row is corrupt, and what is appended for a stamp. It never touches
//! a file: it is handed what the log holds and hands back what to append.

use vstd::prelude::*;
use vstd::string::*;
use crate::clock::{clock_seconds, hhmmss_to_s};
use crate::engine::{decide_next_kind, first_clock_in, is_open, net_duration, next_kind, summarize, DaySummary};
use crate::error::TrackError;
use crate::event::{decoded, kind_tag, Event, Record, RecordText};
use crate::report::{day_report, report_of, DayReport};
use crate::text::str_eq;

verus! {

/// The error type of the `csv` crate. Nothing is known of what one holds.
#[verifier::external_type_specification]
#[verifier::external_body]
pub struct ExCsvError(csv::Error);

/// The rows that the `csv` crate reads from `data`, each a list of fields,
/// or nothing where it reports an error. With `has_headers` false the first
/// row is handed out with the others.
pub uninterp spec fn csv_rows(data: Seq<u8>, has_headers: bool) -> Option<Seq<Seq<Seq<char>>>>;

/// The bytes that the `csv` crate writes for one row of `fields`, its line
/// end included, or nothing where it reports an error.
pub uninterp spec fn csv_row_bytes(fields: Seq<Seq<char>>) -> Option<Seq<u8>>;

/// Reads all of `data` with `csv::Reader::records`, on a reader that
/// `csv::ReaderBuilder` made with its defaults but for `has_headers`.
///
/// The claim: what comes back depends on `data` and `has_headers` alone. It
/// is the reader's rows in their order, each with its fields as text, or the
/// first error that the reader reported, after which nothing more is read.
#[verifier::external_body]
fn read_rows(data: &[u8], has_headers: bool) -> (r: Result<Vec<Vec<String>>, csv::Error>)
    ensures
        match r {
            Ok(rows) => csv_rows(data@, has_headers) == Some(rows.deep_view()),
            Err(_) => csv_rows(data@, has_headers) is None,
        },
{
    let mut reader = csv::ReaderBuilder::new().has_headers(has_headers).from_reader(data);
    reader.records().map(|row| row.map(|fields| fields.iter().map(|f| f.to_owned()).collect())).collect()
}

/// Writes `fields` as one row with `csv::Writer::write_record`, on a writer
/// that `csv::Writer::from_writer` made over an empty buffer, and takes the
/// buffer back with `csv::Writer::into_inner`.
///
/// The claim: what comes back depends on `fields` alone. It is the bytes of
/// the row, or the error that the writer reported.
#[verifier::external_body]
fn write_row(fields: &Vec<String>) -> (r: Result<Vec<u8>, csv::Error>)
    ensures
        match r {
            Ok(bytes) => csv_row_bytes(fields.deep_view()) == Some(bytes@),
            Err(_) => csv_row_bytes(fields.deep_view()) is None,
        },
{
    let mut writer = csv::Writer::from_writer(Vec::new());
    writer.write_record(fields)?;
    writer.into_inner().map_err(|e| csv::Error::from(e.into_error()))
}

/// True when `i` is the one column of `header` that is called `name`.
pub open spec fn is_column(header: Seq<Seq<char>>, name: Seq<char>, i: int) -> bool {
    &&& 0 <= i < header.len()
    &&& header[i] == name
    &&& forall|j: int| #![trigger header[j]] 0 <= j < header.len() && header[j] == name ==> j == i
}

/// The place of the column called `name`. A header that lacks the name, or
/// has it twice, has no such column.
pub open spec fn column(header: Seq<Seq<char>>, name: Seq<char>) -> Option<int> {
    if exists|i: int| is_column(header, name, i) {
        Some(choose|i: int| is_column(header, name, i))
    } else {
        None
    }
}

/// The record in a row, under the given header: the fields in the columns
/// `kind` and `time`. There is none if the header lacks one of the two
/// columns or has it twice, or if the row is too short to reach them. Other
/// columns are passed over.
pub open spec fn record_of(header: Seq<Seq<char>>, row: Seq<Seq<char>>) -> Option<RecordText> {
    match (column(header, "kind"@), column(header, "time"@)) {
        (Some(k), Some(t)) => if k < row.len() && t < row.len() {
            Some(RecordText { kind: row[k], time: row[t] })
        } else {
            None
        },
        _ => None,
    }
}

/// The records of a log, from all of its rows. The first row is the header.
/// One row without a record spoils the log: there is no partial result.
pub open spec fn log_records(rows: Seq<Seq<Seq<char>>>) -> Option<Seq<RecordText>> {
    if rows.len() == 0 {
        Some(Seq::empty())
    } else if forall|i: int| 1 <= i < rows.len() ==> (#[trigger] record_of(rows[0], rows[i])) is Some {
        Some(Seq::new((rows.len() - 1) as nat, |i: int| record_of(rows[0], rows[i + 1])->0))
    } else {
        None
    }
}

/// The events that records store, in their order. One malformed time spoils
/// them all.
pub open spec fn events_of(records: Seq<RecordText>) -> Result<Seq<Event>, TrackError> {
    if forall|i: int| 0 <= i < records.len() ==> (#[trigger] decoded(records[i])) is Ok {
        Ok(Seq::new(records.len(), |i: int| decoded(records[i])->Ok_0))
    } else {
        Err(TrackError::MalformedTime)
    }
}

/// The events of a log, from what the reader made of it. Rows are checked
/// before times: a log with a corrupt row is corrupt, whatever its times.
pub open spec fn log_events(rows: Option<Seq<Seq<Seq<char>>>>) -> Result<Seq<Event>, TrackError> {
    match rows {
        None => Err(TrackError::CorruptRecord),
        Some(rows) => match log_records(rows) {
            None => Err(TrackError::CorruptRecord),
            Some(records) => events_of(records),
        },
    }
}

impl DeepView for Record {
    type V = RecordText;

    open spec fn deep_view(&self) -> RecordText {
        self@
    }
}

/// Finds the column of `header` that is called `name`.
fn find_column(header: &Vec<String>, name: &str) -> (r: Option<usize>)
    ensures
        match r {
            Some(i) => column(header.deep_view(), name@) == Some(i as int),
            None => column(header.deep_view(), name@) is None,
        },
{
    let ghost h = header.deep_view();
    let mut found: Option<usize> = None;
    let mut k: usize = 0;
    while k < header.len()
        invariant
            k <= header.len(),
            h == header.deep_view(),
            h.len() == header.len(),
            match found {
                Some(i) => i < k && h[i as int] == name@ && forall|j: int|
                    #![trigger h[j]]
                    0 <= j < k && h[j] == name@ ==> j == i,
                None => forall|j: int| #![trigger h[j]] 0 <= j < k ==> h[j] != name@,
            },
        decreases header.len() - k,
    {
        assert(h[k as int] == header@[k as int]@);
        if str_eq(header[k].as_str(), name) {
            match found {
                Some(i) => {
                    return None;
                },
                None => {
                    found = Some(k);
                },
            }
        }
        k = k + 1;
    }
    proof {
        if let Some(i) = found {
            assert(is_column(h, name@, i as int));
        }
    }
    found
}

/// Takes the records out of the rows of a log. The first row is the header;
/// it says where the kind and the time stand in every row after it.
///
/// It fails, with `CorruptRecord`, if and only if some row after the header
/// holds no record: see [`record_of`]. A log without rows, or with a header
/// only, has no records and is in order.
pub fn decode_rows(rows: &Vec<Vec<String>>) -> (r: Result<Vec<Record>, TrackError>)
    ensures
        match r {
            Ok(records) => log_records(rows.deep_view()) == Some(records.deep_view()),
            Err(e) => e == TrackError::CorruptRecord && log_records(rows.deep_view()) is None,
        },
{
    let ghost all = rows.deep_view();
    let mut records: Vec<Record> = Vec::new();
    if rows.len() == 0 {
        return Ok(records);
    }
    let kind_column = find_column(&rows[0], "kind");
    let time_column = find_column(&rows[0], "time");
    let mut i: usize = 1;
    while i < rows.len()
        invariant
            1 <= i <= rows.len(),
            all == rows.deep_view(),
            all.len() == rows.len(),
            match kind_column {
                Some(k) => column(all[0], "kind"@) == Some(k as int),
                None => column(all[0], "kind"@) is None,
            },
            match time_column {
                Some(t) => column(all[0], "time"@) == Some(t as int),
                None => column(all[0], "time"@) is None,
            },
            records.len() == i - 1,
            forall|n: int| 1 <= n < i ==> (#[trigger] record_of(all[0], all[n])) == Some(records@[n - 1]@),
        decreases rows.len() - i,
    {
        let row = &rows[i];
        let record = match (kind_column, time_column) {
            (Some(k), Some(t)) => {
                if k < row.len() && t < row.len() {
                    Record { kind: row[k].clone(), time: row[t].clone() }
                } else {
                    assert(record_of(all[0], all[i as int]) is None);
                    return Err(TrackError::CorruptRecord);
                }
            },
            _ => {
                return Err(TrackError::CorruptRecord);
            },
        };
        records.push(record);
        i = i + 1;
    }
    assert(log_records(all) == Some(records.deep_view()));
    Ok(records)
}

/// Turns the records of a log into its events, in their order.
///
/// It fails, with `MalformedTime`, if and only if some record's time is not
/// well-formed.
pub fn decode_records(records: &Vec<Record>) -> (r: Result<Vec<Event>, TrackError>)
    ensures
        match r {
            Ok(events) => events_of(records.deep_view()) == Ok::<Seq<Event>, TrackError>(events@),
            Err(e) => events_of(records.deep_view()) == Err::<Seq<Event>, TrackError>(e),
        },
{
    let ghost all = records.deep_view();
    let mut events: Vec<Event> = Vec::new();
    let mut i: usize = 0;
    while i < records.len()
        invariant
            i <= records.len(),
            all == records.deep_view(),
            all.len() == records.len(),
            events.len() == i,
            forall|n: int| 0 <= n < i ==> (#[trigger] decoded(all[n])) == Ok::<Event, TrackError>(
                events@[n],
            ),
        decreases records.len() - i,
    {
        assert(all[i as int] == records@[i as int]@);
        match records[i].decode() {
            Ok(event) => {
                events.push(event);
            },
            Err(e) => {
                return Err(e);
            },
        }
        i = i + 1;
    }
    assert(events@ =~= events_of(all)->Ok_0);
    Ok(events)
}

/// True when the summary is that of the events.
pub open spec fn sums_up(summary: DaySummary, events: Seq<Event>) -> bool {
    &&& summary.net_duration == net_duration(events)
    &&& summary.first_clock_in == match first_clock_in(events) {
        Some(t) => t,
        None => 0,
    }
    &&& summary.is_open == is_open(events)
}

/// What is appended to a log of `log_len` bytes to store `record`: the row
/// of the record, and before it the header row if the log is still empty.
pub open spec fn appended(log_len: int, record: RecordText) -> Result<Seq<u8>, TrackError> {
    let header = if log_len == 0 {
        csv_row_bytes(seq!["kind"@, "time"@])
    } else {
        Some(Seq::empty())
    };
    match (header, csv_row_bytes(seq![record.kind, record.time])) {
        (Some(h), Some(r)) => Ok(h + r),
        _ => Err(TrackError::Io),
    }
}

/// What a stamp at `time` appends to a log that holds `log_len` bytes, which
/// the reader cut into `rows`. The log is read first, the time is checked
/// next, and only then is anything written.
pub open spec fn stamp_bytes(rows: Option<Seq<Seq<Seq<char>>>>, log_len: int, time: Seq<char>) -> Result<
    Seq<u8>,
    TrackError,
> {
    match log_events(rows) {
        Err(e) => Err(e),
        Ok(events) => if clock_seconds(time) is Some {
            appended(log_len, RecordText { kind: kind_tag(next_kind(events)), time })
        } else {
            Err(TrackError::MalformedTime)
        },
    }
}

/// Reads every event of a log, in the order of its rows.
///
/// `data` is all that the log holds. It fails with `CorruptRecord` where the
/// bytes do not split into rows or a row holds no record, and with
/// `MalformedTime` where a record's time is not well-formed; rows are looked
/// at before times. Nothing is skipped: one bad row spoils the read.
pub fn read_all(data: &[u8]) -> (r: Result<Vec<Event>, TrackError>)
    ensures
        match r {
            Ok(events) => log_events(csv_rows(data@, false)) == Ok::<Seq<Event>, TrackError>(
                events@,
            ),
            Err(e) => log_events(csv_rows(data@, false)) == Err::<Seq<Event>, TrackError>(e),
        },
{
    let rows = match read_rows(data, false) {
        Ok(rows) => rows,
        Err(_) => {
            return Err(TrackError::CorruptRecord);
        },
    };
    let records = match decode_rows(&rows) {
        Ok(records) => records,
        Err(e) => {
            return Err(e);
        },
    };
    decode_records(&records)
}

/// Reads a log and adds up its events.
///
/// It fails where [`read_all`] fails, with the same error.
pub fn read_work_time(data: &[u8]) -> (r: Result<DaySummary, TrackError>)
    ensures
        match r {
            Ok(summary) => log_events(csv_rows(data@, false)) is Ok && sums_up(
                summary,
                log_events(csv_rows(data@, false))->Ok_0,
            ),
            Err(e) => log_events(csv_rows(data@, false)) == Err::<Seq<Event>, TrackError>(e),
        },
{
    match read_all(data) {
        Ok(events) => Ok(summarize(&events)),
        Err(e) => Err(e),
    }
}

/// Adds a row that the writer made to what will be appended, or gives up
/// with `Io` if the writer reported an error; `out` is then left as it was.
pub fn push_row(out: &mut Vec<u8>, row: Result<Vec<u8>, csv::Error>) -> (r: Result<(), TrackError>)
    ensures
        match row {
            Ok(bytes) => r is Ok && final(out)@ == old(out)@ + bytes@,
            Err(_) => r == Err::<(), TrackError>(TrackError::Io) && final(out)@ == old(out)@,
        },
{
    match row {
        Ok(bytes) => {
            let mut bytes = bytes;
            out.append(&mut bytes);
            Ok(())
        },
        Err(_) => Err(TrackError::Io),
    }
}

/// Makes the bytes that store `record` at the end of a log.
///
/// `log_len` is the size of the log before the write. An empty log gets the
/// header row first; a log that holds anything gets the record's row alone.
/// It fails, with `Io`, if and only if the writer reports an error.
pub fn write_record(log_len: u64, record: &Record) -> (r: Result<Vec<u8>, TrackError>)
    ensures
        match r {
            Ok(bytes) => appended(log_len as int, record@) == Ok::<Seq<u8>, TrackError>(bytes@),
            Err(e) => appended(log_len as int, record@) == Err::<Seq<u8>, TrackError>(e),
        },
{
    let mut out: Vec<u8> = Vec::new();
    if log_len == 0 {
        let mut header: Vec<String> = Vec::new();
        header.push("kind".to_owned());
        header.push("time".to_owned());
        assert(header.deep_view() =~= seq!["kind"@, "time"@]);
        match push_row(&mut out, write_row(&header)) {
            Ok(()) => {},
            Err(e) => {
                return Err(e);
            },
        }
    }
    let mut fields: Vec<String> = Vec::new();
    fields.push(record.kind.clone());
    fields.push(record.time.clone());
    assert(fields.deep_view() =~= seq![record.kind@, record.time@]);
    let ghost before = out@;
    match push_row(&mut out, write_row(&fields)) {
        Ok(()) => {
            Ok(out)
        },
        Err(e) => Err(e),
    }
}

/// Makes a stamp: reads the log, decides whether the stamp clocks in or out,
/// and hands back the bytes to append.
///
/// `data` is all that the log holds, nothing for a day without a log; `time`
/// is the time of the stamp as `HH:MM:SS`, and is stored as it is given. The
/// stamp clocks out if the day is open and in if it is not. It fails where
/// reading the log fails, then with `MalformedTime` if `time` is not
/// well-formed, then where writing fails.
pub fn update_time(data: &[u8], time: &str) -> (r: Result<Vec<u8>, TrackError>)
    ensures
        match r {
            Ok(bytes) => stamp_bytes(csv_rows(data@, false), data@.len() as int, time@) == Ok::<
                Seq<u8>,
                TrackError,
            >(bytes@),
            Err(e) => stamp_bytes(csv_rows(data@, false), data@.len() as int, time@) == Err::<
                Seq<u8>,
                TrackError,
            >(e),
        },
{
    let summary = match read_work_time(data) {
        Ok(summary) => summary,
        Err(e) => {
            return Err(e);
        },
    };
    match hhmmss_to_s(time) {
        Ok(_) => {},
        Err(e) => {
            return Err(e);
        },
    }
    let kind = decide_next_kind(&summary);
    let record = Record { kind: kind.tag().to_owned(), time: time.to_owned() };
    write_record(data.len() as u64, &record)
}

/// Answers a question about a day from its log.
///
/// `data` is all that the day's log holds, or nothing if the day has no log.
/// It fails where [`read_all`] fails, with the same error.
pub fn get_report(data: Option<&[u8]>) -> (r: Result<DayReport, TrackError>)
    ensures
        match data {
            None => r is Ok && r->Ok_0@ == report_of(None),
            Some(bytes) => match log_events(csv_rows(bytes@, false)) {
                Ok(events) => r is Ok && r->Ok_0@ == report_of(Some(events)),
                Err(e) => r == Err::<DayReport, TrackError>(e),
            },
        },
{
    match data {
        None => Ok(day_report(None)),
        Some(bytes) => match read_all(bytes) {
            Ok(events) => Ok(day_report(Some(&events))),
            Err(e) => Err(e),
        },
    }
}

} // verus!
