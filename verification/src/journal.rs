//! Journal records: one entry per executed operation, appended in execution
//! order, carrying a UTC timestamp, the paths, the operation and its result.

use vstd::prelude::*;
use crate::plan::OpKind;

verus! {

/// One reading of the UTC clock, to whole seconds.
#[derive(Debug, Clone, Copy, PartialEq, Eq, Structural)]
pub struct Timestamp {
    pub year: u64,
    pub month: u64,
    pub day: u64,
    pub hour: u64,
    pub minute: u64,
    pub second: u64,
}

impl Timestamp {
    pub open spec fn valid(self) -> bool {
        &&& self.year <= 9999
        &&& 1 <= self.month <= 12
        &&& 1 <= self.day <= 31
        &&& self.hour <= 23
        &&& self.minute <= 59
        &&& self.second <= 59
    }

    /// Builds a timestamp, clamping each component into its range.
    pub fn clamped(year: u64, month: u64, day: u64, hour: u64, minute: u64, second: u64) -> (r:
        Timestamp)
        ensures
            r.valid(),
            year <= 9999 && 1 <= month <= 12 && 1 <= day <= 31 && hour <= 23 && minute <= 59
                && second <= 59 ==> r == (Timestamp { year, month, day, hour, minute, second }),
    {
        Timestamp {
            year: if year > 9999 {
                9999
            } else {
                year
            },
            month: if month < 1 {
                1
            } else if month > 12 {
                12
            } else {
                month
            },
            day: if day < 1 {
                1
            } else if day > 31 {
                31
            } else {
                day
            },
            hour: if hour > 23 {
                23
            } else {
                hour
            },
            minute: if minute > 59 {
                59
            } else {
                minute
            },
            second: if second > 59 {
                59
            } else {
                second
            },
        }
    }

    /// The current UTC time, to whole seconds.
    pub fn now() -> (r: Timestamp)
        ensures
            r.valid(),
    {
        let (y, mo, d, h, mi, s) = current_utc_parts();
        let year: u64 = if y < 0 {
            0
        } else if y > 9999 {
            9999
        } else {
            y as u64
        };
        Timestamp::clamped(year, mo as u64, d as u64, h as u64, mi as u64, s as u64)
    }
}

/// Relies on `chrono::DateTime::from_timestamp` with the `Datelike` and
/// `Timelike` accessors: the month is 1 to 12, the day 1 to 31, the hour 0
/// to 23, the minute and second 0 to 59. The clock is read through
/// `SystemTime`, falling back to the epoch when the system clock precedes
/// it or overflows the calendar, so no reading panics.
#[verifier::external_body]
fn current_utc_parts() -> (r: (i32, u32, u32, u32, u32, u32))
    ensures
        1 <= r.1 <= 12,
        1 <= r.2 <= 31,
        r.3 <= 23,
        r.4 <= 59,
        r.5 <= 59,
{
    let secs: i64 = std::time::SystemTime::now()
        .duration_since(std::time::UNIX_EPOCH)
        .map(|d| d.as_secs() as i64)
        .unwrap_or(0);
    let now = chrono::DateTime::<chrono::Utc>::from_timestamp(secs, 0).unwrap_or_default();
    (
        chrono::Datelike::year(&now),
        chrono::Datelike::month(&now),
        chrono::Datelike::day(&now),
        chrono::Timelike::hour(&now),
        chrono::Timelike::minute(&now),
        chrono::Timelike::second(&now),
    )
}

/// The outcome recorded for one executed operation.
#[derive(Debug, Clone, Copy, PartialEq, Eq, Structural)]
pub enum ResultKind {
    Done,
    Skip,
    Failed,
}

/// One executed operation: when, from where, to where, what, and how it
/// ended.
#[derive(Debug, Clone, PartialEq)]
pub struct JournalEntry {
    pub when_utc: Timestamp,
    pub source: String,
    pub dest: String,
    pub op: OpKind,
    pub result: ResultKind,
    pub message: Option<String>,
}

impl JournalEntry {
    /// A successful entry stamped with the current UTC time.
    pub fn new(source: String, dest: String, op: OpKind) -> (r: Self)
        ensures
            r.when_utc.valid(),
            r.source@ == source@,
            r.dest@ == dest@,
            r.op == op,
            r.result == ResultKind::Done,
            r.message is None,
    {
        Self { when_utc: Timestamp::now(), source, dest, op, result: ResultKind::Done, message: None }
    }

    pub fn with_result(self, result: ResultKind) -> (r: Self)
        ensures
            r == (Self { result, ..self }),
    {
        Self { result, ..self }
    }

    pub fn with_message(self, message: String) -> (r: Self)
        ensures
            r == (Self { message: Some(message), ..self }),
    {
        Self { message: Some(message), ..self }
    }

    pub fn failed(self, message: String) -> (r: Self)
        ensures
            r == (Self { result: ResultKind::Failed, message: Some(message), ..self }),
    {
        Self { result: ResultKind::Failed, message: Some(message), ..self }
    }

    pub fn skipped(self, message: String) -> (r: Self)
        ensures
            r == (Self { result: ResultKind::Skip, message: Some(message), ..self }),
    {
        Self { result: ResultKind::Skip, message: Some(message), ..self }
    }
}

/// The outcome of an undo run. The duration is in whole seconds.
#[derive(Debug, Clone, PartialEq)]
pub struct UndoResult {
    pub restored_count: u64,
    pub failed_count: u64,
    pub total_duration_secs: u64,
    pub failed_restores: Vec<FailedRestore>,
}

/// One restore that could not be carried out.
#[derive(Debug, Clone, PartialEq)]
pub struct FailedRestore {
    pub original_source: String,
    pub original_dest: String,
    pub error: String,
}

} // verus!
