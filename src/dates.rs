//! The reporting period, read from the two dates a run is given.
use vstd::prelude::*;

verus! {

/// How a date is written: month, day, then the four-digit year.
pub const DATE_FORMAT: &'static str = "%m/%d/%Y";

/// The Unix time of midnight UTC that starts the day `s` names when read by
/// the pattern `fmt`, or `None` where `s` does not name a day by it.
pub uninterp spec fn day_start_stamp(s: Seq<char>, fmt: Seq<char>) -> Option<i64>;

/// Relies on chrono's `NaiveDate::parse_from_str` to read the date, and on
/// `and_hms_opt(0, 0, 0)`, `and_utc` and `timestamp` for the seconds since the
/// epoch at midnight UTC of that day. The result depends on the arguments alone.
#[verifier::external_body]
fn parse_day_start(s: &str, fmt: &str) -> (r: Option<i64>)
    ensures
        r == day_start_stamp(s@, fmt@),
{
    match chrono::NaiveDate::parse_from_str(s, fmt) {
        Ok(d) => match d.and_hms_opt(0, 0, 0) {
            Some(t) => Some(t.and_utc().timestamp()),
            None => None,
        },
        Err(_) => None,
    }
}

/// The period a report covers, in seconds since the epoch, both ends included.
#[derive(Clone, Copy, Debug, PartialEq, Eq, Structural)]
pub struct DateRange {
    pub from: i64,
    pub to: i64,
}

/// Why the dates of a run were refused.
#[derive(Clone, Copy, Debug, PartialEq, Eq, Structural)]
pub enum DateError {
    BadStartDate,
    BadEndDate,
}

/// What a run does with the dates it was given.
#[derive(Clone, Copy, Debug, PartialEq, Eq, Structural)]
pub enum RunPlan {
    /// A date is missing: show how to call the program, and stop.
    Usage,
    /// Report on this period.
    Report(DateRange),
}

/// The period between two read dates, or the error of the first that could
/// not be read.
pub open spec fn range_of(from: Option<i64>, to: Option<i64>) -> Result<DateRange, DateError> {
    match (from, to) {
        (Some(f), Some(t)) => Ok(DateRange { from: f, to: t }),
        (None, _) => Err(DateError::BadStartDate),
        (Some(_), None) => Err(DateError::BadEndDate),
    }
}

/// The plan for a run given its optional start and end dates.
pub open spec fn plan_of(start: Option<Seq<char>>, end: Option<Seq<char>>) -> Result<RunPlan, DateError> {
    match (start, end) {
        (Some(s), Some(e)) => match range_of(day_start_stamp(s, DATE_FORMAT@), day_start_stamp(e, DATE_FORMAT@)) {
            Ok(range) => Ok(RunPlan::Report(range)),
            Err(err) => Err(err),
        },
        _ => Ok(RunPlan::Usage),
    }
}

/// The period from two read dates; the start is judged first.
pub fn range_from_stamps(from: Option<i64>, to: Option<i64>) -> (r: Result<DateRange, DateError>)
    ensures
        r == range_of(from, to),
{
    match from {
        None => Err(DateError::BadStartDate),
        Some(f) => match to {
            None => Err(DateError::BadEndDate),
            Some(t) => Ok(DateRange { from: f, to: t }),
        },
    }
}

/// Decides a run from its optional start and end dates: usage help where
/// either is missing, otherwise the period they name, or the error of the
/// first one that is not a date.
pub fn plan_run(start: Option<&str>, end: Option<&str>) -> (r: Result<RunPlan, DateError>)
    ensures
        r == plan_of(
            match start { Some(s) => Some(s@), None => None },
            match end { Some(e) => Some(e@), None => None },
        ),
{
    match (start, end) {
        (Some(s), Some(e)) => {
            let from = parse_day_start(s, DATE_FORMAT);
            if from.is_none() {
                return Err(DateError::BadStartDate);
            }
            let to = parse_day_start(e, DATE_FORMAT);
            match range_from_stamps(from, to) {
                Ok(range) => Ok(RunPlan::Report(range)),
                Err(err) => Err(err),
            }
        },
        _ => Ok(RunPlan::Usage),
    }
}

} // verus!
