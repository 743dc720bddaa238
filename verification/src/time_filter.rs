//! The time filter: an optional inclusive range of update times that every
//! query of one search carries unchanged.

use crate::error::ConfigError;
use crate::outside::{date_millis, datetime_millis, read_date_millis, read_datetime_millis};
use vstd::prelude::*;

verus! {

/// Bounds on a memory's update time, in milliseconds since the epoch. A
/// bound that is present is inclusive.
#[derive(Debug, Clone, Copy, PartialEq, Eq)]
pub struct TimeRange {
    pub after: Option<i64>,
    pub before: Option<i64>,
}

impl TimeRange {
    /// Whether a memory last updated at `timestamp` lies inside the range.
    pub open spec fn admits_spec(&self, timestamp: i64) -> bool {
        &&& self.after matches Some(after) ==> after <= timestamp
        &&& self.before matches Some(before) ==> timestamp <= before
    }

    /// Whether a memory last updated at `timestamp` lies inside the range.
    #[verifier::when_used_as_spec(admits_spec)]
    pub fn admits(&self, timestamp: i64) -> (inside: bool)
        ensures
            inside == self.admits_spec(timestamp),
    {
        let late_enough = match self.after {
            Some(after) => after <= timestamp,
            None => true,
        };
        let early_enough = match self.before {
            Some(before) => timestamp <= before,
            None => true,
        };
        late_enough && early_enough
    }

    /// The filter for the given bounds: none where neither bound is given.
    pub fn from_bounds(after: Option<i64>, before: Option<i64>) -> (range: Option<TimeRange>)
        ensures
            range == bounded(after, before),
    {
        if after.is_some() || before.is_some() {
            Some(TimeRange { after, before })
        } else {
            None
        }
    }
}

/// The filter that the two optional bounds make.
pub open spec fn bounded(after: Option<i64>, before: Option<i64>) -> Option<TimeRange> {
    if after is Some || before is Some {
        Some(TimeRange { after, before })
    } else {
        None
    }
}

/// How a day with hour and minute is written: `2024-03-01 17:45`.
pub open spec fn minute_format() -> Seq<char> {
    "%Y-%m-%d %H:%M"@
}

/// How a day alone is written: `2024-03-01`.
pub open spec fn day_format() -> Seq<char> {
    "%Y-%m-%d"@
}

/// The timestamp for a bound that was not a day with hour and minute, given
/// what reading it as a day alone gave.
pub open spec fn day_timestamp_spec(day_form: Option<Option<i64>>) -> Result<i64, ConfigError> {
    match day_form {
        Some(Some(millis)) => Ok(millis),
        Some(None) => Err(ConfigError::InvalidTimeOfDay),
        None => Err(ConfigError::InvalidDateFormat),
    }
}

/// The timestamp for a bound, given what reading it as a day with hour and
/// minute gave, and what reading it as a day alone gave: the first reading
/// wins.
pub open spec fn timestamp_of(minute_form: Option<i64>, day_form: Option<Option<i64>>) -> Result<
    i64,
    ConfigError,
> {
    match minute_form {
        Some(millis) => Ok(millis),
        None => day_timestamp_spec(day_form),
    }
}

/// The timestamp that a written bound stands for. A day alone means the
/// start of that day.
pub open spec fn parsed_bound(input: Seq<char>) -> Result<i64, ConfigError> {
    timestamp_of(
        datetime_millis(input, minute_format()),
        date_millis(input, day_format(), 0, 0, 0),
    )
}

/// The timestamp for a bound that was not a day with hour and minute, given
/// what reading it as a day alone gave.
pub fn day_timestamp(day_form: Option<Option<i64>>) -> (outcome: Result<i64, ConfigError>)
    ensures
        outcome == day_timestamp_spec(day_form),
{
    match day_form {
        Some(Some(millis)) => Ok(millis),
        Some(None) => Err(ConfigError::InvalidTimeOfDay),
        None => Err(ConfigError::InvalidDateFormat),
    }
}

/// Reads a time bound, written as `YYYY-MM-DD HH:MM` or as `YYYY-MM-DD`,
/// as milliseconds since the epoch in UTC.
pub fn parse_datetime(input: &str) -> (outcome: Result<i64, ConfigError>)
    ensures
        outcome == parsed_bound(input@),
{
    match read_datetime_millis(input, "%Y-%m-%d %H:%M") {
        Some(millis) => Ok(millis),
        None => day_timestamp(read_date_millis(input, "%Y-%m-%d", 0, 0, 0)),
    }
}

/// The bound that an optional text stands for.
pub open spec fn optional_bound(text: Option<String>) -> Result<Option<i64>, ConfigError> {
    match text {
        None => Ok(None),
        Some(written) => match parsed_bound(written@) {
            Ok(millis) => Ok(Some(millis)),
            Err(fault) => Err(fault),
        },
    }
}

/// The filter that two optional written bounds stand for; a fault in the
/// lower bound is reported before one in the upper.
pub open spec fn written_range(after: Option<String>, before: Option<String>) -> Result<
    Option<TimeRange>,
    ConfigError,
> {
    match optional_bound(after) {
        Err(fault) => Err(fault),
        Ok(lower) => match optional_bound(before) {
            Err(fault) => Err(fault),
            Ok(upper) => Ok(bounded(lower, upper)),
        },
    }
}

/// Reads an optional bound.
fn read_bound(text: &Option<String>) -> (outcome: Result<Option<i64>, ConfigError>)
    ensures
        outcome == optional_bound(*text),
{
    match text {
        None => Ok(None),
        Some(written) => match parse_datetime(written.as_str()) {
            Ok(millis) => Ok(Some(millis)),
            Err(fault) => Err(fault),
        },
    }
}

/// Builds the time filter of a search from the bounds as the user wrote
/// them: no filter where neither is given, a fault where one is malformed.
pub fn time_range_from_text(after: &Option<String>, before: &Option<String>) -> (outcome: Result<
    Option<TimeRange>,
    ConfigError,
>)
    ensures
        outcome == written_range(*after, *before),
{
    let lower = match read_bound(after) {
        Ok(bound) => bound,
        Err(fault) => {
            return Err(fault);
        },
    };
    let upper = match read_bound(before) {
        Ok(bound) => bound,
        Err(fault) => {
            return Err(fault);
        },
    };
    Ok(TimeRange::from_bounds(lower, upper))
}

} // verus!
