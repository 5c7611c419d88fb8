//! Day labels: the calendar date of a day, from the `time` crate.
use vstd::prelude::*;

use crate::report::ReportError;
use crate::tally::{message_day, DAY_MS};

verus! {

#[verifier::external_type_specification]
#[verifier::external_body]
pub struct ExComponentRange(time::error::ComponentRange);

/// The earliest Unix timestamp that `time::OffsetDateTime` represents
/// (-9999-01-01 00:00:00 UTC).
pub const MIN_UNIX_TIMESTAMP: i64 = -377_705_116_800;

/// The latest Unix timestamp that `time::OffsetDateTime` represents
/// (9999-12-31 23:59:59 UTC).
pub const MAX_UNIX_TIMESTAMP: i64 = 253_402_300_799;

/// The calendar date (UTC) that the `time` crate prints for a Unix
/// timestamp: `YYYY-MM-DD`, with a `-` before years before year 0.
pub uninterp spec fn utc_date_text(timestamp: i64) -> Seq<char>;

/// `time::OffsetDateTime::from_unix_timestamp`, then the `Display` text of
/// the resulting `Date`.
/// Claims: it succeeds exactly on the timestamps from `MIN_UNIX_TIMESTAMP`
/// to `MAX_UNIX_TIMESTAMP` (the range of years -9999 to 9999 that the crate
/// has without its `large-dates` feature, which nothing here enables), and
/// the text it gives is `utc_date_text` of the timestamp.
#[verifier::external_body]
fn utc_date_label(timestamp: i64) -> (r: Result<String, time::error::ComponentRange>)
    ensures
        r is Ok <==> MIN_UNIX_TIMESTAMP <= timestamp <= MAX_UNIX_TIMESTAMP,
        r matches Ok(text) ==> text@ == utc_date_text(timestamp),
{
    match time::OffsetDateTime::from_unix_timestamp(timestamp) {
        Ok(datetime) => Ok(datetime.date().to_string()),
        Err(error) => Err(error),
    }
}

/// Seconds in a day.
pub const DAY_SECONDS: i64 = 86_400;

/// The first second of `day` is a timestamp the calendar can show.
pub open spec fn day_in_calendar(day: int) -> bool {
    MIN_UNIX_TIMESTAMP <= day * DAY_SECONDS <= MAX_UNIX_TIMESTAMP
}

/// The label of a day: the date of its first second.
pub open spec fn day_label_text(day: int) -> Seq<char> {
    utc_date_text((day * DAY_SECONDS) as i64)
}

/// The first second of `day` fits in an `i64`.
pub open spec fn day_seconds_fit(day: int) -> bool {
    i64::MIN <= day * DAY_SECONDS <= i64::MAX
}

/// Every day of a millisecond timestamp has a first second that fits in an `i64`.
pub proof fn lemma_message_day_fits(time: i64)
    ensures
        -106_751_991_168 <= message_day(time) <= 106_751_991_167,
        day_seconds_fit(message_day(time)),
{
    vstd::arithmetic::div_mod::lemma_div_is_ordered(i64::MIN as int, time as int, DAY_MS as int);
    vstd::arithmetic::div_mod::lemma_div_is_ordered(time as int, i64::MAX as int, DAY_MS as int);
    assert((i64::MIN as int) / (DAY_MS as int) == -106_751_991_168);
    assert((i64::MAX as int) / (DAY_MS as int) == 106_751_991_167);
}

/// An error of the date rendering, turned into a report error for `day`.
pub fn day_label_result(day: i64, rendered: Result<String, time::error::ComponentRange>) -> (r:
    Result<String, ReportError>)
    requires
        day_seconds_fit(day as int),
    ensures
        r == (match rendered {
            Ok(text) => Ok(text),
            Err(source) => Err(ReportError::InvalidTimestamp { value: (day * DAY_SECONDS) as i64, source }),
        }),
{
    match rendered {
        Ok(text) => Ok(text),
        Err(source) => Err(ReportError::InvalidTimestamp { value: day * DAY_SECONDS, source }),
    }
}

/// The label of `day`: its date, `YYYY-MM-DD`.
pub fn day_label(day: i64) -> (r: Result<String, ReportError>)
    requires
        day_seconds_fit(day as int),
    ensures
        day_in_calendar(day as int) ==> (r matches Ok(text) && text@ == day_label_text(day as int)),
        !day_in_calendar(day as int) ==> (r matches Err(ReportError::InvalidTimestamp { value, .. })
            && value == day * DAY_SECONDS),
{
    day_label_result(day, utc_date_label(day * DAY_SECONDS))
}

} // verus!
