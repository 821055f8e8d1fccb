//! Dates and timestamps as Postgres text, by way of `chrono`.

use vstd::prelude::*;

verus! {

/// The result of `chrono::NaiveDate::parse_from_str`: a date as its day number, with 1970-01-01
/// as day 0, or the wording of the error.
pub uninterp spec fn parsed_date(text: Seq<char>, format: Seq<char>) -> Result<i32, Seq<char>>;

/// The text that `chrono::NaiveDate::format` gives for the date with the day number `days`, with
/// 1970-01-01 as day 0; nothing where `chrono` has no such date.
pub uninterp spec fn formatted_date(days: i32, format: Seq<char>) -> Option<Seq<char>>;

/// The result of `chrono::NaiveDateTime::parse_from_str`: a time as its seconds since the epoch
/// and the nanoseconds within the second, or the wording of the error.
pub uninterp spec fn parsed_date_time(text: Seq<char>, format: Seq<char>) -> Result<
    (i64, u32),
    Seq<char>,
>;

/// The text that `chrono::NaiveDateTime::format` gives for the time `millis` milliseconds after
/// the epoch; nothing where `chrono` has no such time.
pub uninterp spec fn formatted_date_time(millis: i64, format: Seq<char>) -> Option<Seq<char>>;

/// The day number of `chrono::NaiveDate::MIN`, 1 January of the year -262143.
pub const FIRST_DAY: i32 = -96_465_292;

/// The day number of `chrono::NaiveDate::MAX`, 31 December of the year 262142.
pub const LAST_DAY: i32 = 95_026_236;

/// The first second of `FIRST_DAY`.
pub const FIRST_SECOND: i64 = -8_334_601_228_800;

/// The last second of `LAST_DAY`.
pub const LAST_SECOND: i64 = 8_210_266_876_799;

/// `chrono::NaiveDate::parse_from_str`, with the date taken as its day number.
#[verifier::external_body]
fn parse_date(text: &str, format: &str) -> (r: Result<i32, String>)
    requires
        format@ == "%Y-%m-%d"@,
    ensures
        match (r, parsed_date(text@, format@)) {
            (Ok(d), Ok(e)) => d == e,
            (Err(e), Err(f)) => e@ == f,
            _ => false,
        },
{
    match chrono::NaiveDate::parse_from_str(text, format) {
        Ok(date) => Ok(date.to_epoch_days()),
        Err(e) => Err(e.to_string()),
    }
}

/// `chrono::NaiveDate::format` on the date with the given day number. There is such a date from
/// `NaiveDate::MIN` to `NaiveDate::MAX`. Its text is read back, under the same format, as the
/// same date: a year outside 0 to 9999 is written with a sign, which the reader takes.
#[verifier::external_body]
fn format_date(days: i32, format: &str) -> (r: Option<String>)
    requires
        format@ == "%Y-%m-%d"@,
    ensures
        r is Some <==> FIRST_DAY <= days <= LAST_DAY,
        match (r, formatted_date(days, format@)) {
            (Some(t), Some(s)) => t@ == s,
            (None, None) => true,
            _ => false,
        },
        match r {
            Some(t) => parsed_date(t@, format@) == Ok::<i32, Seq<char>>(days),
            None => true,
        },
{
    match chrono::NaiveDate::from_epoch_days(days) {
        Some(date) => Some(date.format(format).to_string()),
        None => None,
    }
}

/// `chrono::NaiveDateTime::parse_from_str`, with the time taken as its seconds since the epoch
/// and its nanoseconds within the second. The seconds lie between the first second of
/// `NaiveDate::MIN` and the last of `NaiveDate::MAX`; a leap second adds up to a second to the
/// nanoseconds.
#[verifier::external_body]
fn parse_date_time(text: &str, format: &str) -> (r: Result<(i64, u32), String>)
    requires
        format@ == "%Y-%m-%d %H:%M:%S%.f"@,
    ensures
        match (r, parsed_date_time(text@, format@)) {
            (Ok(t), Ok(u)) => t == u,
            (Err(e), Err(f)) => e@ == f,
            _ => false,
        },
        match r {
            Ok(t) => FIRST_SECOND <= t.0 <= LAST_SECOND && t.1 < 2_000_000_000,
            Err(e) => true,
        },
{
    match chrono::NaiveDateTime::parse_from_str(text, format) {
        Ok(time) => Ok((time.and_utc().timestamp(), time.and_utc().timestamp_subsec_nanos())),
        Err(e) => Err(e.to_string()),
    }
}

/// `chrono::NaiveDateTime::format` on the time `millis` milliseconds after the epoch, as
/// `chrono::DateTime::from_timestamp_millis` makes it. There is such a time from the start of
/// `NaiveDate::MIN` to the end of `NaiveDate::MAX`. Its text is read back, under the same format,
/// as the same time.
#[verifier::external_body]
fn format_date_time(millis: i64, format: &str) -> (r: Option<String>)
    requires
        format@ == "%Y-%m-%d %H:%M:%S%.f"@,
    ensures
        r is Some <==> FIRST_SECOND * 1000 <= millis <= LAST_SECOND * 1000 + 999,
        match (r, formatted_date_time(millis, format@)) {
            (Some(t), Some(s)) => t@ == s,
            (None, None) => true,
            _ => false,
        },
        match r {
            Some(t) => parsed_date_time(t@, format@) == Ok::<(i64, u32), Seq<char>>(
                ((millis as int / 1000) as i64, (millis as int % 1000 * 1_000_000) as u32),
            ),
            None => true,
        },
{
    match chrono::DateTime::from_timestamp_millis(millis) {
        Some(time) => Some(time.naive_utc().format(format).to_string()),
        None => None,
    }
}

/// The date that a text of the form `YYYY-MM-DD` writes, as its day number.
pub open spec fn date_reading(text: Seq<char>) -> Result<i32, Seq<char>> {
    parsed_date(text, "%Y-%m-%d"@)
}

/// Whole milliseconds of a time given in seconds and nanoseconds.
pub open spec fn whole_millis(secs: int, nanos: int) -> int {
    secs * 1000 + nanos / 1_000_000
}

/// The time that a text of the form `YYYY-MM-DD HH:MM:SS[.ffffff]` writes, in milliseconds since
/// the epoch.
pub open spec fn timestamp_reading(text: Seq<char>) -> Result<i64, Seq<char>> {
    match parsed_date_time(text, "%Y-%m-%d %H:%M:%S%.f"@) {
        Ok((secs, nanos)) => Ok(whole_millis(secs as int, nanos as int) as i64),
        Err(e) => Err(e),
    }
}

/// Reads a date, `YYYY-MM-DD`, as the number of days since 1970-01-01.
pub fn parse_date_days(s: &str) -> (r: Result<i32, String>)
    ensures
        match (r, date_reading(s@)) {
            (Ok(d), Ok(e)) => d == e,
            (Err(e), Err(f)) => e@ == f,
            _ => false,
        },
{
    parse_date(s, "%Y-%m-%d")
}

/// Writes the date `days` days after 1970-01-01 as `YYYY-MM-DD`, and reading that text gives
/// `days` back.
pub fn date_text(days: i32) -> (r: Option<String>)
    ensures
        r is Some <==> FIRST_DAY <= days <= LAST_DAY,
        r matches Some(t) ==> formatted_date(days, "%Y-%m-%d"@) == Some(t@),
        r matches Some(t) ==> date_reading(t@) == Ok::<i32, Seq<char>>(days),
{
    format_date(days, "%Y-%m-%d")
}

/// Whole milliseconds of a time given in seconds and nanoseconds.
pub fn millis_of(secs: i64, nanos: u32) -> (millis: i64)
    requires
        FIRST_SECOND <= secs <= LAST_SECOND,
    ensures
        millis == whole_millis(secs as int, nanos as int),
        millis * 1_000_000 <= secs * 1_000_000_000 + nanos < (millis + 1) * 1_000_000,
{
    secs * 1000 + (nanos / 1_000_000) as i64
}

/// Reads a timestamp, `YYYY-MM-DD HH:MM:SS[.ffffff]`, as milliseconds since the epoch.
pub fn parse_timestamp_millis(s: &str) -> (r: Result<i64, String>)
    ensures
        match (r, timestamp_reading(s@)) {
            (Ok(m), Ok(n)) => m == n,
            (Err(e), Err(f)) => e@ == f,
            _ => false,
        },
{
    match parse_date_time(s, "%Y-%m-%d %H:%M:%S%.f") {
        Ok((secs, nanos)) => Ok(millis_of(secs, nanos)),
        Err(e) => Err(e),
    }
}

/// Writes the time `millis` milliseconds after the epoch as `YYYY-MM-DD HH:MM:SS[.fff]`, and
/// reading that text gives `millis` back.
pub fn timestamp_text(millis: i64) -> (r: Option<String>)
    ensures
        r is Some <==> FIRST_SECOND * 1000 <= millis <= LAST_SECOND * 1000 + 999,
        r matches Some(t) ==> formatted_date_time(millis, "%Y-%m-%d %H:%M:%S%.f"@) == Some(t@),
        r matches Some(t) ==> timestamp_reading(t@) == Ok::<i64, Seq<char>>(millis),
{
    format_date_time(millis, "%Y-%m-%d %H:%M:%S%.f")
}

} // verus!
