//! The system clock and calendar formatting.
use vstd::prelude::*;

verus! {

/// The current time in whole seconds since the Unix epoch
/// (`SystemTime::now().duration_since(UNIX_EPOCH)`, zero before the epoch).
/// Nothing is promised of the value: it is the clock's.
#[verifier::external_body]
pub fn now_secs() -> (t: u64) {
    std::time::SystemTime::now()
        .duration_since(std::time::UNIX_EPOCH)
        .unwrap_or_default()
        .as_secs()
}

/// The text `chrono` prints for a timestamp with the pattern `%Y-%m-%d %H:%M`
/// (UTC; the epoch when the timestamp is out of chrono's range).
pub uninterp spec fn formatted_minute(timestamp: u64) -> Seq<char>;

/// Formats a timestamp as `YYYY-MM-DD HH:MM` in UTC through `chrono`
/// (`DateTime::from_timestamp(t as i64, 0)`, falling back to the epoch, then `format`).
#[verifier::external_body]
pub fn format_minute(timestamp: u64) -> (s: String)
    ensures
        s@ == formatted_minute(timestamp),
{
    let dt = chrono::DateTime::from_timestamp(timestamp as i64, 0)
        .unwrap_or_else(|| chrono::DateTime::UNIX_EPOCH);
    dt.format("%Y-%m-%d %H:%M").to_string()
}

/// The day of a timestamp, counted from January 1, 1970 (UTC), through
/// `chrono`: `NaiveDateTime::from_timestamp_opt(secs, 0)`, its date, and
/// that date's `to_epoch_days`. chrono computes the date from
/// `secs.div_euclid(86_400)`, so the day is that quotient; it gives no date
/// beyond about 262,000 years from year 1, and certainly gives one within
/// eight trillion seconds of the epoch.
#[verifier::external_body]
pub fn utc_day(secs: i64) -> (r: Option<i32>)
    ensures
        r matches Some(d) ==> d as int == secs as int / 86400,
        -8_000_000_000_000 <= secs <= 8_000_000_000_000 ==> r is Some,
{
    #[allow(deprecated)]
    match chrono::NaiveDateTime::from_timestamp_opt(secs, 0) {
        Some(dt) => Some(dt.date().to_epoch_days()),
        None => None,
    }
}

/// The hour of a timestamp (UTC), through `chrono`:
/// `NaiveDateTime::from_timestamp_opt(secs, 0)` and its `hour`. chrono
/// takes the time of day from `secs.rem_euclid(86_400)`, so the hour is
/// that remainder divided by 3600; it gives a time within eight trillion
/// seconds of the epoch.
#[verifier::external_body]
pub fn utc_hour(secs: i64) -> (r: Option<u32>)
    ensures
        r matches Some(h) ==> h as int == (secs as int % 86400) / 3600,
        -8_000_000_000_000 <= secs <= 8_000_000_000_000 ==> r is Some,
{
    #[allow(deprecated)]
    match chrono::NaiveDateTime::from_timestamp_opt(secs, 0) {
        Some(dt) => Some(chrono::Timelike::hour(&dt)),
        None => None,
    }
}

/// The day, counted from January 1, 1970, of the date that `chrono` reads
/// from a text with the pattern `%Y-%m-%d`; `None` when it reads none.
pub uninterp spec fn ymd_day(s: Seq<char>) -> Option<i32>;

/// Calls `NaiveDate::parse_from_str` with `%Y-%m-%d`, then `to_epoch_days`.
#[verifier::external_body]
pub fn parse_ymd(s: &str) -> (r: Option<i32>)
    ensures
        r == ymd_day(s@),
{
    match chrono::NaiveDate::parse_from_str(s, "%Y-%m-%d") {
        Ok(d) => Some(d.to_epoch_days()),
        Err(_) => None,
    }
}

} // verus!
