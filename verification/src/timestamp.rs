//! The time of an item as text.

use crate::markup::opt_view;
use crate::text::{append_str, from_chars};
use chrono::TimeZone;
use vstd::prelude::*;

verus! {

/// The UTC date and time, written as `YYYY-MM-DD HH:MM:SS UTC`, of the moment
/// `seconds` seconds after the start of 1970, or `None` where the calendar of
/// the `chrono` crate does not reach that far.
pub uninterp spec fn utc_date_time(seconds: int) -> Option<Seq<char>>;

/// `TimeZone::timestamp_opt` of `chrono` on `Utc`, with no nanoseconds, its
/// single outcome formatted by `DateTime::format` with the pattern
/// `%Y-%m-%d %H:%M:%S UTC`. The contract gives the outcome its name: it depends
/// on the number of seconds alone.
#[verifier::external_body]
fn utc_text(timestamp: i64) -> (text: Option<String>)
    ensures
        opt_view(text) == utc_date_time(timestamp as int),
{
    match chrono::Utc.timestamp_opt(timestamp, 0).single() {
        Some(moment) => Some(moment.format("%Y-%m-%d %H:%M:%S UTC").to_string()),
        None => None,
    }
}

/// The label of a time: its text, or a notice where there is none.
pub open spec fn time_label(text: Option<Seq<char>>) -> Seq<char> {
    match text {
        Some(t) => t,
        None => "Invalid timestamp"@,
    }
}

/// The label for the formatted time `text`: the text itself, or
/// `Invalid timestamp` where the time could not be formatted.
pub fn timestamp_label(text: Option<String>) -> (label: String)
    ensures
        label@ == time_label(opt_view(text)),
{
    match text {
        Some(t) => t,
        None => {
            let mut v: Vec<char> = Vec::new();
            append_str(&mut v, "Invalid timestamp");
            assert(v@ =~= "Invalid timestamp"@);
            from_chars(&v)
        },
    }
}

/// The UTC date and time of `timestamp`, a number of seconds since the start of
/// 1970, or `Invalid timestamp` where it is out of range.
pub fn format_timestamp(timestamp: i64) -> (label: String)
    ensures
        label@ == time_label(utc_date_time(timestamp as int)),
{
    timestamp_label(utc_text(timestamp))
}

} // verus!
