//! Reading times of day and weekday names, through chrono's parsers.
use vstd::prelude::*;

use crate::data::{TimeOfDay, Weekday};

verus! {

/// The hour and minute that chrono reads from a text in the format `%H:%M`.
pub uninterp spec fn hm_time_of(s: Seq<char>) -> Option<(u32, u32)>;

/// The weekday that chrono reads from a weekday name.
pub uninterp spec fn weekday_named(s: Seq<char>) -> Option<Weekday>;

/// Relies on chrono's `NaiveTime::parse_from_str` with the format `%H:%M`:
/// on success, the hour (below 24) and the minute (below 60) of the time read.
#[verifier::external_body]
fn parse_hm(s: &str) -> (r: Option<(u32, u32)>)
    ensures
        r == hm_time_of(s@),
        r matches Some((h, m)) ==> h < 24 && m < 60,
{
    match chrono::NaiveTime::parse_from_str(s, "%H:%M") {
        Ok(t) => Some((chrono::Timelike::hour(&t), chrono::Timelike::minute(&t))),
        Err(_) => None,
    }
}

/// Relies on chrono's `FromStr` for `Weekday`, which reads English weekday
/// names, short or long: the day read, if any.
#[verifier::external_body]
pub(crate) fn weekday_from_name(s: &str) -> (r: Option<Weekday>)
    ensures
        r == weekday_named(s@),
{
    match <chrono::Weekday as std::str::FromStr>::from_str(s) {
        Ok(chrono::Weekday::Mon) => Some(Weekday::Mon),
        Ok(chrono::Weekday::Tue) => Some(Weekday::Tue),
        Ok(chrono::Weekday::Wed) => Some(Weekday::Wed),
        Ok(chrono::Weekday::Thu) => Some(Weekday::Thu),
        Ok(chrono::Weekday::Fri) => Some(Weekday::Fri),
        Ok(chrono::Weekday::Sat) => Some(Weekday::Sat),
        Ok(chrono::Weekday::Sun) => Some(Weekday::Sun),
        Err(_) => None,
    }
}

/// The time of day that a text `HH:MM` names.
pub open spec fn time_of(s: Seq<char>) -> Option<TimeOfDay> {
    match hm_time_of(s) {
        Some((h, m)) => Some(TimeOfDay { minutes: (h * 60 + m) as u32 }),
        None => None,
    }
}

/// Reads a time of day written `HH:MM`.
pub fn parse_time(s: &str) -> (r: Option<TimeOfDay>)
    ensures
        r == time_of(s@),
        r matches Some(t) ==> t.minutes < 1440,
{
    match parse_hm(s) {
        Some((h, m)) => TimeOfDay::from_hm(h, m),
        None => None,
    }
}

} // verus!
