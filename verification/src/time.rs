//! Local-time resolution: a UTC instant plus a fixed offset gives a local
//! calendar day and its printed forms. The calendar itself is chrono's.

use chrono::{DateTime, FixedOffset, NaiveDate, Utc};
use vstd::prelude::*;

verus! {

/// Earliest instant chrono's `DateTime<Utc>` holds: midnight of 1 January -262143.
pub const MIN_INSTANT: i64 = -8_334_601_228_800;

/// Latest whole second chrono's `DateTime<Utc>` holds: the end of 31 December 262142.
pub const MAX_INSTANT: i64 = 8_210_266_876_799;

/// Day number, counted from 1 January 1970, of the earliest date chrono's `NaiveDate` holds.
pub const MIN_DAY: i32 = -96_465_292;

/// Day number, counted from 1 January 1970, of the latest date chrono's `NaiveDate` holds.
pub const MAX_DAY: i32 = 95_026_236;

/// Seconds in a day.
pub const SECONDS_PER_DAY: i64 = 86_400;

/// Seconds since the epoch that a timestamp of the calendar can carry.
pub open spec fn instant_in_range(seconds: int) -> bool {
    MIN_INSTANT <= seconds <= MAX_INSTANT
}

/// Day numbers that name a date of the calendar.
pub open spec fn day_in_range(day: int) -> bool {
    MIN_DAY <= day <= MAX_DAY
}

/// The offset that is applied for a reported one: the reported offset where it
/// is less than a day either way, otherwise none.
pub open spec fn effective_offset(offset_seconds: int) -> int {
    if -SECONDS_PER_DAY < offset_seconds < SECONDS_PER_DAY {
        offset_seconds
    } else {
        0
    }
}

/// Whether the instant and its local wall-clock time both lie within the calendar.
pub open spec fn resolvable(utc_seconds: int, offset_seconds: int) -> bool {
    &&& instant_in_range(utc_seconds)
    &&& instant_in_range(utc_seconds + effective_offset(offset_seconds))
}

/// Number of the local calendar day, counted from 1 January 1970: the whole
/// days in the local wall-clock seconds, rounded towards the past.
pub open spec fn local_day_number(utc_seconds: int, offset_seconds: int) -> int {
    (utc_seconds + effective_offset(offset_seconds)) / (SECONDS_PER_DAY as int)
}

/// What chrono prints for the date with this day number under `%d-%m-%Y`.
pub uninterp spec fn date_text(day: int) -> Seq<char>;

/// What chrono prints under `%d-%m-%Y %H:%M` for this instant seen at this offset.
pub uninterp spec fn local_time_text(utc_seconds: int, offset_seconds: int) -> Seq<char>;

/// Calls chrono's `DateTime::from_timestamp`, `with_timezone` on a
/// `FixedOffset::east_opt` zone, `date_naive` and `NaiveDate::to_epoch_days`.
/// Trusted: the local date's day number is the floor of the local seconds over
/// a day. The preconditions keep all four calls within their ranges.
#[verifier::external_body]
fn chrono_local_day(utc_seconds: i64, offset_seconds: i32) -> (day: i32)
    requires
        -SECONDS_PER_DAY < offset_seconds < SECONDS_PER_DAY,
        instant_in_range(utc_seconds as int),
        instant_in_range(utc_seconds + offset_seconds),
    ensures
        day == (utc_seconds + offset_seconds) / (SECONDS_PER_DAY as int),
{
    let zone = FixedOffset::east_opt(offset_seconds).unwrap();
    let instant = DateTime::<Utc>::from_timestamp(utc_seconds, 0).unwrap();
    instant.with_timezone(&zone).date_naive().to_epoch_days()
}

/// Calls chrono's `NaiveDate::from_epoch_days` and `NaiveDate::format` with
/// `%d-%m-%Y`. Trusted: the text depends on the day number alone.
#[verifier::external_body]
fn chrono_date_text(day: i32) -> (text: String)
    requires
        day_in_range(day as int),
    ensures
        text@ == date_text(day as int),
{
    NaiveDate::from_epoch_days(day).unwrap().format("%d-%m-%Y").to_string()
}

/// Calls chrono's `DateTime::from_timestamp`, `with_timezone` on a
/// `FixedOffset::east_opt` zone and `DateTime::format` with `%d-%m-%Y %H:%M`.
/// Trusted: the text depends on the instant and the offset alone.
#[verifier::external_body]
fn chrono_local_time_text(utc_seconds: i64, offset_seconds: i32) -> (text: String)
    requires
        -SECONDS_PER_DAY < offset_seconds < SECONDS_PER_DAY,
        instant_in_range(utc_seconds as int),
    ensures
        text@ == local_time_text(utc_seconds as int, offset_seconds as int),
{
    let zone = FixedOffset::east_opt(offset_seconds).unwrap();
    let instant = DateTime::<Utc>::from_timestamp(utc_seconds, 0).unwrap();
    instant.with_timezone(&zone).format("%d-%m-%Y %H:%M").to_string()
}

/// The offset applied for a reported one; an offset of a day or more either
/// way is replaced by zero.
pub fn resolve_offset(offset_seconds: i32) -> (applied: i32)
    ensures
        applied == effective_offset(offset_seconds as int),
{
    if -SECONDS_PER_DAY < offset_seconds as i64 && (offset_seconds as i64) < SECONDS_PER_DAY {
        offset_seconds
    } else {
        0
    }
}

/// The local calendar day of an instant, as a day number counted from
/// 1 January 1970, or `None` where the instant or its local time lies outside
/// the calendar.
pub fn local_day(utc_seconds: i64, offset_seconds: i32) -> (day: Option<i32>)
    ensures
        day is Some <==> resolvable(utc_seconds as int, offset_seconds as int),
        day matches Some(d) ==> d == local_day_number(utc_seconds as int, offset_seconds as int),
{
    let applied: i32 = resolve_offset(offset_seconds);
    if utc_seconds < MIN_INSTANT || utc_seconds > MAX_INSTANT {
        return None;
    }
    let local: i64 = utc_seconds + applied as i64;
    if local < MIN_INSTANT || local > MAX_INSTANT {
        return None;
    }
    Some(chrono_local_day(utc_seconds, applied))
}

/// The date with the given day number printed as day, month and year, or
/// `None` where no date of the calendar has that number.
pub fn format_day(day: i32) -> (text: Option<String>)
    ensures
        text is Some <==> day_in_range(day as int),
        text matches Some(t) ==> t@ == date_text(day as int),
{
    if day < MIN_DAY || day > MAX_DAY {
        None
    } else {
        Some(chrono_date_text(day))
    }
}

/// The local date and clock time of an instant printed to the minute, or
/// `None` where the instant lies outside the calendar.
pub fn local_time(utc_seconds: i64, offset_seconds: i32) -> (text: Option<String>)
    ensures
        text is Some <==> instant_in_range(utc_seconds as int),
        text matches Some(t) ==> t@ == local_time_text(
            utc_seconds as int,
            effective_offset(offset_seconds as int),
        ),
{
    let applied: i32 = resolve_offset(offset_seconds);
    if utc_seconds < MIN_INSTANT || utc_seconds > MAX_INSTANT {
        None
    } else {
        Some(chrono_local_time_text(utc_seconds, applied))
    }
}

/// A resolvable instant falls on a day that the calendar can print.
pub proof fn lemma_resolved_day_in_range(utc_seconds: int, offset_seconds: int)
    requires
        resolvable(utc_seconds, offset_seconds),
    ensures
        day_in_range(local_day_number(utc_seconds, offset_seconds)),
{
}

} // verus!
