//! The report: current conditions and day summaries per location under one
//! generation time.

use crate::forecast::{
    all_resolvable, first_unresolvable, resolved, summarize_forecast, summarizes, summary_stats,
    DaySummary, OutOfRange, RawSample,
};
use crate::text::{condition_label, condition_text};
use crate::time::{date_text, effective_offset, instant_in_range, local_time, local_time_text};
use crate::units::{offset_label_text, utc_offset_label};
use vstd::prelude::*;

verus! {

/// The current conditions of one location as the provider reports them.
#[derive(Debug, Clone, PartialEq, Eq)]
pub struct CurrentReading {
    /// The instant of the observation, in seconds since the epoch.
    pub utc_seconds: i64,
    /// The location's offset from UTC, in seconds.
    pub offset_seconds: i32,
    /// Key of the temperature in degrees Celsius.
    pub temp: i64,
    /// Relative humidity in per cent.
    pub humidity: i64,
    /// Condition descriptions, the most significant first.
    pub descriptions: Vec<String>,
}

/// The current conditions of one location as they are reported.
#[derive(Debug, Clone, PartialEq, Eq)]
pub struct CurrentReport {
    /// Display label of the location.
    pub city: String,
    /// Local date and clock time of the observation.
    pub time_local: String,
    /// The location's offset from UTC, printed.
    pub utc_offset: String,
    /// Key of the temperature in degrees Celsius.
    pub temp_c: i64,
    /// Relative humidity in per cent.
    pub humidity_pct: i64,
    /// Condition label.
    pub condition: String,
}

/// The day summaries of one location.
#[derive(Debug, Clone, PartialEq, Eq)]
pub struct LocationReport {
    /// Display label of the location.
    pub city: String,
    /// At most five days, in date order.
    pub days: Vec<DaySummary>,
}

/// The whole report.
#[derive(Debug, Clone, PartialEq, Eq)]
pub struct Report {
    /// When the report was made, in UTC.
    pub generated_at_utc: String,
    /// Current conditions, one entry per location in configured order.
    pub current: Vec<CurrentReport>,
    /// Day summaries, one entry per location in configured order.
    pub forecasts: Vec<LocationReport>,
}

/// The current-conditions entry of a location: its label, the local time of
/// the observation, the printed offset, and the condition label of the first
/// description. `None` where the instant lies outside the calendar.
pub fn build_current_out(label: String, cur: &CurrentReading) -> (out: Option<CurrentReport>)
    ensures
        out is Some <==> instant_in_range(cur.utc_seconds as int),
        out matches Some(report) ==> {
            &&& report.city == label
            &&& report.time_local@ == local_time_text(
                cur.utc_seconds as int,
                effective_offset(cur.offset_seconds as int),
            )
            &&& report.utc_offset@ == offset_label_text(cur.offset_seconds as int)
            &&& report.temp_c == cur.temp
            &&& report.humidity_pct == cur.humidity
            &&& report.condition@ == condition_text(cur.descriptions@)
        },
{
    match local_time(cur.utc_seconds, cur.offset_seconds) {
        None => None,
        Some(time_local) => Some(
            CurrentReport {
                city: label,
                time_local,
                utc_offset: utc_offset_label(cur.offset_seconds),
                temp_c: cur.temp,
                humidity_pct: cur.humidity,
                condition: condition_label(&cur.descriptions),
            },
        ),
    }
}

/// The forecast entry of a location: its label and the day summaries of its
/// samples. Fails on the first sample that lies outside the calendar.
pub fn build_location_report(
    label: String,
    samples: &Vec<RawSample>,
    offset_seconds: i32,
) -> (result: Result<LocationReport, OutOfRange>)
    ensures
        match result {
            Ok(report) => {
                &&& report.city == label
                &&& all_resolvable(samples@, offset_seconds as int)
                &&& summarizes(
                    resolved(samples@, offset_seconds as int),
                    summary_stats(report.days@),
                )
                &&& forall|k: int|
                    0 <= k < report.days.len() ==> (#[trigger] report.days@[k]).date@ == date_text(
                        report.days@[k].day as int,
                    )
            },
            Err(e) => first_unresolvable(samples@, offset_seconds as int, e.index as int),
        },
{
    match summarize_forecast(samples, offset_seconds) {
        Ok(days) => Ok(LocationReport { city: label, days }),
        Err(e) => Err(e),
    }
}

/// The generation time of a report made at the given instant, printed in
/// UTC. `None` where the instant lies outside the calendar.
pub fn generated_at(now_utc_seconds: i64) -> (text: Option<String>)
    ensures
        text is Some <==> instant_in_range(now_utc_seconds as int),
        text matches Some(t) ==> t@ == local_time_text(now_utc_seconds as int, 0),
{
    local_time(now_utc_seconds, 0)
}

/// The report over all locations.
pub fn build_report(
    generated_at_utc: String,
    current: Vec<CurrentReport>,
    forecasts: Vec<LocationReport>,
) -> (report: Report)
    ensures
        report.generated_at_utc == generated_at_utc,
        report.current == current,
        report.forecasts == forecasts,
{
    Report { generated_at_utc, current, forecasts }
}

} // verus!
