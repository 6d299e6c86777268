//! Daily aggregation: the forecast samples of one location, grouped by local
//! calendar day, become at most five day summaries in date order.
//!
//! Where several condition labels occur equally often on a day, the one that
//! was seen first among that day's samples is the day's condition.

use crate::text::{condition_label, condition_text};
use crate::time::{
    date_text, day_in_range, format_day, lemma_resolved_day_in_range, local_day,
    local_day_number, resolvable,
};
use std::collections::HashMap;
use vstd::prelude::*;

verus! {

broadcast use vstd::std_specs::hash::group_hash_axioms;

/// The most days a forecast is summarised for.
pub const MAX_DAYS: usize = 5;

/// One forecast data point as the provider reports it.
#[derive(Debug, Clone, PartialEq, Eq)]
pub struct RawSample {
    /// The instant the sample is for, in seconds since the epoch.
    pub utc_seconds: i64,
    /// Key of the temperature in degrees Celsius.
    pub temp: i64,
    /// Condition descriptions, the most significant first.
    pub descriptions: Vec<String>,
}

/// A sample resolved to its local day and its condition label.
#[derive(Debug, Clone, PartialEq, Eq)]
pub struct Reading {
    /// Local calendar day, counted from 1 January 1970.
    pub day: i32,
    /// Key of the temperature in degrees Celsius.
    pub temp: i64,
    /// Condition label.
    pub label: String,
}

/// The aggregate of one local day.
#[derive(Debug, Clone, PartialEq, Eq)]
pub struct DayStats {
    /// Local calendar day, counted from 1 January 1970.
    pub day: i32,
    /// Key of the lowest temperature of the day.
    pub min: i64,
    /// Key of the highest temperature of the day.
    pub max: i64,
    /// The condition label seen most often on the day.
    pub condition: String,
}

/// What a reading says, as plain values.
pub ghost struct ReadingView {
    pub day: int,
    pub temp: int,
    pub label: Seq<char>,
}

/// What a day's aggregate says, as plain values.
pub ghost struct DayStatsView {
    pub day: int,
    pub min: int,
    pub max: int,
    pub condition: Seq<char>,
}

impl View for Reading {
    type V = ReadingView;

    open spec fn view(&self) -> ReadingView {
        ReadingView { day: self.day as int, temp: self.temp as int, label: self.label@ }
    }
}

impl View for DayStats {
    type V = DayStatsView;

    open spec fn view(&self) -> DayStatsView {
        DayStatsView {
            day: self.day as int,
            min: self.min as int,
            max: self.max as int,
            condition: self.condition@,
        }
    }
}

/// The readings as plain values, in order.
pub open spec fn reading_views(readings: Seq<Reading>) -> Seq<ReadingView> {
    readings.map_values(|r: Reading| r@)
}

/// The aggregates as plain values, in order.
pub open spec fn stats_views(stats: Seq<DayStats>) -> Seq<DayStatsView> {
    stats.map_values(|s: DayStats| s@)
}

/// Whether some reading falls on the day.
pub open spec fn has_day(readings: Seq<ReadingView>, day: int) -> bool {
    exists|i: int| 0 <= i < readings.len() && (#[trigger] readings[i]).day == day
}

/// The distinct days that the readings fall on.
pub open spec fn days_present(readings: Seq<ReadingView>) -> Set<int> {
    Set::new(|day: int| has_day(readings, day))
}

/// The readings of one day, in the order they came.
pub open spec fn of_day(readings: Seq<ReadingView>, day: int) -> Seq<ReadingView> {
    readings.filter(|r: ReadingView| r.day == day)
}

/// The temperatures of the readings, in order.
pub open spec fn temps(readings: Seq<ReadingView>) -> Seq<int> {
    readings.map_values(|r: ReadingView| r.temp)
}

/// The condition labels of the readings, in order.
pub open spec fn labels(readings: Seq<ReadingView>) -> Seq<Seq<char>> {
    readings.map_values(|r: ReadingView| r.label)
}

/// How often a label occurs among the labels.
pub open spec fn occurrences(all: Seq<Seq<char>>, label: Seq<char>) -> nat {
    all.filter(|l: Seq<char>| l == label).len()
}

/// Whether the label at `j` occurs at least as often as every other label and
/// more often than every label that first occurs before it.
pub open spec fn is_dominant(all: Seq<Seq<char>>, j: int) -> bool {
    &&& 0 <= j < all.len()
    &&& forall|i: int|
        0 <= i < all.len() ==> occurrences(all, #[trigger] all[i]) <= occurrences(all, all[j])
    &&& forall|i: int| 0 <= i < j ==> occurrences(all, #[trigger] all[i]) < occurrences(all, all[j])
}

/// The dominant label: the one that occurs most often, and among equally
/// frequent ones the one that occurs first.
pub open spec fn dominant(all: Seq<Seq<char>>) -> Seq<char> {
    all[choose|j: int| is_dominant(all, j)]
}

/// The aggregate of the readings that fall on the day.
pub open spec fn day_stats(readings: Seq<ReadingView>, day: int) -> DayStatsView {
    let group = of_day(readings, day);
    DayStatsView {
        day,
        min: temps(group).min(),
        max: temps(group).max(),
        condition: dominant(labels(group)),
    }
}

/// At most one position is dominant.
pub proof fn lemma_dominant_unique(all: Seq<Seq<char>>, a: int, b: int)
    requires
        is_dominant(all, a),
        is_dominant(all, b),
    ensures
        a == b,
{
    if a < b {
        assert(occurrences(all, all[a]) < occurrences(all, all[b]));
    } else if b < a {
        assert(occurrences(all, all[b]) < occurrences(all, all[a]));
    }
}

/// How often the label of the reading at `at` occurs among the readings.
fn count_label(group: &Vec<Reading>, at: usize) -> (count: usize)
    requires
        at < group.len(),
    ensures
        count == occurrences(labels(reading_views(group@)), group@[at as int].label@),
        count >= 1,
{
    let ghost all = labels(reading_views(group@));
    let ghost wanted = |l: Seq<char>| l == group@[at as int].label@;
    let mut count: usize = 0;
    let mut j: usize = 0;
    proof {
        reveal(Seq::filter);
    }
    while j < group.len()
        invariant
            j <= group.len(),
            at < group.len(),
            all == labels(reading_views(group@)),
            wanted == |l: Seq<char>| l == group@[at as int].label@,
            count == all.take(j as int).filter(wanted).len(),
            count <= j,
            j > at ==> count >= 1,
        decreases group.len() - j,
    {
        let same = group[j].label == group[at].label;
        proof {
            assert(all.take(j + 1) =~= all.take(j as int).push(all[j as int]));
            all.take(j as int).lemma_filter_push(all[j as int], wanted);
        }
        if same {
            count += 1;
        }
        j += 1;
    }
    proof {
        assert(all.take(group.len() as int) =~= all);
    }
    count
}

/// The condition label that occurs most often among the readings; among
/// equally frequent labels the one seen first.
fn dominant_label(group: &Vec<Reading>) -> (label: String)
    requires
        group.len() > 0,
    ensures
        label@ == dominant(labels(reading_views(group@))),
{
    let ghost all = labels(reading_views(group@));
    let mut best: usize = 0;
    let mut best_count: usize = count_label(group, 0);
    let mut i: usize = 1;
    while i < group.len()
        invariant
            1 <= i <= group.len(),
            all == labels(reading_views(group@)),
            best < i,
            best_count == occurrences(all, all[best as int]),
            forall|k: int| 0 <= k < i ==> occurrences(all, #[trigger] all[k]) <= best_count,
            forall|k: int| 0 <= k < best ==> occurrences(all, #[trigger] all[k]) < best_count,
        decreases group.len() - i,
    {
        let count = count_label(group, i);
        if count > best_count {
            best = i;
            best_count = count;
        }
        i += 1;
    }
    proof {
        assert(is_dominant(all, best as int));
        let chosen = choose|j: int| is_dominant(all, j);
        lemma_dominant_unique(all, chosen, best as int);
    }
    group[best].label.clone()
}

/// The keys of the lowest and of the highest temperature among the readings.
fn extremes(group: &Vec<Reading>) -> (range: (i64, i64))
    requires
        group.len() > 0,
    ensures
        range.0 == temps(reading_views(group@)).min(),
        range.1 == temps(reading_views(group@)).max(),
{
    let ghost all = temps(reading_views(group@));
    let mut low: i64 = group[0].temp;
    let mut high: i64 = group[0].temp;
    let ghost mut low_at: int = 0;
    let ghost mut high_at: int = 0;
    let mut i: usize = 1;
    while i < group.len()
        invariant
            1 <= i <= group.len(),
            all == temps(reading_views(group@)),
            0 <= low_at < i,
            0 <= high_at < i,
            all[low_at] == low,
            all[high_at] == high,
            forall|k: int| 0 <= k < i ==> low <= #[trigger] all[k],
            forall|k: int| 0 <= k < i ==> high >= #[trigger] all[k],
        decreases group.len() - i,
    {
        let t: i64 = group[i].temp;
        if t < low {
            low = t;
            proof {
                low_at = i as int;
            }
        }
        if t > high {
            high = t;
            proof {
                high_at = i as int;
            }
        }
        i += 1;
    }
    proof {
        all.min_ensures();
        all.max_ensures();
        assert(all.min() <= all[low_at] && all[high_at] <= all.max());
    }
    (low, high)
}

/// Whether the aggregates are those of the earliest days of the readings: one
/// for each distinct day up to five, in strictly increasing date order, each
/// the aggregate of exactly the readings of its day.
pub open spec fn summarizes(readings: Seq<ReadingView>, out: Seq<DayStatsView>) -> bool {
    &&& out.len() == if days_present(readings).len() <= MAX_DAYS {
        days_present(readings).len()
    } else {
        MAX_DAYS as nat
    }
    &&& forall|a: int, b: int| 0 <= a < b < out.len() ==> out[a].day < out[b].day
    &&& forall|k: int|
        0 <= k < out.len() ==> has_day(readings, out[k].day) && #[trigger] out[k] == day_stats(
            readings,
            out[k].day,
        )
    &&& forall|d: int|
        has_day(readings, d) ==> (exists|k: int| 0 <= k < out.len() && #[trigger] out[k].day == d)
            || (out.len() == MAX_DAYS && out[MAX_DAYS - 1].day < d)
}

/// Whether the map holds, under each day that occurs, the readings of that
/// day in the order they came, and nothing under any other day.
pub open spec fn grouped(by_day: Map<i32, Vec<Reading>>, readings: Seq<ReadingView>) -> bool {
    &&& forall|d: i32| #[trigger] by_day.contains_key(d) <==> has_day(readings, d as int)
    &&& forall|d: i32| #[trigger]
        by_day.contains_key(d) ==> by_day[d]@.len() > 0 && reading_views(by_day[d]@) == of_day(
            readings,
            d as int,
        )
    &&& forall|d: i32| !(#[trigger] by_day.contains_key(d)) ==> of_day(readings, d as int).len() == 0
}

/// Whether the days stand in strictly increasing order.
pub open spec fn strictly_increasing(days: Seq<i32>) -> bool {
    forall|a: int, b: int| 0 <= a < b < days.len() ==> days[a] < days[b]
}

fn copy_reading(r: &Reading) -> (copy: Reading)
    ensures
        copy@ == r@,
{
    Reading { day: r.day, temp: r.temp, label: r.label.clone() }
}

/// Groups the readings by day in one pass.
fn group_by_day(readings: &Vec<Reading>) -> (by_day: HashMap<i32, Vec<Reading>>)
    ensures
        grouped(by_day@, reading_views(readings@)),
{
    let ghost all = reading_views(readings@);
    let mut by_day: HashMap<i32, Vec<Reading>> = HashMap::new();
    let mut i: usize = 0;
    proof {
        reveal(Seq::filter);
        assert forall|d: i32| of_day(all.take(0), d as int).len() == 0 by {
            assert(all.take(0).len() == 0);
        }
    }
    while i < readings.len()
        invariant
            i <= readings.len(),
            all == reading_views(readings@),
            grouped(by_day@, all.take(i as int)),
        decreases readings.len() - i,
    {
        let ghost before = by_day@;
        let ghost seen = all.take(i as int);
        let day: i32 = readings[i].day;
        let mut group: Vec<Reading> = match by_day.remove(&day) {
            Some(g) => g,
            None => Vec::new(),
        };
        let ghost old_group = group@;
        group.push(copy_reading(&readings[i]));
        by_day.insert(day, group);
        proof {
            let next = all.take(i + 1);
            let r = all[i as int];
            assert(next =~= seen.push(r));
            assert(reading_views(old_group) =~= of_day(seen, day as int));
            assert forall|d: i32| #[trigger] by_day@.contains_key(d) <==> has_day(next, d as int) by {
                if d == day {
                    assert(next[i as int].day == d);
                } else if has_day(seen, d as int) {
                    let j = choose|j: int| 0 <= j < seen.len() && (#[trigger] seen[j]).day == d;
                    assert(next[j].day == d);
                } else if has_day(next, d as int) {
                    let j = choose|j: int| 0 <= j < next.len() && (#[trigger] next[j]).day == d;
                    assert(seen[j].day == d);
                }
            }
            assert forall|d: i32|
                of_day(next, d as int) == if d == day {
                    of_day(seen, d as int).push(r)
                } else {
                    of_day(seen, d as int)
                } by {
                seen.lemma_filter_push(r, |x: ReadingView| x.day == d as int);
            }
            assert forall|d: i32| #[trigger] by_day@.contains_key(d) implies by_day@[d]@.len() > 0
                && reading_views(by_day@[d]@) == of_day(next, d as int) by {
                if d != day {
                    assert(before.contains_key(d));
                }
            }
            assert forall|d: i32| !(#[trigger] by_day@.contains_key(d)) implies of_day(
                next,
                d as int,
            ).len() == 0 by {
                assert(!before.contains_key(d));
            }
        }
        i += 1;
    }
    proof {
        assert(all.take(readings.len() as int) =~= all);
    }
    by_day
}

/// Puts the day into its place among the days.
fn insert_day(days: &mut Vec<i32>, day: i32)
    requires
        strictly_increasing(old(days)@),
        !old(days)@.contains(day),
    ensures
        strictly_increasing(final(days)@),
        final(days)@.len() == old(days)@.len() + 1,
        forall|d: i32| final(days)@.contains(d) <==> old(days)@.contains(d) || d == day,
{
    let mut at: usize = 0;
    while at < days.len() && days[at] < day
        invariant
            at <= days.len(),
            *days == *old(days),
            forall|k: int| 0 <= k < at ==> days@[k] < day,
        decreases days.len() - at,
    {
        at += 1;
    }
    let ghost before = days@;
    days.insert(at, day);
    proof {
        let after = days@;
        assert forall|a: int, b: int| 0 <= a < b < after.len() implies after[a] < after[b] by {
            let was_a = if a < at { a } else { a - 1 };
            let was_b = if b < at { b } else { b - 1 };
            assert(a != at ==> after[a] == before[was_a]);
            assert(b != at ==> after[b] == before[was_b]);
        }
        assert forall|d: i32| after.contains(d) <==> before.contains(d) || d == day by {
            if after.contains(d) {
                let j = choose|j: int| 0 <= j < after.len() && after[j] == d;
                if j < at {
                    assert(before[j] == d);
                } else if j > at {
                    assert(before[j - 1] == d);
                }
            }
            if before.contains(d) {
                let j = choose|j: int| 0 <= j < before.len() && before[j] == d;
                if j < at {
                    assert(after[j] == d);
                } else {
                    assert(after[j + 1] == d);
                }
            }
            if d == day {
                assert(after[at as int] == d);
            }
        }
    }
}

/// The days that the map has groups for, in increasing order.
fn sorted_days(by_day: &HashMap<i32, Vec<Reading>>) -> (days: Vec<i32>)
    ensures
        strictly_increasing(days@),
        forall|d: i32| days@.contains(d) <==> by_day@.contains_key(d),
{
    let mut days: Vec<i32> = Vec::new();
    for day in it: by_day.keys()
        invariant
            strictly_increasing(days@),
            it.seq().no_duplicates(),
            it.seq().unref().to_set() == by_day@.dom(),
            forall|d: i32|
                days@.contains(d) <==> exists|j: int|
                    0 <= j < it.index() && #[trigger] it.seq().unref()[j] == d,
            it.index() == it.seq().len() ==> forall|d: i32|
                days@.contains(d) <==> by_day@.contains_key(d),
    {
        proof {
            if days@.contains(*day) {
                let j = choose|j: int|
                    0 <= j < it.index() && #[trigger] it.seq().unref()[j] == *day;
                assert(it.seq()[j] == it.seq()[it.index() as int]);
            }
        }
        let ghost before = days@;
        insert_day(&mut days, *day);
        proof {
            assert forall|d: i32|
                days@.contains(d) <==> exists|j: int|
                    0 <= j < it.index() + 1 && #[trigger] it.seq().unref()[j] == d by {
                if before.contains(d) {
                    let j = choose|j: int|
                        0 <= j < it.index() && #[trigger] it.seq().unref()[j] == d;
                    assert(0 <= j < it.index() + 1 && it.seq().unref()[j] == d);
                }
            }
            assert forall|d: i32| it.index() + 1 == it.seq().len() implies (days@.contains(d)
                <==> by_day@.contains_key(d)) by {
                assert(by_day@.contains_key(d) <==> it.seq().unref().to_set().contains(d));
                assert(it.seq().unref().to_set().contains(d) <==> it.seq().unref().contains(d));
            }
        }
    }
    days
}

/// The day aggregates of the readings of one location: one per distinct local
/// day, for the five earliest days at most, in date order. Each carries the
/// lowest and the highest temperature key of its day and the day's dominant
/// condition label. No readings give no aggregates.
pub fn aggregate_days(readings: &Vec<Reading>) -> (out: Vec<DayStats>)
    ensures
        summarizes(reading_views(readings@), stats_views(out@)),
{
    let ghost all = reading_views(readings@);
    let by_day = group_by_day(readings);
    let days = sorted_days(&by_day);
    let mut out: Vec<DayStats> = Vec::new();
    let mut k: usize = 0;
    while k < days.len() && k < MAX_DAYS
        invariant
            k <= days.len(),
            k <= MAX_DAYS,
            out.len() == k,
            grouped(by_day@, all),
            forall|d: i32| days@.contains(d) <==> by_day@.contains_key(d),
            forall|j: int| 0 <= j < k ==> (#[trigger] out@[j])@ == day_stats(all, days@[j] as int),
        decreases days.len() - k,
    {
        let day: i32 = days[k];
        assert(days@.contains(day));
        let group = by_day.get(&day).unwrap();
        let (min, max) = extremes(group);
        let condition = dominant_label(group);
        out.push(DayStats { day, min, max, condition });
        k += 1;
    }
    proof {
        let views = stats_views(out@);
        let numbers = days@.map_values(|d: i32| d as int);
        assert(days_present(all) =~= numbers.to_set()) by {
            assert forall|d: int| days_present(all).contains(d) <==> numbers.to_set().contains(
                d,
            ) by {
                if has_day(all, d) {
                    let i = choose|i: int| 0 <= i < all.len() && (#[trigger] all[i]).day == d;
                    let e: i32 = readings@[i].day;
                    assert(days@.contains(e));
                    let j = choose|j: int| 0 <= j < days@.len() && days@[j] == e;
                    assert(numbers[j] == d);
                }
                if numbers.to_set().contains(d) {
                    let j = choose|j: int| 0 <= j < numbers.len() && numbers[j] == d;
                    assert(days@.contains(days@[j]));
                }
            }
        }
        numbers.unique_seq_to_set();
        assert forall|j: int| 0 <= j < views.len() implies has_day(all, views[j].day)
            && #[trigger] views[j] == day_stats(all, views[j].day) by {
            assert(days@.contains(days@[j]));
        }
        assert forall|a: int, b: int| 0 <= a < b < views.len() implies views[a].day
            < views[b].day by {
            assert(views[a] == out@[a]@ && views[b] == out@[b]@);
        }
        assert forall|d: int| has_day(all, d) implies (exists|j: int|
            0 <= j < views.len() && #[trigger] views[j].day == d) || (views.len() == MAX_DAYS
            && views[MAX_DAYS - 1].day < d) by {
            assert(numbers.to_set().contains(d));
            let j = choose|j: int| 0 <= j < numbers.len() && numbers[j] == d;
            if j < views.len() {
                assert(views[j] == out@[j]@);
            }
        }
    }
    out
}

/// One aggregated day of one location, with its date printed.
#[derive(Debug, Clone, PartialEq, Eq)]
pub struct DaySummary {
    /// Local calendar day, counted from 1 January 1970.
    pub day: i32,
    /// The date as day, month and year.
    pub date: String,
    /// Key of the lowest temperature of the day, in degrees Celsius.
    pub min_c: i64,
    /// Key of the highest temperature of the day, in degrees Celsius.
    pub max_c: i64,
    /// The condition label seen most often on the day.
    pub condition: String,
}

impl DaySummary {
    /// The aggregate that the summary prints.
    pub open spec fn stats(&self) -> DayStatsView {
        DayStatsView {
            day: self.day as int,
            min: self.min_c as int,
            max: self.max_c as int,
            condition: self.condition@,
        }
    }
}

/// The aggregates that the summaries print, in order.
pub open spec fn summary_stats(days: Seq<DaySummary>) -> Seq<DayStatsView> {
    days.map_values(|d: DaySummary| d.stats())
}

/// A sample whose instant, or whose local time, lies outside the calendar.
#[derive(Debug, Clone, Copy, PartialEq, Eq, Structural)]
pub struct OutOfRange {
    /// Position of the sample among the samples of its location.
    pub index: usize,
}

/// What a sample says once it is resolved at the offset.
pub open spec fn resolved_view(sample: RawSample, offset_seconds: int) -> ReadingView {
    ReadingView {
        day: local_day_number(sample.utc_seconds as int, offset_seconds),
        temp: sample.temp as int,
        label: condition_text(sample.descriptions@),
    }
}

/// What the samples say once they are resolved at the offset, in order.
pub open spec fn resolved(samples: Seq<RawSample>, offset_seconds: int) -> Seq<ReadingView> {
    samples.map_values(|s: RawSample| resolved_view(s, offset_seconds))
}

/// Whether every sample can be resolved at the offset.
pub open spec fn all_resolvable(samples: Seq<RawSample>, offset_seconds: int) -> bool {
    forall|i: int|
        0 <= i < samples.len() ==> resolvable(
            (#[trigger] samples[i]).utc_seconds as int,
            offset_seconds,
        )
}

/// Whether the sample at `index` is the first that cannot be resolved at the offset.
pub open spec fn first_unresolvable(
    samples: Seq<RawSample>,
    offset_seconds: int,
    index: int,
) -> bool {
    &&& 0 <= index < samples.len()
    &&& !resolvable(samples[index].utc_seconds as int, offset_seconds)
    &&& forall|i: int|
        0 <= i < index ==> resolvable((#[trigger] samples[i]).utc_seconds as int, offset_seconds)
}

/// Resolves each sample to its local day and its condition label. Fails on
/// the first sample whose instant or local time lies outside the calendar.
pub fn resolve_samples(samples: &Vec<RawSample>, offset_seconds: i32) -> (result: Result<
    Vec<Reading>,
    OutOfRange,
>)
    ensures
        match result {
            Ok(readings) => {
                &&& all_resolvable(samples@, offset_seconds as int)
                &&& reading_views(readings@) == resolved(samples@, offset_seconds as int)
            },
            Err(e) => first_unresolvable(samples@, offset_seconds as int, e.index as int),
        },
{
    let mut readings: Vec<Reading> = Vec::new();
    let mut i: usize = 0;
    while i < samples.len()
        invariant
            i <= samples.len(),
            readings.len() == i,
            forall|j: int|
                0 <= j < i ==> resolvable(
                    (#[trigger] samples@[j]).utc_seconds as int,
                    offset_seconds as int,
                ),
            forall|j: int|
                0 <= j < i ==> (#[trigger] readings@[j])@ == resolved_view(
                    samples@[j],
                    offset_seconds as int,
                ),
        decreases samples.len() - i,
    {
        let sample = &samples[i];
        match local_day(sample.utc_seconds, offset_seconds) {
            None => {
                return Err(OutOfRange { index: i });
            },
            Some(day) => {
                let label = condition_label(&sample.descriptions);
                readings.push(Reading { day, temp: sample.temp, label });
            },
        }
        i += 1;
    }
    Ok(readings)
}

/// The day summaries of one location's forecast: the samples are resolved to
/// local days at the location's offset, grouped by day and aggregated, and
/// the five earliest days at most are returned in date order with their dates
/// printed. Fails on the first sample that lies outside the calendar; no
/// samples give no summaries.
pub fn summarize_forecast(samples: &Vec<RawSample>, offset_seconds: i32) -> (result: Result<
    Vec<DaySummary>,
    OutOfRange,
>)
    ensures
        match result {
            Ok(days) => {
                &&& all_resolvable(samples@, offset_seconds as int)
                &&& summarizes(resolved(samples@, offset_seconds as int), summary_stats(days@))
                &&& forall|k: int|
                    0 <= k < days.len() ==> (#[trigger] days@[k]).date@ == date_text(
                        days@[k].day as int,
                    )
            },
            Err(e) => first_unresolvable(samples@, offset_seconds as int, e.index as int),
        },
{
    let readings = match resolve_samples(samples, offset_seconds) {
        Ok(readings) => readings,
        Err(e) => {
            return Err(e);
        },
    };
    let stats = aggregate_days(&readings);
    let ghost all = resolved(samples@, offset_seconds as int);
    let mut days: Vec<DaySummary> = Vec::new();
    let mut k: usize = 0;
    while k < stats.len()
        invariant
            k <= stats.len(),
            days.len() == k,
            all == resolved(samples@, offset_seconds as int),
            all_resolvable(samples@, offset_seconds as int),
            summarizes(all, stats_views(stats@)),
            forall|j: int| 0 <= j < k ==> (#[trigger] days@[j]).stats() == stats@[j]@,
            forall|j: int|
                0 <= j < k ==> (#[trigger] days@[j]).date@ == date_text(days@[j].day as int),
        decreases stats.len() - k,
    {
        let stat = &stats[k];
        proof {
            let view = stats_views(stats@)[k as int];
            assert(has_day(all, view.day));
            let i = choose|i: int| 0 <= i < all.len() && (#[trigger] all[i]).day == view.day;
            lemma_resolved_day_in_range(samples@[i].utc_seconds as int, offset_seconds as int);
        }
        let date = format_day(stat.day).unwrap();
        days.push(
            DaySummary {
                day: stat.day,
                date,
                min_c: stat.min,
                max_c: stat.max,
                condition: stat.condition.clone(),
            },
        );
        k += 1;
    }
    proof {
        assert(summary_stats(days@) =~= stats_views(stats@));
    }
    Ok(days)
}

/// A day that some reading falls on has at least one reading.
pub proof fn lemma_present_day_has_readings(readings: Seq<ReadingView>, day: int)
    requires
        has_day(readings, day),
    ensures
        of_day(readings, day).len() > 0,
{
    let i = choose|i: int| 0 <= i < readings.len() && (#[trigger] readings[i]).day == day;
    let on_day = |r: ReadingView| r.day == day;
    readings.lemma_filter_contains(on_day, i);
}

/// The distinct days are finitely many, no more than there are readings.
pub proof fn lemma_days_present_finite(readings: Seq<ReadingView>)
    ensures
        days_present(readings).finite(),
        days_present(readings).len() <= readings.len(),
{
    let numbers = readings.map_values(|r: ReadingView| r.day);
    assert(days_present(readings) =~= numbers.to_set()) by {
        assert forall|d: int| days_present(readings).contains(d) <==> numbers.to_set().contains(
            d,
        ) by {
            if has_day(readings, d) {
                let i = choose|i: int| 0 <= i < readings.len() && (#[trigger] readings[i]).day == d;
                assert(numbers[i] == d);
            }
            if numbers.to_set().contains(d) {
                let i = choose|i: int| 0 <= i < numbers.len() && numbers[i] == d;
                assert(readings[i].day == d);
            }
        }
    }
    vstd::seq_lib::seq_to_set_is_finite(numbers);
    numbers.lemma_cardinality_of_set();
}

/// In every summary of a set of readings each day's lowest temperature is at
/// most its highest, and the days stand in strictly increasing date order, so
/// no date occurs twice.
pub proof fn lemma_summary_ordered(readings: Seq<ReadingView>, out: Seq<DayStatsView>)
    requires
        summarizes(readings, out),
    ensures
        forall|k: int| 0 <= k < out.len() ==> (#[trigger] out[k]).min <= out[k].max,
        forall|a: int, b: int| 0 <= a < b < out.len() ==> out[a].day < out[b].day,
        out.map_values(|s: DayStatsView| s.day).no_duplicates(),
{
    assert forall|k: int| 0 <= k < out.len() implies (#[trigger] out[k]).min <= out[k].max by {
        let group = temps(of_day(readings, out[k].day));
        lemma_present_day_has_readings(readings, out[k].day);
        group.min_ensures();
        group.max_ensures();
    }
    let dates = out.map_values(|s: DayStatsView| s.day);
    assert forall|a: int, b: int| 0 <= a < dates.len() && 0 <= b < dates.len() && a
        != b implies dates[a] != dates[b] by {
        if a < b {
            assert(out[a].day < out[b].day);
        } else {
            assert(out[b].day < out[a].day);
        }
    }
}

/// A summary never has more than five days, and has one for each distinct day
/// of the readings where there are five or fewer.
pub proof fn lemma_summary_count(readings: Seq<ReadingView>, out: Seq<DayStatsView>)
    requires
        summarizes(readings, out),
    ensures
        out.len() <= MAX_DAYS,
        out.len() <= readings.len(),
        days_present(readings).len() <= MAX_DAYS ==> out.len() == days_present(readings).len(),
        days_present(readings).len() >= MAX_DAYS ==> out.len() == MAX_DAYS,
        readings.len() == 0 ==> out.len() == 0,
{
    lemma_days_present_finite(readings);
}

proof fn lemma_days_agree(
    readings: Seq<ReadingView>,
    a: Seq<DayStatsView>,
    b: Seq<DayStatsView>,
    upto: int,
)
    requires
        summarizes(readings, a),
        summarizes(readings, b),
        0 <= upto <= a.len(),
    ensures
        a.len() == b.len(),
        forall|k: int| 0 <= k < upto ==> (#[trigger] a[k]).day == b[k].day,
    decreases upto,
{
    if upto > 0 {
        lemma_days_agree(readings, a, b, upto - 1);
        let k = upto - 1;
        lemma_later_day_is_missing(readings, a, b, k);
        lemma_later_day_is_missing(readings, b, a, k);
    }
}

/// Where two summaries of the same readings agree on the days before `k`,
/// the day at `k` of the one is not later than that of the other.
proof fn lemma_later_day_is_missing(
    readings: Seq<ReadingView>,
    a: Seq<DayStatsView>,
    b: Seq<DayStatsView>,
    k: int,
)
    requires
        summarizes(readings, a),
        summarizes(readings, b),
        a.len() == b.len(),
        0 <= k < a.len(),
        forall|j: int| 0 <= j < k ==> (#[trigger] a[j]).day == b[j].day,
    ensures
        b[k].day <= a[k].day,
{
    if a[k].day < b[k].day {
        let d = a[k].day;
        assert(has_day(readings, d));
        if exists|m: int| 0 <= m < b.len() && #[trigger] b[m].day == d {
            let m = choose|m: int| 0 <= m < b.len() && #[trigger] b[m].day == d;
            if m < k {
                assert(a[m].day == b[m].day && a[m].day < a[k].day);
            } else if m > k {
                assert(b[k].day < b[m].day);
            }
        } else if k < MAX_DAYS - 1 {
            assert(b[k].day < b[MAX_DAYS - 1].day);
        }
    }
}

/// The readings decide their summary: two summaries of the same readings
/// are equal.
pub proof fn lemma_summary_unique(
    readings: Seq<ReadingView>,
    a: Seq<DayStatsView>,
    b: Seq<DayStatsView>,
)
    requires
        summarizes(readings, a),
        summarizes(readings, b),
    ensures
        a == b,
{
    lemma_days_agree(readings, a, b, a.len() as int);
    assert forall|k: int| 0 <= k < a.len() implies a[k] == b[k] by {
        assert(a[k] == day_stats(readings, a[k].day));
        assert(b[k] == day_stats(readings, b[k].day));
    }
}

proof fn lemma_member_carries_over(
    a: Seq<ReadingView>,
    b: Seq<ReadingView>,
    day: int,
    x: ReadingView,
)
    requires
        forall|y: ReadingView| a.contains(y) ==> b.contains(y),
        of_day(a, day).contains(x),
    ensures
        of_day(b, day).contains(x),
{
    let on_day = |r: ReadingView| r.day == day;
    a.lemma_filter_contains_rev(on_day, x);
    let k = choose|k: int| 0 <= k < of_day(a, day).len() && of_day(a, day)[k] == x;
    a.lemma_filter_pred(on_day, k);
    let j = choose|j: int| 0 <= j < b.len() && b[j] == x;
    b.lemma_filter_contains(on_day, j);
}

/// Where every reading of the one sequence is among those of the other, a
/// day of the one is a day of the other, and its extremes there reach at
/// least as far.
proof fn lemma_extremes_widen(a: Seq<ReadingView>, b: Seq<ReadingView>, day: int)
    requires
        forall|y: ReadingView| a.contains(y) ==> b.contains(y),
        has_day(a, day),
    ensures
        has_day(b, day),
        temps(of_day(b, day)).min() <= temps(of_day(a, day)).min(),
        temps(of_day(b, day)).max() >= temps(of_day(a, day)).max(),
{
    let group_a = of_day(a, day);
    let group_b = of_day(b, day);
    let temps_a = temps(group_a);
    let temps_b = temps(group_b);
    let first = choose|i: int| 0 <= i < a.len() && (#[trigger] a[i]).day == day;
    assert(a.contains(a[first]));
    let there = choose|j: int| 0 <= j < b.len() && b[j] == a[first];
    assert(b[there].day == day);
    lemma_present_day_has_readings(a, day);
    temps_a.min_ensures();
    temps_a.max_ensures();
    temps_b.min_ensures();
    temps_b.max_ensures();
    let low = choose|i: int| 0 <= i < temps_a.len() && temps_a[i] == temps_a.min();
    assert(group_a.contains(group_a[low]));
    lemma_member_carries_over(a, b, day, group_a[low]);
    let low_there = choose|j: int| 0 <= j < group_b.len() && group_b[j] == group_a[low];
    assert(temps_b[low_there] == temps_a.min());
    let high = choose|i: int| 0 <= i < temps_a.len() && temps_a[i] == temps_a.max();
    assert(group_a.contains(group_a[high]));
    lemma_member_carries_over(a, b, day, group_a[high]);
    let high_there = choose|j: int| 0 <= j < group_b.len() && group_b[j] == group_a[high];
    assert(temps_b[high_there] == temps_a.max());
}

/// The order of the readings does not matter for the days of their summary
/// nor for the extremes of each day: two sequences that hold the same
/// readings have summaries that agree on both. (Which of several equally
/// frequent labels is a day's condition does depend on the order.)
pub proof fn lemma_summary_order_free(
    a: Seq<ReadingView>,
    b: Seq<ReadingView>,
    out_a: Seq<DayStatsView>,
    out_b: Seq<DayStatsView>,
)
    requires
        a.to_multiset() == b.to_multiset(),
        summarizes(a, out_a),
        summarizes(b, out_b),
    ensures
        out_a.len() == out_b.len(),
        forall|k: int|
            0 <= k < out_a.len() ==> {
                &&& (#[trigger] out_a[k]).day == out_b[k].day
                &&& out_a[k].min == out_b[k].min
                &&& out_a[k].max == out_b[k].max
            },
{
    a.to_multiset_ensures();
    b.to_multiset_ensures();
    assert forall|y: ReadingView| a.contains(y) <==> b.contains(y) by {
        assert(a.contains(y) <==> a.to_multiset().count(y) > 0);
        assert(b.contains(y) <==> b.to_multiset().count(y) > 0);
    }
    assert forall|d: int| has_day(a, d) <==> has_day(b, d) by {
        if has_day(a, d) {
            lemma_extremes_widen(a, b, d);
        }
        if has_day(b, d) {
            lemma_extremes_widen(b, a, d);
        }
    }
    assert(days_present(a) =~= days_present(b));
    let moved = Seq::new(out_a.len(), |k: int| day_stats(b, out_a[k].day));
    assert(summarizes(b, moved)) by {
        assert forall|d: int| has_day(b, d) implies (exists|k: int|
            0 <= k < moved.len() && #[trigger] moved[k].day == d) || (moved.len() == MAX_DAYS
            && moved[MAX_DAYS - 1].day < d) by {
            assert(has_day(a, d));
            if exists|k: int| 0 <= k < out_a.len() && #[trigger] out_a[k].day == d {
                let k = choose|k: int| 0 <= k < out_a.len() && #[trigger] out_a[k].day == d;
                assert(moved[k].day == d);
            }
        }
    }
    lemma_summary_unique(b, out_b, moved);
    assert forall|k: int| 0 <= k < out_a.len() implies {
        &&& (#[trigger] out_a[k]).day == out_b[k].day
        &&& out_a[k].min == out_b[k].min
        &&& out_a[k].max == out_b[k].max
    } by {
        assert(out_b[k] == moved[k]);
        lemma_extremes_widen(a, b, out_a[k].day);
        lemma_extremes_widen(b, a, out_a[k].day);
    }
}

} // verus!
