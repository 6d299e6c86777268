use weather_report::forecast::{
    aggregate_days, resolve_samples, summarize_forecast, DayStats, DaySummary, OutOfRange,
    RawSample, Reading, MAX_DAYS,
};
use weather_report::time::{MAX_INSTANT, MIN_INSTANT};

// An order-preserving integer key for a temperature.
fn key(t: f64) -> i64 {
    let bits = t.to_bits() as i64;
    bits ^ ((((bits >> 63) as u64) >> 1) as i64)
}

fn unkey(k: i64) -> f64 {
    f64::from_bits((k ^ ((((k >> 63) as u64) >> 1) as i64)) as u64)
}

fn sample(utc_seconds: i64, t: f64, descriptions: &[&str]) -> RawSample {
    RawSample {
        utc_seconds,
        temp: key(t),
        descriptions: descriptions.iter().map(|d| d.to_string()).collect(),
    }
}

fn reading(day: i32, t: f64, label: &str) -> Reading {
    Reading { day, temp: key(t), label: label.to_string() }
}

fn stats(day: i32, min: f64, max: f64, condition: &str) -> DayStats {
    DayStats { day, min: key(min), max: key(max), condition: condition.to_string() }
}

fn summary(day: i32, date: &str, min: f64, max: f64, condition: &str) -> DaySummary {
    DaySummary {
        day,
        date: date.to_string(),
        min_c: key(min),
        max_c: key(max),
        condition: condition.to_string(),
    }
}

const NOON: i64 = 1_700_049_600; // 15-11-2023 12:00 UTC, day 19676
const DAY: i64 = 86_400;

#[test]
fn keys_order_like_temperatures() {
    let temps = [-273.15, -40.0, -3.5, -0.0, 0.0, 1e-9, 2.25, 10.0, 20.0, 56.7];
    for w in temps.windows(2) {
        assert!(key(w[0]) < key(w[1]));
    }
    for t in temps {
        assert_eq!(unkey(key(t)).to_bits(), t.to_bits());
    }
}

#[test]
fn three_days_six_samples() {
    let samples = vec![
        sample(NOON, 10.0, &["clear"]),
        sample(NOON + 3 * 3600, 20.0, &["clear"]),
        sample(NOON + DAY, 5.0, &["rain"]),
        sample(NOON + 2 * DAY, 30.0, &["clouds"]),
        sample(NOON + 2 * DAY + 3 * 3600, 32.0, &["clouds"]),
        sample(NOON + 2 * DAY + 6 * 3600, 28.0, &["rain"]),
    ];
    let days = summarize_forecast(&samples, 0).unwrap();
    assert_eq!(
        days,
        vec![
            summary(19_676, "15-11-2023", 10.0, 20.0, "Clear"),
            summary(19_677, "16-11-2023", 5.0, 5.0, "Rain"),
            summary(19_678, "17-11-2023", 28.0, 32.0, "Clouds"),
        ]
    );
    assert_eq!(unkey(days[0].min_c), 10.0);
    assert_eq!(unkey(days[0].max_c), 20.0);
    assert_eq!(unkey(days[2].min_c), 28.0);
    assert_eq!(unkey(days[2].max_c), 32.0);
}

#[test]
fn input_order_does_not_matter_for_extremes_and_dates() {
    let samples = vec![
        sample(NOON + 2 * DAY + 6 * 3600, 28.0, &["rain"]),
        sample(NOON + DAY, 5.0, &["rain"]),
        sample(NOON + 3 * 3600, 20.0, &["clear"]),
        sample(NOON + 2 * DAY, 30.0, &["clouds"]),
        sample(NOON, 10.0, &["clear"]),
        sample(NOON + 2 * DAY + 3 * 3600, 32.0, &["clouds"]),
    ];
    assert_eq!(
        summarize_forecast(&samples, 0),
        Ok(vec![
            summary(19_676, "15-11-2023", 10.0, 20.0, "Clear"),
            summary(19_677, "16-11-2023", 5.0, 5.0, "Rain"),
            summary(19_678, "17-11-2023", 28.0, 32.0, "Clouds"),
        ])
    );
}

#[test]
fn no_samples_no_summaries() {
    assert_eq!(summarize_forecast(&vec![], 0), Ok(vec![]));
    assert_eq!(summarize_forecast(&vec![], 7200), Ok(vec![]));
    assert_eq!(aggregate_days(&vec![]), vec![]);
    assert_eq!(resolve_samples(&vec![], -3600), Ok(vec![]));
}

#[test]
fn at_most_five_days_and_the_earliest_ones() {
    let mut samples = Vec::new();
    for d in (0..8).rev() {
        samples.push(sample(NOON + d * DAY, d as f64, &["mist"]));
        samples.push(sample(NOON + d * DAY + 3600, d as f64 + 0.5, &["mist"]));
    }
    let days = summarize_forecast(&samples, 0).unwrap();
    assert_eq!(days.len(), MAX_DAYS);
    assert_eq!(
        days.iter().map(|d| d.date.as_str()).collect::<Vec<_>>(),
        vec!["15-11-2023", "16-11-2023", "17-11-2023", "18-11-2023", "19-11-2023"]
    );
    for (i, d) in days.iter().enumerate() {
        assert_eq!(d.day, 19_676 + i as i32);
        assert_eq!(unkey(d.min_c), i as f64);
        assert_eq!(unkey(d.max_c), i as f64 + 0.5);
    }
}

#[test]
fn count_is_distinct_days_up_to_five() {
    for n in 0..9i64 {
        let mut samples = Vec::new();
        for d in 0..n {
            for h in 0..3 {
                samples.push(sample(NOON + d * DAY + h * 3600, 1.0, &["fog"]));
            }
        }
        let days = summarize_forecast(&samples, 0).unwrap();
        assert_eq!(days.len() as i64, n.min(5));
    }
}

#[test]
fn summaries_are_sorted_without_duplicates_and_min_is_at_most_max() {
    let mut samples = Vec::new();
    let mut x: i64 = 12345;
    for _ in 0..200 {
        x = (x * 1_103_515_245 + 12_345) % 2_147_483_648;
        let at = NOON + (x % (4 * DAY)) - 2 * DAY;
        let t = ((x / 7) % 700) as f64 / 10.0 - 30.0;
        samples.push(sample(at, t, &["haze"]));
    }
    let days = summarize_forecast(&samples, 3600).unwrap();
    assert!(!days.is_empty() && days.len() <= 5);
    for w in days.windows(2) {
        assert!(w[0].day < w[1].day);
        assert_ne!(w[0].date, w[1].date);
    }
    for d in &days {
        assert!(d.min_c <= d.max_c);
        assert!(unkey(d.min_c) <= unkey(d.max_c));
    }
}

#[test]
fn offset_decides_the_local_day() {
    // 23:00 UTC on 15-11-2023 and 01:00 UTC on 16-11-2023
    let late = NOON + 11 * 3600;
    let early = NOON + 13 * 3600;
    let samples = vec![sample(late, 3.0, &["snow"]), sample(early, -2.0, &["snow"])];
    assert_eq!(
        summarize_forecast(&samples, 0),
        Ok(vec![
            summary(19_676, "15-11-2023", 3.0, 3.0, "Snow"),
            summary(19_677, "16-11-2023", -2.0, -2.0, "Snow"),
        ])
    );
    assert_eq!(
        summarize_forecast(&samples, 7200),
        Ok(vec![summary(19_677, "16-11-2023", -2.0, 3.0, "Snow")])
    );
    assert_eq!(
        summarize_forecast(&samples, -7200),
        Ok(vec![summary(19_676, "15-11-2023", -2.0, 3.0, "Snow")])
    );
    // an offset of a day or more counts as none
    assert_eq!(
        summarize_forecast(&samples, 86_400),
        summarize_forecast(&samples, 0)
    );
}

#[test]
fn missing_description_is_unknown_and_counts_for_extremes() {
    let samples = vec![
        sample(NOON, 4.0, &[]),
        sample(NOON + 3600, -6.0, &[]),
        sample(NOON + 7200, 1.0, &["drizzle"]),
    ];
    assert_eq!(
        summarize_forecast(&samples, 0),
        Ok(vec![summary(19_676, "15-11-2023", -6.0, 4.0, "Unknown")])
    );
}

#[test]
fn only_the_first_description_counts() {
    let samples = vec![
        sample(NOON, 4.0, &["light rain", "mist"]),
        sample(NOON + 3600, 5.0, &["light rain", "fog"]),
        sample(NOON + 7200, 6.0, &["mist", "light rain"]),
    ];
    assert_eq!(
        summarize_forecast(&samples, 0),
        Ok(vec![summary(19_676, "15-11-2023", 4.0, 6.0, "Light rain")])
    );
}

#[test]
fn duplicate_instants_are_separate_samples() {
    let samples = vec![
        sample(NOON, 1.0, &["rain"]),
        sample(NOON + 3600, 2.0, &["clear"]),
        sample(NOON + 3600, 2.0, &["clear"]),
    ];
    assert_eq!(
        summarize_forecast(&samples, 0),
        Ok(vec![summary(19_676, "15-11-2023", 1.0, 2.0, "Clear")])
    );
}

#[test]
fn tie_goes_to_the_label_seen_first() {
    let a = vec![
        reading(7, 1.0, "Rain"),
        reading(7, 2.0, "Clear"),
        reading(7, 3.0, "Clear"),
        reading(7, 4.0, "Rain"),
    ];
    assert_eq!(aggregate_days(&a), vec![stats(7, 1.0, 4.0, "Rain")]);
    let b = vec![
        reading(7, 2.0, "Clear"),
        reading(7, 1.0, "Rain"),
        reading(7, 4.0, "Rain"),
        reading(7, 3.0, "Clear"),
    ];
    assert_eq!(aggregate_days(&b), vec![stats(7, 1.0, 4.0, "Clear")]);
    let c = vec![
        reading(7, 2.0, "Clear"),
        reading(7, 1.0, "Rain"),
        reading(7, 4.0, "Rain"),
        reading(7, 3.0, "Fog"),
    ];
    assert_eq!(aggregate_days(&c), vec![stats(7, 1.0, 4.0, "Rain")]);
}

#[test]
fn aggregate_groups_by_day_number() {
    let readings = vec![
        reading(3, 9.5, "Clouds"),
        reading(-2, -1.0, "Snow"),
        reading(3, 7.5, "Clouds"),
        reading(0, 0.0, "Mist"),
        reading(-2, -8.0, "Clear"),
        reading(-2, -4.0, "Clear"),
    ];
    assert_eq!(
        aggregate_days(&readings),
        vec![
            stats(-2, -8.0, -1.0, "Clear"),
            stats(0, 0.0, 0.0, "Mist"),
            stats(3, 7.5, 9.5, "Clouds"),
        ]
    );
}

#[test]
fn aggregate_keeps_the_five_earliest_of_many_days() {
    let mut readings = Vec::new();
    for d in [40, 10, 30, 20, 60, 50, 0, 70, 10, 0] {
        readings.push(reading(d, d as f64, "Clear"));
    }
    let out = aggregate_days(&readings);
    assert_eq!(
        out.iter().map(|s| s.day).collect::<Vec<_>>(),
        vec![0, 10, 20, 30, 40]
    );
}

#[test]
fn resolve_gives_day_and_label() {
    let samples = vec![
        sample(NOON, 1.5, &["few clouds"]),
        sample(NOON + DAY, 2.5, &[]),
    ];
    assert_eq!(
        resolve_samples(&samples, 0),
        Ok(vec![reading(19_676, 1.5, "Few clouds"), reading(19_677, 2.5, "Unknown")])
    );
    assert_eq!(
        resolve_samples(&samples, 43_200),
        Ok(vec![reading(19_677, 1.5, "Few clouds"), reading(19_678, 2.5, "Unknown")])
    );
}

#[test]
fn first_sample_outside_the_calendar_is_reported() {
    let samples = vec![
        sample(NOON, 1.0, &["clear"]),
        sample(MAX_INSTANT + 1, 2.0, &["clear"]),
        sample(MIN_INSTANT - 1, 3.0, &["clear"]),
    ];
    assert_eq!(summarize_forecast(&samples, 0), Err(OutOfRange { index: 1 }));
    assert_eq!(resolve_samples(&samples, 0), Err(OutOfRange { index: 1 }));
    let edge = vec![sample(MAX_INSTANT, 2.0, &["clear"])];
    assert_eq!(
        summarize_forecast(&edge, 0),
        Ok(vec![summary(95_026_236, "31-12-+262142", 2.0, 2.0, "Clear")])
    );
    assert_eq!(summarize_forecast(&edge, 1), Err(OutOfRange { index: 0 }));
    let low = vec![sample(NOON, 0.0, &[]), sample(MIN_INSTANT, 2.0, &["clear"])];
    assert!(summarize_forecast(&low, 3600).is_ok());
    assert_eq!(summarize_forecast(&low, -3600), Err(OutOfRange { index: 1 }));
}
