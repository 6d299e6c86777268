use weather_report::config::{search_order, settings_from, ConfigError, Settings};
use weather_report::forecast::{DaySummary, OutOfRange, RawSample};
use weather_report::report::{
    build_current_out, build_location_report, build_report, generated_at, CurrentReading,
    CurrentReport, LocationReport,
};
use weather_report::time::{MAX_INSTANT, MIN_INSTANT};

#[test]
fn current_entry() {
    let cur = CurrentReading {
        utc_seconds: 1_700_000_000,
        offset_seconds: -16_200,
        temp: 215,
        humidity: 64,
        descriptions: vec!["broken clouds".to_string(), "mist".to_string()],
    };
    assert_eq!(
        build_current_out("Caracas".to_string(), &cur),
        Some(CurrentReport {
            city: "Caracas".to_string(),
            time_local: "14-11-2023 17:43".to_string(),
            utc_offset: "UTC-4:30".to_string(),
            temp_c: 215,
            humidity_pct: 64,
            condition: "Broken clouds".to_string(),
        })
    );
}

#[test]
fn current_entry_without_description_and_with_bad_offset() {
    let cur = CurrentReading {
        utc_seconds: 0,
        offset_seconds: 90_000,
        temp: -1,
        humidity: 0,
        descriptions: vec![],
    };
    assert_eq!(
        build_current_out("Nowhere".to_string(), &cur),
        Some(CurrentReport {
            city: "Nowhere".to_string(),
            time_local: "01-01-1970 00:00".to_string(),
            utc_offset: "UTC+25".to_string(),
            temp_c: -1,
            humidity_pct: 0,
            condition: "Unknown".to_string(),
        })
    );
}

#[test]
fn current_entry_outside_the_calendar() {
    let mut cur = CurrentReading {
        utc_seconds: MAX_INSTANT + 1,
        offset_seconds: 0,
        temp: 0,
        humidity: 0,
        descriptions: vec![],
    };
    assert_eq!(build_current_out("X".to_string(), &cur), None);
    cur.utc_seconds = MIN_INSTANT - 1;
    assert_eq!(build_current_out("X".to_string(), &cur), None);
    cur.utc_seconds = MAX_INSTANT;
    cur.offset_seconds = 3600;
    assert!(build_current_out("X".to_string(), &cur).is_some());
}

#[test]
fn location_entry() {
    let samples = vec![
        RawSample { utc_seconds: 1_700_049_600, temp: 3, descriptions: vec!["rain".to_string()] },
        RawSample { utc_seconds: 1_700_060_400, temp: -4, descriptions: vec!["rain".to_string()] },
    ];
    assert_eq!(
        build_location_report("Paris".to_string(), &samples, 3600),
        Ok(LocationReport {
            city: "Paris".to_string(),
            days: vec![DaySummary {
                day: 19_676,
                date: "15-11-2023".to_string(),
                min_c: -4,
                max_c: 3,
                condition: "Rain".to_string(),
            }],
        })
    );
    assert_eq!(
        build_location_report("Tokyo".to_string(), &vec![], 32_400),
        Ok(LocationReport { city: "Tokyo".to_string(), days: vec![] })
    );
    let bad = vec![RawSample { utc_seconds: i64::MAX, temp: 0, descriptions: vec![] }];
    assert_eq!(
        build_location_report("Paris".to_string(), &bad, 0),
        Err(OutOfRange { index: 0 })
    );
}

#[test]
fn generation_time_is_printed_in_utc() {
    assert_eq!(generated_at(1_700_000_000), Some("14-11-2023 22:13".to_string()));
    assert_eq!(generated_at(0), Some("01-01-1970 00:00".to_string()));
    assert_eq!(generated_at(i64::MAX), None);
}

#[test]
fn report_holds_what_it_is_given() {
    let current = vec![CurrentReport {
        city: "Lyon".to_string(),
        time_local: "01-01-1970 01:00".to_string(),
        utc_offset: "UTC+1".to_string(),
        temp_c: 1,
        humidity_pct: 2,
        condition: "Clear".to_string(),
    }];
    let forecasts = vec![LocationReport { city: "Lyon".to_string(), days: vec![] }];
    let report = build_report("14-11-2023 22:13".to_string(), current.clone(), forecasts.clone());
    assert_eq!(report.generated_at_utc, "14-11-2023 22:13");
    assert_eq!(report.current, current);
    assert_eq!(report.forecasts, forecasts);
}

#[test]
fn settings_are_normalised() {
    assert_eq!(
        settings_from("  abc123 \n", "METRIC", "EN"),
        Ok(Settings {
            api_key: "abc123".to_string(),
            units: "metric".to_string(),
            lang: "en".to_string(),
        })
    );
    assert_eq!(
        settings_from("k", "Imperial", "pt_BR"),
        Ok(Settings {
            api_key: "k".to_string(),
            units: "imperial".to_string(),
            lang: "pt_br".to_string(),
        })
    );
}

#[test]
fn empty_credential_is_refused() {
    assert_eq!(settings_from("", "metric", "en"), Err(ConfigError::EmptyApiKey));
    assert_eq!(settings_from("  \t\n", "metric", "en"), Err(ConfigError::EmptyApiKey));
}

#[test]
fn configuration_is_searched_in_order() {
    assert_eq!(
        search_order(Some("a"), Some("b"), "c", "d", Some("e")),
        vec!["a", "b", "c", "d", "e"]
    );
    assert_eq!(search_order(None, Some("b"), "c", "d", None), vec!["b", "c", "d"]);
    assert_eq!(search_order(Some("a"), None, "c", "d", None), vec!["a", "c", "d"]);
    assert_eq!(search_order::<&str>(None, None, "c", "d", None), vec!["c", "d"]);
}
