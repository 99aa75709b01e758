use ocu::snapshot::{
    local_timezone, normalized_percent, snapshot_from_payload, timestamp_from_json,
    ApiAdditionalRateLimit, ApiPayload, ApiRateLimit, ApiWindow, JsonScalar, WindowUsage,
};
use ocu::text::parse_i64;

/// The whole part of a JSON percentage, as the program reads it.
fn whole(value: Option<f64>) -> Option<i64> {
    value.filter(|v| v.is_finite()).map(|v| v.floor() as i64)
}

#[test]
fn parse_snapshot_should_build_two_codex_buckets() {
    // {"rate_limit": {"primary_window": {"reset_at": 1781517330, "used_percent": 15.9},
    //   "secondary_window": {"reset_at": "1781763927", "used_percent": "38.2"}},
    //  "additional_rate_limits": [{"rate_limit": {
    //   "primary_window": {"reset_at": null, "used_percent": null},
    //   "secondary_window": {"reset_at": 1782143467, "used_percent": 3}}}]}
    let payload = ApiPayload {
        rate_limit: ApiRateLimit {
            primary_window: ApiWindow {
                reset_at: timestamp_from_json(Some(JsonScalar::Number(1781517330))),
                used_percent: whole(Some(15.9)),
            },
            secondary_window: ApiWindow {
                reset_at: timestamp_from_json(Some(JsonScalar::Text("1781763927".to_string()))),
                used_percent: whole("38.2".parse::<f64>().ok()),
            },
        },
        additional_rate_limits: vec![ApiAdditionalRateLimit {
            rate_limit: ApiRateLimit {
                primary_window: ApiWindow {
                    reset_at: timestamp_from_json(None),
                    used_percent: whole(None),
                },
                secondary_window: ApiWindow {
                    reset_at: timestamp_from_json(Some(JsonScalar::Number(1782143467))),
                    used_percent: whole(Some(3.0)),
                },
            },
        }],
    };

    let snapshot = snapshot_from_payload(&payload);

    assert_eq!(snapshot.buckets.len(), 2);
    assert_eq!(snapshot.buckets[0].title, "Main Codex bucket");
    assert_eq!(snapshot.buckets[0].windows[0].used_percent, 15);
    assert_eq!(snapshot.buckets[0].windows[1].used_percent, 38);
    assert_eq!(snapshot.buckets[1].title, "Codex 5.3 Spark");
    assert_eq!(snapshot.buckets[0].windows[1].reset_at, Some(1781763927));
    assert_eq!(snapshot.buckets[1].windows[0].reset_at, None);
    assert_eq!(snapshot.buckets[1].windows[0].used_percent, 0);
    assert_eq!(snapshot.buckets[1].windows[1].used_percent, 3);
    assert_eq!(snapshot.buckets[0].windows[0].label, "5h");
    assert_eq!(snapshot.buckets[0].windows[1].label, "weekly");
}

#[test]
fn normalized_percent_should_clamp_invalid_and_out_of_range_values() {
    assert_eq!(normalized_percent(whole(None)), 0);
    assert_eq!(normalized_percent(whole(Some(-10.0))), 0);
    assert_eq!(normalized_percent(whole(Some(101.8))), 100);
}

#[test]
fn normalized_percent_keeps_whole_values_in_range() {
    assert_eq!(normalized_percent(Some(0)), 0);
    assert_eq!(normalized_percent(Some(42)), 42);
    assert_eq!(normalized_percent(Some(100)), 100);
    assert_eq!(normalized_percent(Some(i64::MAX)), 100);
    assert_eq!(normalized_percent(Some(i64::MIN)), 0);
}

#[test]
fn missing_spark_limit_shows_unknown_windows() {
    let payload = ApiPayload {
        rate_limit: ApiRateLimit::default(),
        additional_rate_limits: Vec::new(),
    };
    let snapshot = snapshot_from_payload(&payload);
    assert_eq!(snapshot.buckets.len(), 2);
    for bucket in &snapshot.buckets {
        for window in &bucket.windows {
            assert_eq!(window.reset_at, None);
            assert_eq!(window.used_percent, 0);
        }
    }
}

#[test]
fn later_additional_limits_are_ignored() {
    let limit = |reset: i64, used: i64| ApiAdditionalRateLimit {
        rate_limit: ApiRateLimit {
            primary_window: ApiWindow { reset_at: Some(reset), used_percent: Some(used) },
            secondary_window: ApiWindow::default(),
        },
    };
    let one = ApiPayload {
        rate_limit: ApiRateLimit::default(),
        additional_rate_limits: vec![limit(10, 20)],
    };
    let more = ApiPayload {
        rate_limit: ApiRateLimit::default(),
        additional_rate_limits: vec![limit(10, 20), limit(99, 99), limit(1, 1)],
    };
    assert_eq!(snapshot_from_payload(&one), snapshot_from_payload(&more));
    assert_eq!(snapshot_from_payload(&one).buckets[1].windows[0].used_percent, 20);
}

#[test]
fn timestamps_read_from_numbers_and_decimal_text() {
    assert_eq!(timestamp_from_json(Some(JsonScalar::Number(-5))), Some(-5));
    assert_eq!(timestamp_from_json(Some(JsonScalar::Text("+17".to_string()))), Some(17));
    assert_eq!(timestamp_from_json(Some(JsonScalar::Text("17.5".to_string()))), None);
    assert_eq!(timestamp_from_json(Some(JsonScalar::Text(" 17".to_string()))), None);
    assert_eq!(timestamp_from_json(Some(JsonScalar::Other)), None);
    assert_eq!(timestamp_from_json(None), None);
}

#[test]
fn parse_i64_matches_std_on_edge_cases() {
    for text in [
        "0",
        "-0",
        "+0",
        "42",
        "-42",
        "007",
        "9223372036854775807",
        "9223372036854775808",
        "-9223372036854775808",
        "-9223372036854775809",
        "99999999999999999999999",
        "",
        "+",
        "-",
        "1a",
        "a1",
        "1 ",
        "--1",
        "+-1",
        "١٢",
    ] {
        assert_eq!(parse_i64(text), text.parse::<i64>().ok(), "{text:?}");
    }
}

#[test]
fn reset_time_is_shown_in_the_chosen_zone() {
    let window = WindowUsage { label: "5h", reset_at: Some(1781517330), used_percent: 15 };
    assert_eq!(window.reset_at_text("UTC"), "Jun 15, 2026 09:55:30");
    assert_eq!(window.reset_at_text("America/New_York"), "Jun 15, 2026 05:55:30");
    let epoch = WindowUsage { label: "5h", reset_at: Some(0), used_percent: 0 };
    assert_eq!(epoch.reset_at_text("UTC"), "Jan 1, 1970 00:00:00");
}

#[test]
fn reset_time_is_unknown_without_a_usable_instant_or_zone() {
    let none = WindowUsage { label: "weekly", reset_at: None, used_percent: 0 };
    assert_eq!(none.reset_at_text("UTC"), "unknown");
    let huge = WindowUsage { label: "weekly", reset_at: Some(i64::MAX), used_percent: 0 };
    assert_eq!(huge.reset_at_text("UTC"), "unknown");
    let window = WindowUsage { label: "weekly", reset_at: Some(0), used_percent: 0 };
    assert_eq!(window.reset_at_text("Mars/Olympus_Mons"), "unknown");
}

#[test]
fn local_timezone_falls_back_to_utc() {
    assert_eq!(local_timezone(None), "UTC");
    assert_eq!(local_timezone(Some("Nowhere/Special".to_string())), "UTC");
    assert_eq!(local_timezone(Some("".to_string())), "UTC");
    assert_eq!(local_timezone(Some("Europe/Berlin".to_string())), "Europe/Berlin");
}
