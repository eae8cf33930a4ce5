use codex_usage::daykey::{date_readable, day_key};
use codex_usage::json_text::{extract_last_json_value, normalize_ccusage_output};
use codex_usage::local_usage::{
    can_collect_local_usage, collect_local_usage_summary, entry_count, DailyReport, DayRecord,
    ModelEntry,
};
use codex_usage::calendar::previous_day_key;

fn model(name: &str, total: Option<u64>, parts: Vec<u64>) -> ModelEntry {
    ModelEntry { name: name.to_string(), total_tokens: total, part_tokens: parts }
}

fn day(date: &str, total: u64, models: Vec<ModelEntry>) -> DayRecord {
    DayRecord { date: Some(date.to_string()), total_tokens: Some(total), models }
}

fn daily_object_with_empty_array() -> serde_json::Value {
    let mut map = serde_json::Map::new();
    map.insert("daily".to_string(), serde_json::Value::Array(Vec::new()));
    serde_json::Value::Object(map)
}

#[test]
fn ccusage_normalize_ccusage_output_converts_array_to_daily_object() {
    let normalized = normalize_ccusage_output("noise\n[]\n").expect("normalized output");
    let value: serde_json::Value = serde_json::from_str(&normalized).expect("valid json");

    assert_eq!(value, daily_object_with_empty_array());
}

#[test]
fn ccusage_tests_normalize_ccusage_output_converts_array_to_daily_object() {
    let normalized = normalize_ccusage_output("noise\n[]\n").expect("normalized output");
    let value: serde_json::Value = serde_json::from_str(&normalized).expect("valid json");

    assert_eq!(value, daily_object_with_empty_array());
}

#[test]
fn normalize_keeps_objects_with_daily_array_only() {
    let normalized =
        normalize_ccusage_output("log line\n{\"daily\": [1, 2]}").expect("normalized output");
    assert_eq!(normalized, "{\"daily\":[1,2]}");
    assert_eq!(normalize_ccusage_output("{\"daily\": 3}"), None);
    assert_eq!(normalize_ccusage_output("\"text\""), None);
    assert_eq!(normalize_ccusage_output("no json here"), None);
}

#[test]
fn extract_takes_whole_output_or_last_json_start() {
    assert_eq!(extract_last_json_value("  [1]  ").as_deref(), Some("[1]"));
    assert_eq!(
        extract_last_json_value("warn { not json\n{\"a\": 1}\n").as_deref(),
        Some("{\"a\": 1}")
    );
    assert_eq!(extract_last_json_value("nothing"), None);
}

#[test]
fn ccusage_collect_local_usage_summary_reads_today_yesterday_total_and_models() {
    let daily = DailyReport {
        daily: Some(vec![
            day("2026-06-12", 1000, vec![model("gpt-5.5", Some(1000), vec![])]),
            day(
                "2026-06-13",
                3000,
                vec![model("gpt-5.5", Some(2000), vec![]), model("gpt-5.4", None, vec![700, 300])],
            ),
        ]),
    };

    let summary = collect_local_usage_summary(&daily, "2026-06-13").expect("summary");

    assert_eq!(summary.today.tokens, 3000);
    assert_eq!(summary.yesterday.tokens, 1000);
    assert_eq!(summary.last_30_days.tokens, 4000);
    assert_eq!(summary.models[0].name, "gpt-5.5");
    assert_eq!(summary.models[0].tokens, 3000);
    assert_eq!(summary.models[1].name, "gpt-5.4");
    assert_eq!(summary.models[1].tokens, 1000);
}

#[test]
fn ccusage_tests_collect_local_usage_summary_reads_today_yesterday_total_and_models() {
    let daily = DailyReport {
        daily: Some(vec![
            day("2026-05-30", 9000, vec![model("gpt-5.4", Some(9000), vec![])]),
            day("2026-06-12", 1000, vec![model("gpt-5.5", Some(1000), vec![])]),
            day(
                "2026-06-13",
                3000,
                vec![model("gpt-5.5", Some(2000), vec![]), model("gpt-5.4", None, vec![700, 300])],
            ),
        ]),
    };

    let summary = collect_local_usage_summary(&daily, "2026-06-13").expect("summary");

    assert_eq!(summary.today.tokens, 3000);
    assert_eq!(summary.yesterday.tokens, 1000);
    assert_eq!(summary.last_7_days.tokens, 4000);
    assert_eq!(summary.last_30_days.tokens, 13000);
    assert_eq!(summary.models[0].name, "gpt-5.4");
    assert_eq!(summary.models[0].tokens, 10000);
    assert_eq!(summary.models[1].name, "gpt-5.5");
    assert_eq!(summary.models[1].tokens, 3000);
}

#[test]
fn summary_labels_windows_and_indices() {
    let daily = DailyReport {
        daily: Some(vec![
            day("2026-05-14", 5, vec![]),
            day("2026-05-15", 7, vec![]),
            day("2026-06-07", 11, vec![]),
            day("2026-06-06", 13, vec![]),
            day("2026-06-14", 17, vec![]),
        ]),
    };
    let summary = collect_local_usage_summary(&daily, "2026-06-13").expect("summary");
    assert_eq!(summary.today.label, "今日");
    assert_eq!(summary.yesterday.label, "昨日");
    assert_eq!(summary.last_7_days.label, "近 7 天");
    assert_eq!(summary.last_30_days.label, "近 30 天");
    assert_eq!(summary.today.tokens, 0);
    assert_eq!(summary.today.day, None);
    assert_eq!(summary.last_7_days.days, vec![2]);
    assert_eq!(summary.last_7_days.tokens, 11);
    assert_eq!(summary.last_30_days.days, vec![1, 2, 3]);
    assert_eq!(summary.last_30_days.tokens, 31);
    assert!(summary.models.is_empty());
    assert_eq!(summary.model_tokens, 0);
}

#[test]
fn last_record_of_a_day_wins_and_undated_records_are_skipped() {
    let daily = DailyReport {
        daily: Some(vec![
            day("2026-06-13T01:00:00Z", 100, vec![model("a", Some(1), vec![])]),
            DayRecord { date: None, total_tokens: Some(999), models: vec![model("b", Some(5), vec![])] },
            day("20260613", 200, vec![model("a", Some(2), vec![])]),
        ]),
    };
    let summary = collect_local_usage_summary(&daily, "2026-06-13").expect("summary");
    assert_eq!(summary.today.tokens, 200);
    assert_eq!(summary.today.day, Some(2));
    assert_eq!(summary.last_7_days.tokens, 300);
    assert_eq!(summary.models.len(), 1);
    assert_eq!(summary.models[0].name, "a");
    assert_eq!(summary.models[0].tokens, 3);
}

#[test]
fn models_with_equal_tokens_rank_by_name_and_zero_counts_are_left_out() {
    let daily = DailyReport {
        daily: Some(vec![day(
            "2026-06-13",
            0,
            vec![
                model("zeta", Some(50), vec![]),
                model("alpha", Some(50), vec![]),
                model("none", Some(0), vec![]),
                model("parts", None, vec![]),
            ],
        )]),
    };
    let summary = collect_local_usage_summary(&daily, "2026-06-13").expect("summary");
    assert_eq!(summary.models.len(), 2);
    assert_eq!(summary.models[0].name, "alpha");
    assert_eq!(summary.models[1].name, "zeta");
    assert_eq!(summary.model_tokens, 100);
}

#[test]
fn missing_daily_array_is_an_error() {
    let err = collect_local_usage_summary(&DailyReport { daily: None }, "2026-06-13").err();
    assert_eq!(err.as_deref(), Some("missing daily usage"));
}

#[test]
fn computability_check_catches_overflow_and_cut_dates() {
    let ok = DailyReport { daily: Some(vec![day("2026-06-13", 1, vec![])]) };
    assert!(can_collect_local_usage(&ok));
    assert!(can_collect_local_usage(&DailyReport { daily: None }));

    let overflow = DailyReport {
        daily: Some(vec![
            day("2026-06-12", 1, vec![model("m", Some(u64::MAX), vec![])]),
            day("2026-06-13", 1, vec![model("m", Some(1), vec![])]),
        ]),
    };
    assert!(!can_collect_local_usage(&overflow));

    let parts = DailyReport {
        daily: Some(vec![day("2026-06-13", 1, vec![model("m", None, vec![u64::MAX, 1])])]),
    };
    assert!(!can_collect_local_usage(&parts));

    let undated_overflow = DailyReport {
        daily: Some(vec![DayRecord {
            date: None,
            total_tokens: None,
            models: vec![model("m", None, vec![u64::MAX, 1])],
        }]),
    };
    assert!(can_collect_local_usage(&undated_overflow));

    let parts_with_total = DailyReport {
        daily: Some(vec![day("2026-06-13", 1, vec![model("m", Some(2), vec![u64::MAX, 1])])]),
    };
    assert!(can_collect_local_usage(&parts_with_total));

    let cut = DailyReport { daily: Some(vec![day("2026-06-1é", 1, vec![])]) };
    assert!(!can_collect_local_usage(&cut));
}

#[test]
fn entry_count_prefers_total_then_sums_parts() {
    assert_eq!(entry_count(&model("m", Some(7), vec![1, 2])), 7);
    assert_eq!(entry_count(&model("m", None, vec![1, 2, 3])), 6);
    assert_eq!(entry_count(&model("m", None, vec![])), 0);
}

#[test]
fn day_keys_from_dashed_and_compact_dates() {
    assert_eq!(day_key("  2026-06-13T10:00:00Z ").as_deref(), Some("2026-06-13"));
    assert_eq!(day_key("20260613").as_deref(), Some("2026-06-13"));
    assert_eq!(day_key("2026/06/13"), None);
    assert_eq!(day_key("2026061"), None);
    assert_eq!(day_key("2026-06-1"), None);
    assert!(date_readable("2026-06-13"));
    assert!(!date_readable("2026-06-1é"));
    assert!(date_readable("anything else"));
}

#[test]
fn previous_day_crosses_months_years_and_leap_days() {
    assert_eq!(previous_day_key("2026-06-13").as_deref(), Some("2026-06-12"));
    assert_eq!(previous_day_key("2026-03-01").as_deref(), Some("2026-02-28"));
    assert_eq!(previous_day_key("2024-03-01").as_deref(), Some("2024-02-29"));
    assert_eq!(previous_day_key("2026-01-01").as_deref(), Some("2025-12-31"));
    assert_eq!(previous_day_key("2026-6-3").as_deref(), Some("2026-06-02"));
    assert_eq!(previous_day_key("2026-02-30"), None);
    assert_eq!(previous_day_key("2026-06"), None);
    assert_eq!(previous_day_key(""), None);
}

#[test]
fn windows_nest_on_a_concrete_report() {
    let daily = DailyReport {
        daily: Some(vec![
            day("2026-06-07", 4, vec![]),
            day("2026-06-12", 2, vec![]),
            day("2026-06-13", 8, vec![]),
            day("2026-05-20", 16, vec![]),
        ]),
    };
    let s = collect_local_usage_summary(&daily, "2026-06-13").expect("summary");
    assert!(s.today.tokens <= s.last_7_days.tokens);
    assert!(s.yesterday.tokens <= s.last_7_days.tokens);
    assert!(s.last_7_days.tokens <= s.last_30_days.tokens);
    assert_eq!(s.last_7_days.tokens, 14);
    assert_eq!(s.last_30_days.tokens, 30);
}

#[test]
fn today_key_names_a_calendar_day() {
    let today = codex_usage::calendar::today_key();
    assert_eq!(today.len(), 10);
    assert_eq!(&today[4..5], "-");
    assert_eq!(&today[7..8], "-");
    assert!(previous_day_key(&today).is_some());
}

#[test]
fn windows_count_only_days_of_the_calendar() {
    let daily = DailyReport {
        daily: Some(vec![
            day("2026-06-99", 5, vec![]),
            day("2026-06-31", 7, vec![]),
            day("20260699", 11, vec![]),
            day("2026-07-01", 2, vec![]),
        ]),
    };
    let s = collect_local_usage_summary(&daily, "2026-07-03").expect("summary");
    assert_eq!(s.last_7_days.tokens, 2);
    assert_eq!(s.last_7_days.days, vec![3]);
    assert_eq!(s.last_30_days.tokens, 2);
}

#[test]
fn total_tokens_make_parts_irrelevant() {
    let daily = DailyReport {
        daily: Some(vec![day("2026-06-13", 1, vec![model("m", Some(5), vec![u64::MAX, 1])])]),
    };
    assert!(can_collect_local_usage(&daily));
    let s = collect_local_usage_summary(&daily, "2026-06-13").expect("summary");
    assert_eq!(s.models[0].tokens, 5);
}

#[test]
fn undated_rows_change_nothing() {
    let base = vec![day("2026-06-13", 3, vec![model("m", Some(3), vec![])])];
    let mut more = base.clone();
    more.push(DayRecord { date: Some("Jun 13".to_string()), total_tokens: Some(9), models: vec![model("x", Some(9), vec![])] });
    more.push(DayRecord { date: None, total_tokens: Some(9), models: vec![] });
    let a = collect_local_usage_summary(&DailyReport { daily: Some(base) }, "2026-06-13").expect("a");
    let b = collect_local_usage_summary(&DailyReport { daily: Some(more) }, "2026-06-13").expect("b");
    assert_eq!(a.today.tokens, b.today.tokens);
    assert_eq!(a.last_7_days.tokens, b.last_7_days.tokens);
    assert_eq!(a.last_30_days.days, b.last_30_days.days);
    assert_eq!(a.models.len(), b.models.len());
    assert_eq!(a.model_tokens, b.model_tokens);
}

#[test]
fn negative_year_rows_fall_in_the_windows() {
    let daily = DailyReport { daily: Some(vec![day("-001-12-31", 6, vec![])]) };
    let s = collect_local_usage_summary(&daily, "0000-01-03").expect("summary");
    assert_eq!(s.today.tokens, 0);
    assert_eq!(s.last_7_days.tokens, 6);
    assert_eq!(s.last_7_days.days, vec![0]);
    assert_eq!(s.last_30_days.tokens, 6);
}

#[test]
fn yesterday_before_year_zero_lies_in_the_last_7_days() {
    let daily = DailyReport {
        daily: Some(vec![day("-001-12-31", 5, vec![]), day("0000-01-01", 2, vec![])]),
    };
    assert_eq!(previous_day_key("0000-01-01").as_deref(), Some("-001-12-31"));
    let s = collect_local_usage_summary(&daily, "0000-01-01").expect("summary");
    assert_eq!(s.today.tokens, 2);
    assert_eq!(s.yesterday.tokens, 5);
    assert_eq!(s.yesterday.day, Some(0));
    assert_eq!(s.last_7_days.tokens, 7);
    assert!(s.yesterday.tokens <= s.last_7_days.tokens);
    assert_eq!(s.last_30_days.tokens, 7);
}

#[test]
fn read_day_key_reads_negative_years() {
    let key: Vec<char> = "-001-12-31".chars().collect();
    assert_eq!(codex_usage::calendar::read_day_key(&key), Some((-1, 12, 31)));
    let plain: Vec<char> = "2026-06-13".chars().collect();
    assert_eq!(codex_usage::calendar::read_day_key(&plain), Some((2026, 6, 13)));
    let bad: Vec<char> = "-000-01-01".chars().collect();
    assert_eq!(codex_usage::calendar::read_day_key(&bad), None);
}

#[test]
fn undated_rows_leave_every_value_of_the_summary() {
    let base = vec![
        day("2026-06-12", 4, vec![model("b", Some(4), vec![])]),
        day("2026-06-13", 3, vec![model("a", Some(3), vec![]), model("b", None, vec![1, 2])]),
    ];
    let mut more = base.clone();
    more.push(DayRecord { date: Some("Jun 13".to_string()), total_tokens: Some(9), models: vec![model("x", Some(9), vec![])] });
    let a = collect_local_usage_summary(&DailyReport { daily: Some(base) }, "2026-06-13").expect("a");
    let b = collect_local_usage_summary(&DailyReport { daily: Some(more) }, "2026-06-13").expect("b");
    assert_eq!((a.today.tokens, a.today.day), (b.today.tokens, b.today.day));
    assert_eq!((a.yesterday.tokens, a.yesterday.day), (b.yesterday.tokens, b.yesterday.day));
    assert_eq!((a.last_7_days.tokens, &a.last_7_days.days), (b.last_7_days.tokens, &b.last_7_days.days));
    assert_eq!((a.last_30_days.tokens, &a.last_30_days.days), (b.last_30_days.tokens, &b.last_30_days.days));
    let names = |s: &codex_usage::local_usage::CodexLocalUsageSummary| {
        s.models.iter().map(|m| (m.name.clone(), m.tokens)).collect::<Vec<_>>()
    };
    assert_eq!(names(&a), vec![("b".to_string(), 7), ("a".to_string(), 3)]);
    assert_eq!(names(&a), names(&b));
    assert_eq!(a.model_tokens, b.model_tokens);
}
