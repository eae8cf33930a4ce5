use codex_usage::local_usage::{collect_local_usage_summary, DailyReport};
use codex_usage::usage::{FIRST_RFC3339_SECOND, LAST_RFC3339_SECOND};
use codex_usage::usage::{
    attach_local_usage, format_codex_plan, parse_usage_response, period_duration_ms,
    read_credits_remaining, reset_at_iso, unix_seconds_to_iso, UsageReport, UsageWindow,
    PERIOD_SESSION_MS, PERIOD_WEEKLY_MS,
};

fn window(known: bool, reset_at: Option<i64>, after: Option<i64>, limit: Option<u64>) -> UsageWindow {
    UsageWindow {
        used_percent_known: known,
        reset_at,
        reset_after_seconds: after,
        limit_window_seconds: limit,
    }
}

fn empty_report() -> UsageReport {
    UsageReport {
        plan_type: None,
        header_primary_percent: false,
        header_secondary_percent: false,
        primary_window: window(false, None, None, None),
        secondary_window: window(false, None, None, None),
        review_window: window(false, None, None, None),
        credits_balance: None,
        has_credits: None,
        header_credits_balance: None,
        reset_credits_available: None,
    }
}

#[test]
fn parse_usage_response_prefers_headers_and_reads_detail_metrics() {
    let report = UsageReport {
        plan_type: Some("prolite".to_string()),
        header_primary_percent: true,
        header_secondary_percent: true,
        primary_window: window(true, Some(1780000000), None, Some(18000)),
        secondary_window: window(true, None, Some(120), Some(604800)),
        review_window: window(true, Some(1780600000), None, Some(604800)),
        credits_balance: Some(820),
        has_credits: None,
        header_credits_balance: None,
        reset_credits_available: Some(1),
    };

    let snapshot = parse_usage_response(&report, 1_700_000_000, "2026-06-13T12:00:00Z")
        .expect("snapshot");

    assert_eq!(snapshot.plan.as_deref(), Some("Pro 5x"));
    let session = snapshot.session.expect("session");
    assert!(session.percent_from_header);
    assert_eq!(session.label, "5 小时限额");
    assert_eq!(session.resets_at.as_deref(), Some("2026-05-28T20:26:40Z"));
    assert_eq!(session.period_duration_ms, 18_000_000);
    let weekly = snapshot.weekly.expect("weekly");
    assert!(weekly.percent_from_header);
    assert_eq!(weekly.label, "周限额");
    assert_eq!(weekly.resets_at.as_deref(), Some("2023-11-14T22:15:20Z"));
    assert_eq!(weekly.period_duration_ms, 604_800_000);
    let reviews = snapshot.reviews.expect("reviews");
    assert!(!reviews.percent_from_header);
    assert_eq!(reviews.label, "代码评审");
    assert_eq!(snapshot.credits_remaining, Some(820));
    assert_eq!(snapshot.reset_credits_available, Some(1));
    assert_eq!(snapshot.local_usage_status, "not_checked");
    assert!(snapshot.local_usage.is_none());
    assert_eq!(snapshot.fetched_at, "2026-06-13T12:00:00Z");
}

#[test]
fn windows_without_known_percentage_are_left_out() {
    let mut report = empty_report();
    report.secondary_window = window(true, None, None, None);
    let snapshot = parse_usage_response(&report, 0, "t").expect("snapshot");
    assert!(snapshot.session.is_none());
    assert!(snapshot.reviews.is_none());
    let weekly = snapshot.weekly.expect("weekly");
    assert!(!weekly.percent_from_header);
    assert_eq!(weekly.resets_at, None);
    assert_eq!(weekly.period_duration_ms, PERIOD_WEEKLY_MS);
    assert_eq!(snapshot.plan, None);
    assert_eq!(snapshot.credits_remaining, None);
}

#[test]
fn plan_names() {
    assert_eq!(format_codex_plan("prolite").as_deref(), Some("Pro 5x"));
    assert_eq!(format_codex_plan(" ProLite ").as_deref(), Some("Pro 5x"));
    assert_eq!(format_codex_plan("pro").as_deref(), Some("Pro 20x"));
    assert_eq!(format_codex_plan("PRO").as_deref(), Some("Pro 20x"));
    assert_eq!(format_codex_plan("plus").as_deref(), Some("Plus"));
    assert_eq!(format_codex_plan(" team ").as_deref(), Some("Team"));
    assert_eq!(format_codex_plan("ßeta").as_deref(), Some("SSeta"));
    assert_eq!(format_codex_plan("   "), None);
    assert_eq!(format_codex_plan(""), None);
}

#[test]
fn iso_text_of_unix_times() {
    assert_eq!(unix_seconds_to_iso(0), "1970-01-01T00:00:00Z");
    assert_eq!(unix_seconds_to_iso(1_780_000_000), "2026-05-28T20:26:40Z");
    assert_eq!(unix_seconds_to_iso(i64::MAX), "1970-01-01T00:00:00Z");
}

#[test]
fn reset_time_prefers_reset_at_then_delay() {
    assert_eq!(reset_at_iso(&window(true, Some(0), Some(5), None), 100).as_deref(), Some("1970-01-01T00:00:00Z"));
    assert_eq!(reset_at_iso(&window(true, None, Some(60), None), 0).as_deref(), Some("1970-01-01T00:01:00Z"));
    assert_eq!(reset_at_iso(&window(true, None, None, None), 0), None);
}

#[test]
fn period_lengths_fall_back_on_missing_or_overflowing_limits() {
    assert_eq!(period_duration_ms(&window(true, None, None, Some(18000)), 1), 18_000_000);
    assert_eq!(period_duration_ms(&window(true, None, None, None), PERIOD_SESSION_MS), 18_000_000);
    assert_eq!(period_duration_ms(&window(true, None, None, Some(u64::MAX / 10)), 7), 7);
}

#[test]
fn credits_prefer_body_balance_then_no_credits_then_header() {
    let mut report = empty_report();
    report.header_credits_balance = Some(5);
    assert_eq!(read_credits_remaining(&report), Some(5));
    report.has_credits = Some(false);
    assert_eq!(read_credits_remaining(&report), Some(0));
    report.credits_balance = Some(12);
    assert_eq!(read_credits_remaining(&report), Some(12));
    report.credits_balance = None;
    report.has_credits = Some(true);
    assert_eq!(read_credits_remaining(&report), Some(5));
}

#[test]
fn local_usage_is_attached_with_its_status() {
    let mut snapshot = parse_usage_response(&empty_report(), 0, "t").expect("snapshot");
    attach_local_usage(&mut snapshot, Err("no_runner".to_string()));
    assert_eq!(snapshot.local_usage_status, "no_runner");
    assert!(snapshot.local_usage.is_none());

    let totals = collect_local_usage_summary(&DailyReport { daily: Some(Vec::new()) }, "2026-06-13")
        .expect("summary");
    attach_local_usage(&mut snapshot, Ok(totals));
    assert_eq!(snapshot.local_usage_status, "ok");
    assert!(snapshot.local_usage.is_some());
    assert_eq!(snapshot.fetched_at, "t");
}

#[test]
fn current_time_is_rfc3339_utc() {
    let now = codex_usage::usage::now_iso_string();
    assert_eq!(now.len(), 20);
    assert!(now.ends_with('Z'));
    assert!(now.as_str() > "2020-01-01T00:00:00Z");
}

#[test]
fn can_summarize_usage_checks_the_reset_delays_shown() {
    let mut report = empty_report();
    assert!(codex_usage::usage::can_summarize_usage(&report, 1_700_000_000));
    report.primary_window = window(true, None, Some(i64::MAX), None);
    assert!(!codex_usage::usage::can_summarize_usage(&report, 1));
    assert!(codex_usage::usage::can_summarize_usage(&report, 0));
    report.primary_window = window(false, None, Some(i64::MAX), None);
    assert!(codex_usage::usage::can_summarize_usage(&report, 1));
    report.primary_window = window(true, Some(5), Some(i64::MAX), None);
    assert!(codex_usage::usage::can_summarize_usage(&report, 1));
}

#[test]
fn rfc3339_range_ends_are_written_and_beyond_them_the_epoch() {
    assert_eq!(unix_seconds_to_iso(FIRST_RFC3339_SECOND), "0000-01-01T00:00:00Z");
    assert_eq!(unix_seconds_to_iso(LAST_RFC3339_SECOND), "9999-12-31T23:59:59Z");
    assert_eq!(unix_seconds_to_iso(FIRST_RFC3339_SECOND - 1), "1970-01-01T00:00:00Z");
    assert_eq!(unix_seconds_to_iso(LAST_RFC3339_SECOND + 1), "1970-01-01T00:00:00Z");
    assert_eq!(unix_seconds_to_iso(i64::MIN), "1970-01-01T00:00:00Z");
}
