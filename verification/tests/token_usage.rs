use chrono::{DateTime, Datelike, Local};
use codextray::json::{JsonNumber, JsonValue};
use codextray::models::{TokenActivityBucket, TokenActivitySnapshot, TokenActivitySource};
use codextray::token_usage::{
    add_daily_tokens, build_heatmap_days_for_today, calculate_streaks_for_today,
    local_usage_snapshot, parse_token_count_event, token_event_time_text, HEATMAP_DAYS,
};

fn text(s: &str) -> JsonValue {
    JsonValue::Str(s.to_string())
}

fn num(n: u64) -> JsonValue {
    JsonValue::Number(JsonNumber::PosInt(n))
}

fn object(entries: Vec<(&str, JsonValue)>) -> JsonValue {
    JsonValue::Object(entries.into_iter().map(|(k, v)| (k.to_string(), v)).collect())
}

/// The local day of an RFC 3339 time, read as the application reads it.
fn local_day(time: &str) -> Option<i32> {
    DateTime::parse_from_rfc3339(time)
        .ok()
        .map(|t| t.with_timezone(&Local).date_naive().num_days_from_ce())
}

fn day(s: &str) -> i32 {
    chrono::NaiveDate::parse_from_str(s, "%Y-%m-%d")
        .expect("test date should be valid")
        .num_days_from_ce()
}

fn token_event(timestamp: &str, last: u64, total: Option<u64>) -> JsonValue {
    let mut info = vec![("last_token_usage", object(vec![("total_tokens", num(last))]))];
    if let Some(total) = total {
        info.push(("total_token_usage", object(vec![("total_tokens", num(total))])));
    }
    object(vec![
        ("timestamp", text(timestamp)),
        (
            "payload",
            object(vec![("type", text("token_count")), ("info", object(info))]),
        ),
    ])
}

fn bucket(date: &str, tokens: u64) -> TokenActivityBucket {
    TokenActivityBucket {
        date: date.to_string(),
        tokens,
    }
}

fn activity(buckets: Vec<TokenActivityBucket>) -> TokenActivitySnapshot {
    TokenActivitySnapshot {
        source: TokenActivitySource::LocalJsonl,
        lifetime_tokens: Some(30),
        peak_daily_tokens: Some(20),
        longest_running_turn_sec: None,
        current_streak_days: Some(1),
        longest_streak_days: Some(2),
        daily_buckets: buckets,
    }
}

#[test]
fn parses_last_token_usage_so_daily_increment_is_not_double_counted() {
    let line = token_event("2026-07-02T10:20:30Z", 42, Some(999));

    let parsed = parse_token_count_event(&line, local_day("2026-07-02T10:20:30Z"))
        .expect("token event should parse");

    assert_eq!(parsed, (day("2026-07-02"), 42));
}

#[test]
fn parses_rfc3339_event_date_using_local_calendar_day() {
    let line = token_event("2026-07-02T16:30:00Z", 42, None);
    let expected_date = DateTime::parse_from_rfc3339("2026-07-02T16:30:00Z")
        .expect("test timestamp should parse")
        .with_timezone(&Local)
        .date_naive();

    let time = token_event_time_text(&line).expect("event has a time");
    let parsed = parse_token_count_event(&line, local_day(&time)).expect("token event should parse");

    assert_eq!(parsed, (expected_date.num_days_from_ce(), 42));
}

#[test]
fn builds_daily_weekly_and_cumulative_values_for_heatmap_modes() {
    let activity = activity(vec![bucket("2026-07-01", 10), bucket("2026-07-02", 20)]);

    let days = build_heatmap_days_for_today(Some(&activity), &Vec::new(), day("2026-07-02"));
    let target = days
        .iter()
        .find(|d| d.date == "2026-07-02")
        .expect("target day should exist in the deterministic heatmap window");

    assert_eq!(target.daily_tokens, 20);
    assert!(target.weekly_tokens >= 20);
    assert!(target.cumulative_tokens >= 20);
}

#[test]
fn aligns_heatmap_columns_to_sunday_through_saturday_weeks() {
    let activity = activity(vec![
        bucket("2026-06-28", 10),
        bucket("2026-07-03", 20),
        bucket("2026-07-04", 99),
    ]);

    let days = build_heatmap_days_for_today(Some(&activity), &Vec::new(), day("2026-07-03"));
    let first = days.first().expect("heatmap should include a first day");
    let visible_first = days
        .get(7)
        .expect("visible 32-week heatmap starts after the buffered first week");
    let friday = days
        .iter()
        .find(|d| d.date == "2026-07-03")
        .expect("today should exist in the aligned heatmap");
    let saturday = days.last().expect("heatmap should end at week Saturday");

    assert_eq!(first.date, "2025-11-16");
    assert_eq!(visible_first.date, "2025-11-23");
    assert_eq!(saturday.date, "2026-07-04");
    assert!(saturday.is_future);
    assert_eq!(saturday.daily_tokens, 0);
    assert_eq!(saturday.weekly_tokens, 0);
    assert_eq!(friday.weekly_tokens, 30);
}

#[test]
fn heatmap_has_fixed_length_and_running_total() {
    let activity = activity(vec![bucket("2026-07-01", 10), bucket("2026-07-02", 20)]);
    let days = build_heatmap_days_for_today(Some(&activity), &Vec::new(), day("2026-07-02"));

    assert_eq!(days.len(), HEATMAP_DAYS);
    let wednesday = days.iter().find(|d| d.date == "2026-07-01").unwrap();
    let thursday = days.iter().find(|d| d.date == "2026-07-02").unwrap();
    assert_eq!(wednesday.cumulative_tokens, 10);
    assert_eq!(thursday.cumulative_tokens, 30);
    assert_eq!(thursday.weekly_tokens, 30);
    assert_eq!(days.last().unwrap().cumulative_tokens, 30);
}

#[test]
fn heatmap_attaches_hook_stats_of_the_day() {
    let stats = codextray::models::HookDayStats {
        session_count: 2,
        prompt_count: 1,
        turn_count: 3,
        tool_call_count: 1,
        permission_request_count: 1,
        compact_count: 1,
        subagent_count: 1,
    };
    let hooks = vec![("2026-07-01".to_string(), stats)];
    let days = build_heatmap_days_for_today(None, &hooks, day("2026-07-02"));

    let wednesday = days.iter().find(|d| d.date == "2026-07-01").unwrap();
    let thursday = days.iter().find(|d| d.date == "2026-07-02").unwrap();
    assert_eq!(wednesday.hook_stats, Some(stats));
    assert_eq!(thursday.hook_stats, None);
    assert_eq!(thursday.daily_tokens, 0);
}

#[test]
fn rejects_lines_that_are_not_token_count_events() {
    let other = object(vec![
        ("timestamp", text("2026-07-02")),
        ("payload", object(vec![("type", text("message"))])),
    ]);
    assert_eq!(parse_token_count_event(&other, None), None);

    let no_time = object(vec![(
        "payload",
        object(vec![
            ("type", text("token_count")),
            (
                "info",
                object(vec![("last_token_usage", object(vec![("total_tokens", num(5))]))]),
            ),
        ]),
    )]);
    assert_eq!(parse_token_count_event(&no_time, None), None);

    let bad_time = token_event("yesterday", 5, None);
    assert_eq!(parse_token_count_event(&bad_time, None), None);

    let plain_day = token_event("2026-07-05", 5, None);
    assert_eq!(parse_token_count_event(&plain_day, None), Some((day("2026-07-05"), 5)));
}

#[test]
fn streaks_count_consecutive_active_days_ending_today() {
    let buckets = vec![
        bucket("2026-07-01", 5),
        bucket("2026-07-02", 0),
        bucket("2026-07-03", 1),
        bucket("2026-07-04", 1),
        bucket("2026-07-05", 1),
    ];

    assert_eq!(calculate_streaks_for_today(&buckets, day("2026-07-05")), (3, 3));
    assert_eq!(calculate_streaks_for_today(&buckets, day("2026-07-06")), (0, 3));
    assert_eq!(calculate_streaks_for_today(&Vec::new(), day("2026-07-06")), (0, 0));
}

#[test]
fn adds_daily_tokens_in_day_order_and_saturates() {
    let mut daily = Vec::new();
    add_daily_tokens(&mut daily, day("2026-07-02"), 10);
    add_daily_tokens(&mut daily, day("2026-07-01"), 5);
    add_daily_tokens(&mut daily, day("2026-07-02"), 7);
    assert_eq!(daily, vec![(day("2026-07-01"), 5), (day("2026-07-02"), 17)]);

    add_daily_tokens(&mut daily, day("2026-07-01"), u64::MAX);
    assert_eq!(daily[0], (day("2026-07-01"), u64::MAX));
}

#[test]
fn local_usage_snapshot_totals_days_and_reports_parse_failures() {
    let daily = vec![(day("2026-07-01"), 10), (day("2026-07-02"), 20)];
    let snapshot = local_usage_snapshot(&daily, 3, day("2026-07-02")).expect("days were recorded");

    assert_eq!(snapshot.source, TokenActivitySource::LocalJsonl);
    assert_eq!(snapshot.lifetime_tokens, Some(30));
    assert_eq!(snapshot.peak_daily_tokens, Some(20));
    assert_eq!(snapshot.current_streak_days, Some(2));
    assert_eq!(snapshot.longest_streak_days, Some(2));
    assert_eq!(snapshot.daily_buckets[0].date, "2026-07-01");
    assert_eq!(snapshot.daily_buckets[1].tokens, 20);

    let error = local_usage_snapshot(&Vec::new(), 1, day("2026-07-02"))
        .expect_err("no usable event and a parse error");
    assert_eq!(error, "本地 JSONL 存在解析错误，且没有可用 token_count 事件");

    let empty = local_usage_snapshot(&Vec::new(), 0, day("2026-07-02")).expect("nothing failed");
    assert_eq!(empty.lifetime_tokens, Some(0));
    assert_eq!(empty.peak_daily_tokens, None);
}
