use codextray::cli::{
    build_cli_result, cli_version_from_output, deduplicate_candidates,
    extract_cli_windows, extract_reset_credits, is_codex_executable, match_json_response,
    normalize_unix_timestamp, parse_cli_usage, parse_optional_time_field, parse_u64_field,
    percent_reading, rate_limit_window_duration_label, result_member, sanitize_json_rpc_error,
    text_mentions_codex, windows_with_percentages, PercentReading,
};
use codextray::json::{JsonNumber, JsonValue};
use codextray::models::{QuotaFetchResult, QuotaWindow};

const NOW: &str = "2026-07-03T00:00:00Z";

fn as_f64(number: &JsonNumber) -> f64 {
    match number {
        JsonNumber::PosInt(value) => *value as f64,
        JsonNumber::NegInt(value) => *value as f64,
        JsonNumber::Float(mantissa, exponent) => {
            format!("{}e{}", mantissa, exponent).parse::<f64>().unwrap_or(0.0)
        }
    }
}

/// The percentage left of a reading, worked out in `f64` as the application does.
fn percent_left(reading: &PercentReading) -> u8 {
    match reading {
        PercentReading::LeftAfterUsed(used) => {
            (100.0 - as_f64(used)).clamp(0.0, 100.0).round() as u8
        }
        PercentReading::Given(percent) => as_f64(percent).clamp(0.0, 100.0).round() as u8,
        PercentReading::Ratio(remaining, limit) => {
            let limit = as_f64(limit);
            if limit > 0.0 {
                ((as_f64(remaining) / limit) * 100.0).clamp(0.0, 100.0).round() as u8
            } else {
                0
            }
        }
        PercentReading::Absent => 0,
    }
}

fn windows_of(value: &JsonValue) -> Vec<QuotaWindow> {
    let readings = extract_cli_windows(value);
    let percents: Vec<u8> = readings.iter().map(|r| percent_left(&r.percent)).collect();
    windows_with_percentages(&readings, &percents)
}

fn build(
    account: &JsonValue,
    quota: &JsonValue,
    usage: Option<&JsonValue>,
    fetched_at: String,
) -> Result<QuotaFetchResult, String> {
    let readings = extract_cli_windows(result_member(quota));
    let percents: Vec<u8> = readings.iter().map(|r| percent_left(&r.percent)).collect();
    build_cli_result(account, quota, usage, &percents, fetched_at)
}

fn text(s: &str) -> JsonValue {
    JsonValue::Str(s.to_string())
}

fn num(n: u64) -> JsonValue {
    JsonValue::Number(JsonNumber::PosInt(n))
}

fn float(m: i64, e: i32) -> JsonValue {
    JsonValue::Number(JsonNumber::Float(m, e))
}

fn object(entries: Vec<(&str, JsonValue)>) -> JsonValue {
    JsonValue::Object(entries.into_iter().map(|(k, v)| (k.to_string(), v)).collect())
}

fn array(items: Vec<JsonValue>) -> JsonValue {
    JsonValue::Array(items)
}

fn generated_schema() -> JsonValue {
    object(vec![
        (
            "rateLimits",
            object(vec![
                ("limitId", text("codex")),
                ("limitName", text("Codex")),
                (
                    "primary",
                    object(vec![
                        ("usedPercent", float(34, 0)),
                        ("windowDurationMins", num(300)),
                        ("resetsAt", num(1_783_000_000)),
                    ]),
                ),
                (
                    "secondary",
                    object(vec![
                        ("usedPercent", float(20, 0)),
                        ("windowDurationMins", num(10_080)),
                        ("resetsAt", num(1_783_400_000_000)),
                    ]),
                ),
                ("credits", JsonValue::Null),
                ("individualLimit", JsonValue::Null),
                ("planType", text("plus")),
                ("rateLimitReachedType", JsonValue::Null),
            ]),
        ),
        ("rateLimitsByLimitId", JsonValue::Null),
        (
            "rateLimitResetCredits",
            object(vec![
                ("availableCount", num(2)),
                (
                    "credits",
                    array(vec![
                        object(vec![
                            ("id", text("reset-credit-1")),
                            ("status", text("available")),
                            ("expiresAt", num(1_783_600_000)),
                            ("title", text("Full reset")),
                        ]),
                        object(vec![
                            ("id", text("reset-credit-2")),
                            ("status", text("available")),
                            ("expiresAt", num(1_784_600_000)),
                            ("title", text("Another reset")),
                        ]),
                    ]),
                ),
            ]),
        ),
    ])
}

#[test]
fn parses_generated_rate_limit_schema_so_cli_quota_can_render() {
    let value = generated_schema();

    let windows = windows_of(&value);

    assert_eq!(windows.len(), 2);
    assert_eq!(windows[0].label, "Codex 5H");
    assert_eq!(windows[0].remaining_percent, 66);
    assert_eq!(windows[1].label, "Codex 7D");
    assert_eq!(windows[1].remaining_percent, 80);
    assert!(windows[1].reset_at.is_some());

    let result = build(
        &object(vec![("account", object(vec![]))]),
        &object(vec![("result", generated_schema())]),
        None,
        NOW.to_string(),
    )
    .expect("CLI result should include reset credits");
    let reset_credits = result.quota.reset_credits.expect("reset credits should parse");
    assert_eq!(reset_credits.available_count, 2);
    assert_eq!(reset_credits.credits.len(), 2);
    assert_eq!(reset_credits.credits[0].title, "Full reset");
    assert!(reset_credits.credits.iter().all(|credit| credit.expires_at.is_some()));
}

#[test]
fn uses_reported_duration_when_seven_day_quota_is_the_primary_window() {
    let value = object(vec![(
        "rateLimits",
        object(vec![
            ("limitName", text("Codex")),
            (
                "primary",
                object(vec![
                    ("usedPercent", float(1, 0)),
                    ("windowDurationMins", num(10_080)),
                    ("resetsAt", num(1_784_500_000)),
                ]),
            ),
            ("secondary", JsonValue::Null),
        ]),
    )]);

    let windows = windows_of(&value);

    assert_eq!(windows.len(), 1);
    assert_eq!(windows[0].label, "Codex 7D");
    assert_eq!(windows[0].remaining_percent, 99);
}

#[test]
fn parses_account_response_so_header_shows_the_signed_in_cli_user() {
    let account = object(vec![
        ("id", num(2)),
        (
            "result",
            object(vec![
                (
                    "account",
                    object(vec![
                        ("type", text("chatgpt")),
                        ("email", text("person@example.com")),
                        ("planType", text("plus")),
                    ]),
                ),
                ("requiresOpenaiAuth", JsonValue::Bool(false)),
            ]),
        ),
    ]);
    let quota = object(vec![
        ("id", num(3)),
        (
            "result",
            object(vec![(
                "rateLimits",
                object(vec![
                    ("limitName", text("Codex")),
                    (
                        "primary",
                        object(vec![
                            ("usedPercent", float(50, 0)),
                            ("windowDurationMins", num(300)),
                            ("resetsAt", JsonValue::Null),
                        ]),
                    ),
                    ("secondary", JsonValue::Null),
                ]),
            )]),
        ),
    ]);

    let result = build(&account, &quota, None, NOW.to_string()).expect("CLI result should parse");

    assert_eq!(result.account.email.as_deref(), Some("person@example.com"));
    assert_eq!(result.account.plan.as_deref(), Some("PLUS"));
    assert_eq!(result.quota.windows[0].remaining_percent, 50);
}

#[test]
fn parses_profile_usage_summary_so_p3_metrics_are_real() {
    let usage = object(vec![
        ("id", num(4)),
        (
            "result",
            object(vec![
                (
                    "summary",
                    object(vec![
                        ("lifetimeTokens", text("300")),
                        ("peakDailyTokens", num(200)),
                        ("longestRunningTurnSec", num(90)),
                        ("currentStreakDays", num(2)),
                        ("longestStreakDays", num(5)),
                    ]),
                ),
                (
                    "dailyUsageBuckets",
                    array(vec![
                        object(vec![("startDate", text("2026-07-01")), ("tokens", text("100"))]),
                        object(vec![("startDate", text("2026-07-02")), ("tokens", num(200))]),
                    ]),
                ),
            ]),
        ),
    ]);

    let activity = parse_cli_usage(&usage).expect("usage response should parse");

    assert_eq!(activity.lifetime_tokens, Some(300));
    assert_eq!(activity.peak_daily_tokens, Some(200));
    assert_eq!(activity.daily_buckets.len(), 2);
}

#[test]
fn percentages_are_read_where_the_answer_gives_them() {
    let used = object(vec![(
        "rateLimits",
        object(vec![("primary", object(vec![("usedPercent", float(5000000000000001, -16))]))]),
    )]);
    let readings = extract_cli_windows(&used);
    assert_eq!(readings.len(), 1);
    assert_eq!(readings[0].label, "codex 5H");
    assert!(matches!(
        readings[0].percent,
        PercentReading::LeftAfterUsed(JsonNumber::Float(5000000000000001, -16))
    ));
    assert_eq!(windows_of(&used)[0].remaining_percent, 100);

    let ratio = object(vec![("remaining", num(57)), ("limit", num(200))]);
    let reading = percent_reading(&ratio);
    assert!(matches!(
        reading,
        PercentReading::Ratio(JsonNumber::PosInt(57), JsonNumber::PosInt(200))
    ));
    assert_eq!(percent_left(&reading), 28);
    let given = object(vec![("remainingPercent", float(425, -1)), ("remaining", num(1))]);
    assert!(matches!(percent_reading(&given), PercentReading::Given(JsonNumber::Float(425, -1))));
    let text_percent = object(vec![("remaining_percent", text("40")), ("remaining", num(1))]);
    assert!(matches!(percent_reading(&text_percent), PercentReading::Absent));
}

#[test]
fn windows_take_the_percentages_in_order() {
    let readings = extract_cli_windows(&generated_schema());
    let windows = windows_with_percentages(&readings, &vec![7, 9]);
    assert_eq!(windows.len(), 2);
    assert_eq!(windows[0].label, "Codex 5H");
    assert_eq!(windows[0].remaining_percent, 7);
    assert_eq!(windows[1].remaining_percent, 9);
    assert_eq!(windows[1].reset_at, readings[1].reset_at);
}

#[test]
fn older_quota_formats_are_still_read() {
    let value = object(vec![(
        "limits",
        array(vec![
            object(vec![("window", text("5h")), ("remaining_percent", float(425, -1))]),
            object(vec![
                ("label", text("weekly")),
                ("remaining", num(1)),
                ("total", num(4)),
                ("resetAt", text("tomorrow")),
            ]),
            object(vec![("remaining", num(1))]),
        ]),
    )]);
    let windows = windows_of(&value);
    assert_eq!(windows.len(), 2);
    assert_eq!(windows[0].label, "5h");
    assert_eq!(windows[0].remaining_percent, 43);
    assert_eq!(windows[1].remaining_percent, 25);
    assert_eq!(windows[1].reset_at.as_deref(), Some("tomorrow"));
    let by_key = object(vec![("daily", object(vec![("remaining", num(0)), ("limit", num(0))]))]);
    let windows = windows_of(&by_key);
    assert_eq!(windows.len(), 1);
    assert_eq!(windows[0].label, "daily");
    assert_eq!(windows[0].remaining_percent, 0);
    assert!(matches!(percent_reading(&object(vec![])), PercentReading::Absent));
}

#[test]
fn limits_by_id_take_precedence_and_fall_back_to_ids() {
    let value = object(vec![
        (
            "rateLimitsByLimitId",
            object(vec![(
                "gpt",
                object(vec![(
                    "primary",
                    object(vec![("usedPercent", num(10)), ("windowDurationMins", num(90))]),
                )]),
            )]),
        ),
        (
            "rateLimits",
            object(vec![("primary", object(vec![("usedPercent", num(50))]))]),
        ),
    ]);
    let windows = windows_of(&value);
    assert_eq!(windows.len(), 1);
    assert_eq!(windows[0].label, "gpt 90M");
    assert_eq!(windows[0].remaining_percent, 90);
    assert!(windows[0].reset_at.is_none());
    let empty = build(&object(vec![]), &object(vec![]), None, NOW.to_string());
    assert_eq!(empty.err(), Some("CLI app-server 未返回可识别额度窗口".to_string()));
}

#[test]
fn duration_labels_use_days_hours_or_minutes() {
    let w = |m: u64| object(vec![("windowDurationMins", num(m))]);
    assert_eq!(rate_limit_window_duration_label(&w(2880)), Some("2D".to_string()));
    assert_eq!(rate_limit_window_duration_label(&w(120)), Some("2H".to_string()));
    assert_eq!(rate_limit_window_duration_label(&w(45)), Some("45M".to_string()));
    assert_eq!(rate_limit_window_duration_label(&object(vec![])), None);
}

#[test]
fn reset_credits_use_defaults_and_timestamps() {
    let value = object(vec![(
        "rateLimitResetCredits",
        object(vec![
            ("available_count", text("3")),
            (
                "credits",
                array(vec![
                    object(vec![("expires_at", text("1783600000"))]),
                    object(vec![("expirationTime", text("next week"))]),
                ]),
            ),
        ]),
    )]);
    let credits = extract_reset_credits(&value).expect("credits");
    assert_eq!(credits.available_count, 3);
    assert_eq!(credits.credits[0].id, "reset-credit-0");
    assert_eq!(credits.credits[0].title, "限额重置");
    assert!(credits.credits[0].expires_at.as_deref().unwrap().starts_with("2026-"));
    assert_eq!(credits.credits[1].id, "reset-credit-1");
    assert_eq!(credits.credits[1].expires_at.as_deref(), Some("next week"));
    let null = object(vec![("rateLimitResetCredits", JsonValue::Null)]);
    assert!(extract_reset_credits(&null).is_none());
    let no_count = object(vec![("rateLimitResetCredits", object(vec![]))]);
    assert!(extract_reset_credits(&no_count).is_none());
}

#[test]
fn timestamps_in_milliseconds_are_scaled_to_seconds() {
    assert_eq!(normalize_unix_timestamp(1_783_400_000_000), 1_783_400_000);
    assert_eq!(normalize_unix_timestamp(1_783_400_000), 1_783_400_000);
    assert_eq!(normalize_unix_timestamp(10_000_000_000), 10_000_000_000);
    assert_eq!(
        parse_optional_time_field(&num(0)).as_deref(),
        Some("1970-01-01T00:00:00+00:00")
    );
    assert_eq!(parse_optional_time_field(&JsonValue::Null), None);
    assert_eq!(parse_optional_time_field(&JsonValue::Bool(true)), None);
    assert_eq!(parse_u64_field(&text("42")), Some(42));
    assert_eq!(parse_u64_field(&text("-1")), None);
}

#[test]
fn build_result_stamps_the_given_time_and_reads_usage() {
    let usage = object(vec![("summary", object(vec![("lifetimeTokens", num(7))]))]);
    let result = build(
        &object(vec![("plan", text("pro"))]),
        &generated_schema(),
        Some(&usage),
        "2026-07-03T00:00:00Z".to_string(),
    )
    .expect("windows present");
    assert_eq!(result.account.updated_at, "2026-07-03T00:00:00Z");
    assert_eq!(result.quota.fetched_at, "2026-07-03T00:00:00Z");
    assert_eq!(result.account.plan.as_deref(), Some("PRO"));
    assert_eq!(result.account.status, "已连接");
    assert!(!result.quota.stale);
    assert_eq!(result.token_activity.expect("usage").lifetime_tokens, Some(7));
    assert!(parse_cli_usage(&object(vec![])).is_none());
}

#[test]
fn rpc_errors_mask_token_names_and_match_ids() {
    let error = object(vec![("message", text("bad access_token and refresh_token"))]);
    assert_eq!(sanitize_json_rpc_error(&error), "bad token and token");
    assert_eq!(sanitize_json_rpc_error(&object(vec![])), "未知错误");
    let other = object(vec![("id", num(1))]);
    assert!(match_json_response(other, 2).is_none());
    let answer = object(vec![("id", num(2)), ("result", object(vec![]))]);
    assert!(matches!(match_json_response(answer, 2), Some(Ok(_))));
    let failed = object(vec![("id", num(2)), ("error", error)]);
    match match_json_response(failed, 2) {
        Some(Err(message)) => assert_eq!(message, "CLI app-server 返回错误：bad token and token"),
        _ => panic!("error answer expected"),
    }
}

#[test]
fn cli_discovery_helpers_follow_the_platform() {
    assert!(text_mentions_codex("OpenAI.ChatGPT-26.623"));
    assert!(!text_mentions_codex("ms-python.python"));
    assert!(is_codex_executable("Codex.EXE", true));
    assert!(is_codex_executable("codex.cmd", true));
    assert!(!is_codex_executable("codex.exe", false));
    assert!(is_codex_executable("codex", false));
    assert_eq!(
        deduplicate_candidates(vec!["a".to_string(), "b".to_string(), "a".to_string()]),
        vec!["a".to_string(), "b".to_string()]
    );
    assert_eq!(cli_version_from_output(true, " 1.2 \n", "x"), Ok("1.2".to_string()));
    assert_eq!(cli_version_from_output(true, "  ", " warn "), Ok("warn".to_string()));
    assert_eq!(cli_version_from_output(false, "1.2", ""), Err("CLI --version 返回失败".to_string()));
}
