use chrono::Datelike;
use codextray::hook_stats::{
    accumulate_event, classify_event_file, compact_hook_event, event_date, event_day_or,
    event_time_text, plan_event_files,
    merge_day_stats, new_accumulator, normalize_hook_input, retain_recent_daily_stats,
    retention_start, scan_hook_event_lines, set_daily_stats, tool_call_key, EventFileAction,
};
use codextray::json::{JsonNumber, JsonValue};
use codextray::models::HookDayStats;
use codextray::token_usage::hook_stats_lookup;

fn text(s: &str) -> JsonValue {
    JsonValue::Str(s.to_string())
}

fn object(entries: Vec<(&str, JsonValue)>) -> JsonValue {
    JsonValue::Object(entries.into_iter().map(|(k, v)| (k.to_string(), v)).collect())
}

fn event(fields: &[(&str, &str)]) -> JsonValue {
    object(fields.iter().map(|(k, v)| (*k, text(v))).collect())
}

fn member<'a>(value: &'a JsonValue, key: &str) -> Option<&'a JsonValue> {
    match value {
        JsonValue::Object(entries) => entries.iter().find(|(k, _)| k == key).map(|(_, v)| v),
        _ => None,
    }
}

/// The local day of each event's RFC 3339 time, read as the application reads it.
fn local_days(events: &[JsonValue]) -> Vec<Option<i32>> {
    events
        .iter()
        .map(|event| {
            event_time_text(event).and_then(|time| {
                chrono::DateTime::parse_from_rfc3339(&time)
                    .ok()
                    .map(|t| t.with_timezone(&chrono::Local).date_naive().num_days_from_ce())
            })
        })
        .collect()
}

fn day(s: &str) -> i32 {
    chrono::NaiveDate::parse_from_str(s, "%Y-%m-%d")
        .expect("test date should be valid")
        .num_days_from_ce()
}

fn stats(sessions: u64, tool_calls: u64) -> HookDayStats {
    HookDayStats {
        session_count: sessions,
        prompt_count: sessions,
        turn_count: sessions,
        tool_call_count: tool_calls,
        permission_request_count: 0,
        compact_count: 0,
        subagent_count: 0,
    }
}

#[test]
fn aggregates_hook_events_into_daily_workflow_stats() {
    let events = vec![
        event(&[
            ("receivedAt", "2026-07-02T09:00:00+08:00"),
            ("hook_event_name", "UserPromptSubmit"),
            ("session_id", "s1"),
            ("turn_id", "t1"),
        ]),
        event(&[
            ("receivedAt", "2026-07-02T09:01:00+08:00"),
            ("hook_event_name", "PreToolUse"),
            ("session_id", "s1"),
            ("turn_id", "t1"),
            ("tool_name", "Bash"),
            ("tool_use_id", "call-1"),
        ]),
        event(&[
            ("receivedAt", "2026-07-02T09:01:01+08:00"),
            ("hook_event_name", "PostToolUse"),
            ("session_id", "s1"),
            ("turn_id", "t1"),
            ("tool_name", "Bash"),
            ("tool_use_id", "call-1"),
        ]),
        event(&[
            ("receivedAt", "2026-07-02T09:02:00+08:00"),
            ("hook_event_name", "PermissionRequest"),
            ("session_id", "s1"),
            ("turn_id", "t2"),
        ]),
        event(&[
            ("receivedAt", "2026-07-02T09:03:00+08:00"),
            ("hook_event_name", "SubagentStart"),
            ("session_id", "s2"),
            ("turn_id", "t3"),
        ]),
        event(&[
            ("receivedAt", "2026-07-02T09:04:00+08:00"),
            ("hook_event_name", "PreCompact"),
            ("session_id", "s2"),
            ("turn_id", "t3"),
        ]),
        event(&[
            ("receivedAt", "2026-07-02T09:04:01+08:00"),
            ("hook_event_name", "PostCompact"),
            ("session_id", "s2"),
            ("turn_id", "t3"),
        ]),
    ];

    let days = local_days(&events);
    let accumulators = scan_hook_event_lines(&events, &days, &Some("2026-07-02".to_string()));
    let stats = &accumulators
        .iter()
        .find(|(date, _)| date == "2026-07-02")
        .expect("target day should be aggregated")
        .1
        .stats;

    assert_eq!(stats.session_count, 2);
    assert_eq!(stats.prompt_count, 1);
    assert_eq!(stats.turn_count, 3);
    assert_eq!(stats.tool_call_count, 1);
    assert_eq!(stats.permission_request_count, 1);
    assert_eq!(stats.subagent_count, 1);
    assert_eq!(stats.compact_count, 1);
}

#[test]
fn stores_only_fields_required_for_hook_statistics() {
    let input = object(vec![
        ("hook_event_name", text("PostToolUse")),
        ("session_id", text("s1")),
        ("turn_id", text("t1")),
        ("tool_use_id", text("call-1")),
        ("tool_name", text("shell")),
        ("tool_input", object(vec![("command", text("very sensitive command"))])),
        ("tool_response", object(vec![("output", text("large response"))])),
        ("transcript_path", text("C:\\private\\session.jsonl")),
        ("cwd", text("D:\\WorkSpace")),
    ]);

    let stored = compact_hook_event(&input, "2026-07-02T09:00:00+08:00");

    assert_eq!(member(&stored, "hook_event_name"), Some(&text("PostToolUse")));
    assert_eq!(member(&stored, "session_id"), Some(&text("s1")));
    assert_eq!(member(&stored, "turn_id"), Some(&text("t1")));
    assert_eq!(member(&stored, "tool_use_id"), Some(&text("call-1")));
    assert_eq!(member(&stored, "tool_name"), Some(&text("shell")));
    assert!(member(&stored, "receivedAt").is_some());
    assert!(member(&stored, "tool_input").is_none());
    assert!(member(&stored, "tool_response").is_none());
    assert!(member(&stored, "transcript_path").is_none());
    assert!(member(&stored, "cwd").is_none());
}

#[test]
fn compacted_event_renames_alternative_fields_and_keeps_its_own_time() {
    let input = event(&[
        ("event", "PostToolUse"),
        ("session", "s"),
        ("turn", "t0"),
        ("tool", "shell"),
        ("timestamp", "2026-07-01T08:00:00Z"),
    ]);

    let stored = compact_hook_event(&input, "2026-07-02T09:00:00+08:00");

    assert_eq!(member(&stored, "hook_event_name"), Some(&text("PostToolUse")));
    assert_eq!(member(&stored, "session_id"), Some(&text("s")));
    assert_eq!(member(&stored, "turn_id"), Some(&text("t0")));
    assert_eq!(member(&stored, "tool_name"), Some(&text("shell")));
    assert_eq!(member(&stored, "receivedAt"), Some(&text("2026-07-01T08:00:00Z")));
    assert!(member(&stored, "event").is_none());

    let no_time = compact_hook_event(&event(&[("event", "Stop")]), "NOW");
    assert_eq!(member(&no_time, "receivedAt"), Some(&text("NOW")));

    let not_object = compact_hook_event(&text("plain"), "NOW");
    assert_eq!(not_object, JsonValue::Object(Vec::new()));
}

#[test]
fn normalizes_hook_input_into_an_object() {
    assert_eq!(normalize_hook_input("   ", None), JsonValue::Object(Vec::new()));

    let parsed = event(&[("event", "Stop")]);
    assert_eq!(
        normalize_hook_input("{\"event\":\"Stop\"}", Some(parsed)),
        event(&[("event", "Stop")])
    );

    let number = JsonValue::Number(JsonNumber::PosInt(7));
    assert_eq!(
        normalize_hook_input(" 7 ", Some(number)),
        object(vec![("payload", JsonValue::Number(JsonNumber::PosInt(7)))])
    );

    assert_eq!(
        normalize_hook_input("  not json  ", None),
        object(vec![("raw", text("not json"))])
    );
}

#[test]
fn counts_a_tool_call_once_over_its_start_and_end() {
    let mut acc = new_accumulator();
    let start = event(&[
        ("event", "PreToolUse"),
        ("session", "s"),
        ("turn", "t1"),
        ("tool", "shell"),
    ]);
    let end = event(&[
        ("event", "PostToolUse"),
        ("session", "s"),
        ("turn", "t1"),
        ("tool", "shell"),
    ]);
    assert_eq!(tool_call_key(&start), "s|t1|shell");

    accumulate_event(&start, &mut acc);
    accumulate_event(&end, &mut acc);

    assert_eq!(acc.stats.tool_call_count, 1);
    assert_eq!(acc.stats.session_count, 1);
    assert_eq!(acc.stats.turn_count, 1);
    assert_eq!(acc.stats.prompt_count, 0);
}

#[test]
fn events_without_a_readable_time_use_the_file_day() {
    let timeless = event(&[("event", "UserPromptSubmit")]);
    assert_eq!(event_date(&timeless, None), None);
    assert_eq!(
        event_day_or(&timeless, None, &Some("2026-07-09".to_string())),
        Some("2026-07-09".to_string())
    );
    assert_eq!(event_day_or(&timeless, None, &None), None);

    let dated = event(&[("time", "2026-07-03 10:00:00")]);
    assert_eq!(event_date(&dated, None), Some("2026-07-03".to_string()));
    let plain = event(&[("receivedAt", "2026-07-04")]);
    assert_eq!(event_day_or(&plain, None, &Some("2026-07-09".to_string())), Some("2026-07-04".to_string()));

    let accumulators =
        scan_hook_event_lines(&vec![timeless, event(&[("event", "Stop")])], &vec![None, None], &None);
    assert!(accumulators.is_empty());
}

#[test]
fn classifies_event_files_against_the_retention_window() {
    let today = day("2026-07-11");
    let start = retention_start(today);
    assert_eq!(start, today - 223);

    assert_eq!(classify_event_file("2025-01-01", today, start), EventFileAction::Expired);
    assert_eq!(classify_event_file("2026-07-10", today, start), EventFileAction::Completed);
    assert_eq!(classify_event_file("2026-07-11", today, start), EventFileAction::Active);
    assert_eq!(classify_event_file("notes", today, start), EventFileAction::Active);
}

#[test]
fn removes_daily_records_outside_the_retention_window() {
    let start = retention_start(day("2026-07-11"));
    let mut daily = vec![
        ("2025-01-01".to_string(), stats(1, 0)),
        ("2026-07-10".to_string(), stats(2, 1)),
        ("garbage".to_string(), stats(3, 3)),
    ];

    assert!(retain_recent_daily_stats(&mut daily, start));
    assert_eq!(daily, vec![("2026-07-10".to_string(), stats(2, 1))]);
    assert!(!retain_recent_daily_stats(&mut daily, start));
}

#[test]
fn merges_day_accumulators_into_daily_records() {
    let mut daily = vec![
        ("2026-07-09".to_string(), stats(1, 1)),
        ("2026-07-10".to_string(), stats(9, 9)),
    ];
    set_daily_stats(&mut daily, "2026-07-11".to_string(), stats(4, 0));
    assert_eq!(hook_stats_lookup(&daily, "2026-07-11"), Some(stats(4, 0)));

    let events = vec![
        event(&[("receivedAt", "2026-07-10"), ("event", "UserPromptSubmit"), ("session", "a")]),
        event(&[("receivedAt", "2026-07-10"), ("event", "UserPromptSubmit"), ("session", "b")]),
    ];
    let accumulators = scan_hook_event_lines(&events, &vec![None, None], &None);
    merge_day_stats(&mut daily, &accumulators);

    let merged = hook_stats_lookup(&daily, "2026-07-10").expect("merged day");
    assert_eq!(merged.session_count, 2);
    assert_eq!(merged.prompt_count, 2);
    assert_eq!(merged.turn_count, 0);
    assert_eq!(hook_stats_lookup(&daily, "2026-07-09"), Some(stats(1, 1)));
    assert_eq!(daily.len(), 3);
}

#[test]
fn plans_merging_before_deleting_completed_event_files() {
    let today = day("2026-07-11");
    let start = retention_start(today);
    let stems: Vec<String> = ["2025-01-01", "2026-07-10", "2026-07-11", "notes"]
        .iter()
        .map(|s| s.to_string())
        .collect();

    let plan = plan_event_files(&stems, today, start, false);
    assert_eq!(plan.completed, vec![1]);
    assert_eq!(plan.active, vec![2, 3]);
    assert_eq!(plan.delete, vec![0, 1]);
    assert!(plan.rewrite_daily);

    let quiet = plan_event_files(&vec!["2026-07-11".to_string()], today, start, false);
    assert!(!quiet.rewrite_daily);
    assert!(plan_event_files(&Vec::new(), today, start, true).rewrite_daily);
}

#[test]
fn keeps_daily_records_in_date_order() {
    let mut daily: Vec<(String, HookDayStats)> = Vec::new();
    set_daily_stats(&mut daily, "2026-07-11".to_string(), stats(1, 0));
    set_daily_stats(&mut daily, "2026-07-09".to_string(), stats(2, 0));
    set_daily_stats(&mut daily, "2026-07-10".to_string(), stats(3, 0));
    set_daily_stats(&mut daily, "2026-07-09".to_string(), stats(4, 0));
    let dates: Vec<&str> = daily.iter().map(|(d, _)| d.as_str()).collect();
    assert_eq!(dates, vec!["2026-07-09", "2026-07-10", "2026-07-11"]);
    assert_eq!(hook_stats_lookup(&daily, "2026-07-09"), Some(stats(4, 0)));
}
