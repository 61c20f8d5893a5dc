use chrono::Datelike;
use codextray::dashboard::{
    diagnostics_has_error, empty_diagnostics, finish_quota_refresh, format_days,
    format_duration, format_token_count, has_account_changed, metrics_from_activity,
    needs_local_fallback, quota_source, record_local_fallback, record_quota_fetch,
    record_usage_fetch, source_label, DashboardState, QuotaFetchOutcome, TokenCountTexts,
    UsageFetchOutcome,
};
use codextray::models::{
    AccountSnapshot, DiagnosticStatus, QuotaFetchResult, QuotaSourceKind, QuotaWindow,
    RateLimitSnapshot, TokenActivitySnapshot, TokenActivitySource,
};

fn account(email: Option<&str>) -> AccountSnapshot {
    AccountSnapshot {
        email: email.map(|e| e.to_string()),
        plan: Some("PLUS".to_string()),
        status: "已连接".to_string(),
        updated_at: "2026-07-02T00:00:00Z".to_string(),
    }
}

fn quota() -> RateLimitSnapshot {
    RateLimitSnapshot {
        source: QuotaSourceKind::CodexCli,
        windows: vec![QuotaWindow {
            label: "Codex 5H".to_string(),
            remaining_percent: 66,
            reset_at: None,
        }],
        reset_credits: None,
        fetched_at: "2026-07-02T00:00:00Z".to_string(),
        stale: false,
    }
}

fn activity(source: TokenActivitySource) -> TokenActivitySnapshot {
    TokenActivitySnapshot {
        source,
        lifetime_tokens: Some(1_234_567),
        peak_daily_tokens: Some(999),
        longest_running_turn_sec: Some(185),
        current_streak_days: Some(3),
        longest_streak_days: None,
        daily_buckets: Vec::new(),
    }
}

fn result(email: Option<&str>, activity: Option<TokenActivitySnapshot>) -> QuotaFetchResult {
    QuotaFetchResult {
        account: account(email),
        quota: quota(),
        token_activity: activity,
    }
}

fn today() -> i32 {
    chrono::NaiveDate::from_ymd_opt(2026, 7, 3).unwrap().num_days_from_ce()
}

fn texts() -> TokenCountTexts {
    TokenCountTexts {
        lifetime: "1.2 M".to_string(),
        peak: "unused".to_string(),
    }
}

#[test]
fn formats_metric_values() {
    assert_eq!(format_token_count(None, "x"), "-");
    assert_eq!(format_token_count(Some(999), "x"), "999");
    assert_eq!(format_token_count(Some(1000), "1.0 K"), "1.0 K");
    assert_eq!(format_duration(Some(185)), "3分5秒");
    assert_eq!(format_duration(Some(59)), "59秒");
    assert_eq!(format_duration(None), "-");
    assert_eq!(format_days(Some(5)), "5天");
    assert_eq!(format_days(None), "-");
}

#[test]
fn builds_the_five_panel_metrics() {
    let a = activity(TokenActivitySource::LocalJsonl);
    let metrics = metrics_from_activity(Some(&a), &texts());
    let values: Vec<(&str, &str)> = metrics
        .iter()
        .map(|m| (m.label.as_str(), m.value.as_str()))
        .collect();
    assert_eq!(
        values,
        vec![
            ("累计 Token", "1.2 M"),
            ("峰值 Token", "999"),
            ("最长任务时长", "3分5秒"),
            ("当前连续天数", "3天"),
            ("最长连续天数", "-"),
        ]
    );

    let empty = metrics_from_activity(None, &texts());
    assert!(empty.iter().all(|m| m.value == "-"));
    assert_eq!(empty.len(), 5);
}

#[test]
fn marks_quota_as_cached_when_the_refresh_failed() {
    let mut diagnostics = empty_diagnostics();
    assert!(!diagnostics_has_error(&diagnostics));
    let q = quota();
    assert_eq!(quota_source(Some(&q), &diagnostics), Some(QuotaSourceKind::CodexCli));

    let remembered = record_quota_fetch(
        &mut diagnostics,
        QuotaFetchOutcome::FetchFailed("codex 1.0".to_string(), "timeout".to_string()),
    );
    assert!(remembered.is_none());
    assert!(diagnostics_has_error(&diagnostics));
    assert_eq!(diagnostics.cli_probe.message, "可启动：codex 1.0");
    assert_eq!(diagnostics.cli_app_server.status, DiagnosticStatus::Error);
    assert_eq!(quota_source(Some(&q), &diagnostics), Some(QuotaSourceKind::Cached));
    assert_eq!(quota_source(None, &diagnostics), None);
    assert_eq!(source_label(Some(QuotaSourceKind::Cached)), "上次成功数据");
    assert_eq!(source_label(None), "暂无可用来源");
}

#[test]
fn forgets_token_activity_when_the_account_changes() {
    let mut state = DashboardState::new();
    assert!(!state.has_success());
    state.remember_success(result(
        Some("a@example.com"),
        Some(activity(TokenActivitySource::ProfileUsageApi)),
    ));
    assert!(state.has_success());
    assert!(state.last_token_activity.is_some());
    assert!(!needs_local_fallback(&state));

    let same = result(Some("a@example.com"), None);
    assert!(!has_account_changed(state.last_success.as_ref(), &same));
    state.remember_success(same);
    assert!(state.last_token_activity.is_some());

    let other = result(Some("b@example.com"), None);
    assert!(has_account_changed(state.last_success.as_ref(), &other));
    state.remember_success(other);
    assert!(state.last_token_activity.is_none());
    assert!(needs_local_fallback(&state));
}

#[test]
fn finished_refresh_shows_the_reading_and_background_activity() {
    let mut state = DashboardState::new();
    let mut diagnostics = empty_diagnostics();
    let fetched = record_quota_fetch(
        &mut diagnostics,
        QuotaFetchOutcome::Fetched("codex 1.0".to_string(), result(Some("a@example.com"), None)),
    );
    let snapshot = finish_quota_refresh(&mut state, fetched, diagnostics, &Vec::new(), &texts(), today());

    assert_eq!(snapshot.account.email.as_deref(), Some("a@example.com"));
    assert_eq!(snapshot.source_label, "Codex CLI");
    assert_eq!(snapshot.diagnostics.cli_app_server.message, "账号与额度读取成功");
    assert_eq!(snapshot.diagnostics.token_activity.message, "后台刷新中");
    assert!(!snapshot.quota.expect("quota should be shown").stale);

    let cached = state.cached_snapshot(&Vec::new(), &texts(), today());
    assert_eq!(cached.account.email.as_deref(), Some("a@example.com"));
    assert_eq!(cached.diagnostics.cli_probe.message, "正在诊断");
}

#[test]
fn disconnected_snapshot_has_no_quota() {
    let state = DashboardState::new();
    let snapshot = state.cached_snapshot(&Vec::new(), &texts(), today());
    assert_eq!(snapshot.account.status, "未连接");
    assert!(snapshot.quota.is_none());
    assert_eq!(snapshot.source_label, "暂无可用来源");
    assert_eq!(snapshot.heatmap_days.len(), 231);
    assert_eq!(snapshot.heatmap_days[0].date, "2025-11-16");
    assert_eq!(snapshot.diagnostics.cli_probe.message, "正在诊断");
    assert_eq!(snapshot.diagnostics.token_activity.status, DiagnosticStatus::Skipped);
    assert!(snapshot.metrics.iter().all(|m| m.value == "-"));
    assert!(snapshot.token_activity_source.is_none());
}

#[test]
fn records_usage_and_local_fallback_outcomes() {
    let mut state = DashboardState::new();
    let mut diagnostics = empty_diagnostics();
    let read = record_usage_fetch(
        &mut diagnostics,
        UsageFetchOutcome::ProbeFailed("未找到 Codex CLI".to_string()),
    );
    assert!(read.is_none());
    assert_eq!(diagnostics.cli_probe.status, DiagnosticStatus::Error);
    assert!(needs_local_fallback(&state));

    record_local_fallback(
        &mut state,
        &mut diagnostics,
        Some(Ok(activity(TokenActivitySource::LocalJsonl))),
    );
    assert_eq!(diagnostics.token_activity.message, "已回退本地 JSONL");
    assert!(state.last_token_activity.is_some());

    let mut other = empty_diagnostics();
    record_local_fallback(&mut state, &mut other, Some(Err("读取失败".to_string())));
    assert_eq!(other.token_activity.status, DiagnosticStatus::Error);
    assert_eq!(other.token_activity.message, "读取失败");

    let fetched = record_usage_fetch(
        &mut diagnostics,
        UsageFetchOutcome::Fetched(
            "codex 1.0".to_string(),
            activity(TokenActivitySource::ProfileUsageApi),
        ),
    );
    assert!(fetched.is_some());
    assert_eq!(diagnostics.token_activity.message, "profile usage API 读取成功");
}
