use codextray::json::{JsonNumber, JsonValue};
use codextray::models::{
    AccountSnapshot, AppSettings, DashboardSnapshot, DiagnosticItem, DiagnosticStatus,
    DiagnosticsSnapshot, QuotaSourceKind, QuotaWindow, RateLimitSnapshot, ThemeMode,
};
use codextray::settings::{
    clear_codex_cli_path, codex_hooks_globally_disabled, command_result,
    configured_codex_cli_path, default_settings, get_startup_status, initial_update_status,
    is_supported_shortcut, normalize_cli_path_input, parse_log_line, parse_reg_query_value,
    save_global_shortcut, startup_toggle_report, startup_value_matches_current_exe,
    update_channel_config, update_channel_unconfigured_message, update_check_report,
    update_install_report, UpdateCheckOutcome, UpdateInstallOutcome,
    updater_config_endpoint_from_value, updater_config_pubkey_from_value,
};
use codextray::shell::{
    clamp_position, constrain_to_work_area, dashboard_refresh_log_lines, edge_ui_value,
    hidden_edge_x, hidden_edge_y, quota_widget_height, quota_widget_startup_x, revealed_edge_x,
    shortcut_key, snap_edge, token_activity_log, QuotaWidgetEdge, RefreshGate,
    QUOTA_WIDGET_EDGE_REVEAL_SIZE,
};
use codextray::startup_diagnostics::{
    parse_variant, sanitize_message, smoke_seconds_from_value, StartupDiagnosticVariant,
};
use codextray::tray_status::{
    icon_state_for_snapshot, quota_color, quota_fill_width, set_pixel, tooltip_for_snapshot,
    TrayIconState, TrayQuotaIcon,
};

fn text(s: &str) -> JsonValue {
    JsonValue::Str(s.to_string())
}

fn object(entries: Vec<(&str, JsonValue)>) -> JsonValue {
    JsonValue::Object(entries.into_iter().map(|(k, v)| (k.to_string(), v)).collect())
}

fn snapshot_with_quota(windows: Vec<QuotaWindow>, stale: bool) -> DashboardSnapshot {
    DashboardSnapshot {
        account: AccountSnapshot {
            email: Some("user@example.com".to_string()),
            plan: Some("Plus".to_string()),
            status: "已连接".to_string(),
            updated_at: "2026-07-03T00:00:00Z".to_string(),
        },
        quota: Some(RateLimitSnapshot {
            source: QuotaSourceKind::CodexCli,
            windows,
            reset_credits: None,
            fetched_at: "2026-07-03T00:00:00Z".to_string(),
            stale,
        }),
        last_success_source: Some(QuotaSourceKind::CodexCli),
        source_label: "Codex CLI".to_string(),
        diagnostics: DiagnosticsSnapshot {
            cli_probe: DiagnosticItem::ok("CLI 探测", "可启动"),
            cli_app_server: DiagnosticItem::ok("CLI app-server", "账号与额度读取成功"),
            token_activity: DiagnosticItem {
                label: "Token 活动".to_string(),
                status: DiagnosticStatus::Skipped,
                message: "测试不需要 Token 活动".to_string(),
            },
        },
        metrics: Vec::new(),
        heatmap_days: Vec::new(),
        token_activity_source: None,
    }
}

fn quota_window(label: &str, remaining_percent: u8) -> QuotaWindow {
    QuotaWindow { label: label.to_string(), remaining_percent, reset_at: None }
}

#[test]
fn startup_position_keeps_only_the_edge_reveal_strip_visible() {
    let work_area_left = 120;
    let work_area_width = 1920;
    let work_area_right = work_area_left + work_area_width as i32;

    assert_eq!(
        work_area_right - quota_widget_startup_x(work_area_left, work_area_width),
        QUOTA_WIDGET_EDGE_REVEAL_SIZE,
    );
}

#[test]
fn compact_widget_height_tracks_the_number_of_quota_rows() {
    assert_eq!(quota_widget_height(0) as f64, 48.0);
    assert_eq!(quota_widget_height(1) as f64, 48.0);
    assert_eq!(quota_widget_height(2) as f64, 82.0);
}

#[test]
fn parses_registry_run_value_so_startup_status_reflects_real_state() {
    let output = "HKEY_CURRENT_USER\\Software\\Microsoft\\Windows\\CurrentVersion\\Run\n    CodexTray    REG_SZ    C:\\Apps\\CodexTray\\CodexTray.exe\n";

    let value = parse_reg_query_value(output).expect("run value should parse");

    assert_eq!(value, r"C:\Apps\CodexTray\CodexTray.exe");
}

#[test]
fn parses_plain_log_lines_for_recent_log_view() {
    let entry =
        parse_log_line("2026-07-03T00:00:00Z\tINFO\t刷新完成").expect("log line should parse");

    assert_eq!(entry.level, "INFO");
    assert_eq!(entry.message, "刷新完成");
}

#[test]
fn validates_shortcut_format_before_global_registration() {
    assert!(is_supported_shortcut("Ctrl+Shift+C"));
    assert!(is_supported_shortcut("ctrl + shift + k"));
    assert!(!is_supported_shortcut("Alt+Space"));
}

#[test]
fn requires_update_endpoint_and_pubkey_before_checking_updates() {
    let error = update_channel_config(None, None, None)
        .expect_err("missing endpoint should block checks");

    assert!(error.contains("CODEXTRAY_UPDATE_ENDPOINT"));
}

#[test]
fn reads_updater_channel_from_tauri_plugin_config() {
    let config = object(vec![
        ("endpoints", JsonValue::Array(vec![text("https://example.com/latest.json")])),
        ("pubkey", text("public-key")),
    ]);

    assert_eq!(
        updater_config_endpoint_from_value(&config),
        Some("https://example.com/latest.json".to_string())
    );
    assert_eq!(updater_config_pubkey_from_value(&config), Some("public-key".to_string()));
}

#[test]
fn reads_global_hook_feature_gate_before_installing_handlers() {
    let config = object(vec![(
        "result",
        object(vec![(
            "config",
            object(vec![("features", object(vec![("hooks", JsonValue::Bool(false))]))]),
        )]),
    )]);

    assert!(codex_hooks_globally_disabled(&config));
}

#[test]
fn parses_build_variant_so_each_package_has_one_diagnostic_behavior() {
    assert_eq!(parse_variant(Some("Control")), StartupDiagnosticVariant::Control);
    assert_eq!(parse_variant(Some("NoStartupRefresh")), StartupDiagnosticVariant::NoStartupRefresh);
    assert_eq!(
        parse_variant(Some("NoStartupUiUpdate")),
        StartupDiagnosticVariant::NoStartupUiUpdate
    );
    assert_eq!(parse_variant(None), StartupDiagnosticVariant::Disabled);
}

#[test]
fn tooltip_uses_tightest_quota_window_so_tray_warns_early() {
    let snapshot = snapshot_with_quota(vec![quota_window("7D", 88), quota_window("5H", 24)], false);

    assert_eq!(tooltip_for_snapshot(&snapshot), "CodexTray - 5H 剩余额度 24%");
}

#[test]
fn tooltip_marks_stale_quota_so_cached_data_is_not_mistaken_for_live() {
    let snapshot = snapshot_with_quota(vec![quota_window("7D", 42)], true);

    assert_eq!(tooltip_for_snapshot(&snapshot), "CodexTray - 7D 剩余额度 42%（上次成功）");
}

#[test]
fn icon_state_uses_tightest_quota_window_so_repeated_refreshes_can_skip_same_icon() {
    let snapshot = snapshot_with_quota(vec![quota_window("7D", 88), quota_window("5H", 24)], false);

    assert_eq!(
        icon_state_for_snapshot(&snapshot),
        TrayIconState::Quota(TrayQuotaIcon { remaining_percent: 24 })
    );
}

#[test]
fn tray_falls_back_to_default_icon_and_tooltip_without_quota() {
    let mut snapshot = snapshot_with_quota(vec![], false);
    assert_eq!(icon_state_for_snapshot(&snapshot), TrayIconState::Default);
    assert_eq!(tooltip_for_snapshot(&snapshot), "CodexTray");
    snapshot.quota = None;
    assert_eq!(icon_state_for_snapshot(&snapshot), TrayIconState::Default);
}

#[test]
fn tray_picks_first_of_equally_tight_windows() {
    let snapshot = snapshot_with_quota(
        vec![quota_window("7D", 30), quota_window("5H", 30), quota_window("1D", 90)],
        false,
    );
    assert_eq!(tooltip_for_snapshot(&snapshot), "CodexTray - 7D 剩余额度 30%");
}

#[test]
fn quota_bar_colour_and_fill_follow_thresholds() {
    assert_eq!(quota_color(20).red, 248);
    assert_eq!(quota_color(21).red, 251);
    assert_eq!(quota_color(50).green, 191);
    assert_eq!(quota_color(51).green, 197);
    assert_eq!(quota_fill_width(0), 0);
    assert_eq!(quota_fill_width(1), 0);
    assert_eq!(quota_fill_width(3), 1);
    assert_eq!(quota_fill_width(25), 5);
    assert_eq!(quota_fill_width(75), 14);
    assert_eq!(quota_fill_width(100), 18);
    assert_eq!(quota_fill_width(200), 18);
}

#[test]
fn set_pixel_paints_inside_and_ignores_outside() {
    let mut canvas = vec![0u8; 32 * 32 * 4];
    let c = quota_color(10);
    set_pixel(&mut canvas, 1, 2, c);
    let index = (2 * 32 + 1) * 4;
    assert_eq!(&canvas[index..index + 4], &[248, 113, 113, 255]);
    let before = canvas.clone();
    set_pixel(&mut canvas, -1, 0, c);
    set_pixel(&mut canvas, 32, 0, c);
    assert_eq!(canvas, before);
}

#[test]
fn startup_variant_trims_setting_and_reports_names() {
    assert_eq!(parse_variant(Some("  Control \n")), StartupDiagnosticVariant::Control);
    assert_eq!(parse_variant(Some("control")), StartupDiagnosticVariant::Disabled);
    assert_eq!(StartupDiagnosticVariant::NoStartupUiUpdate.name(), "NoStartupUiUpdate");
    assert!(StartupDiagnosticVariant::NoStartupRefresh.skips_startup_refresh());
    assert!(!StartupDiagnosticVariant::Control.skips_startup_refresh());
    assert!(StartupDiagnosticVariant::NoStartupUiUpdate.skips_startup_ui_update());
}

#[test]
fn smoke_seconds_accepts_only_five_to_three_hundred() {
    assert_eq!(smoke_seconds_from_value(None), 20);
    assert_eq!(smoke_seconds_from_value(Some("5")), 5);
    assert_eq!(smoke_seconds_from_value(Some("300")), 300);
    assert_eq!(smoke_seconds_from_value(Some("4")), 20);
    assert_eq!(smoke_seconds_from_value(Some("301")), 20);
    assert_eq!(smoke_seconds_from_value(Some(" 30")), 20);
    assert_eq!(smoke_seconds_from_value(Some("abc")), 20);
}

#[test]
fn diagnostic_messages_stay_on_one_log_line() {
    assert_eq!(sanitize_message("a\tb\r\nc"), "a b  c");
}

#[test]
fn shortcut_is_saved_trimmed_or_refused() {
    let settings = default_settings();
    let saved = save_global_shortcut(settings.clone(), "  Ctrl+Shift+K ").expect("valid shortcut");
    assert_eq!(saved.global_shortcut, "Ctrl+Shift+K");
    let error = save_global_shortcut(settings, "Ctrl+Alt+K").expect_err("invalid shortcut");
    assert_eq!(error, "当前仅支持 Ctrl+Shift+字母 格式");
    assert!(!is_supported_shortcut("Ctrl+Shift+KK"));
    assert!(!is_supported_shortcut("Ctrl+Shift+1"));
    assert!(!is_supported_shortcut("Ctrl+Shift+K+L"));
}

#[test]
fn default_settings_use_light_theme_and_default_shortcut() {
    let settings = default_settings();
    assert_eq!(settings.theme, ThemeMode::Light);
    assert_eq!(settings.global_shortcut, "Ctrl+Shift+C");
    assert!(settings.codex_cli_path.is_none());
}

#[test]
fn cli_path_is_trimmed_and_cleared() {
    let settings = AppSettings {
        theme: ThemeMode::Dark,
        global_shortcut: "Ctrl+Shift+C".to_string(),
        codex_cli_path: Some("  C:\\codex.exe ".to_string()),
        quota_widget_enabled: true,
    };
    assert_eq!(configured_codex_cli_path(&settings), Some("C:\\codex.exe".to_string()));
    let cleared = clear_codex_cli_path(settings);
    assert!(cleared.codex_cli_path.is_none());
    assert_eq!(cleared.theme, ThemeMode::Dark);
    assert!(cleared.quota_widget_enabled);
    assert_eq!(configured_codex_cli_path(&cleared), None);
    assert_eq!(normalize_cli_path_input("  \"C:\\x\\codex.exe\" "), Ok("C:\\x\\codex.exe".to_string()));
    assert_eq!(normalize_cli_path_input(" \"\" "), Err("Codex CLI 路径不能为空".to_string()));
}

#[test]
fn startup_status_follows_platform_and_registry() {
    let unsupported = get_startup_status(false, Ok(None), None);
    assert!(!unsupported.enabled);
    assert_eq!(unsupported.source, "unsupported");
    let enabled = get_startup_status(
        true,
        Ok(Some("\"C:\\Apps\\CodexTray.exe\"".to_string())),
        Some("c:\\apps\\codextray.exe"),
    );
    assert!(enabled.enabled);
    assert_eq!(enabled.source, "HKCU Run");
    let missing = get_startup_status(true, Ok(None), Some("C:\\x.exe"));
    assert!(!missing.enabled);
    assert_eq!(missing.message, "未启用");
    let failed = get_startup_status(true, Err("boom".to_string()), Some("C:\\x.exe"));
    assert_eq!(failed.message, "boom");
    assert!(!startup_value_matches_current_exe("C:\\a.exe", None));
}

#[test]
fn startup_toggle_and_registry_results_are_reported() {
    let ok = startup_toggle_report(true, Ok(()));
    assert_eq!(ok.level, "INFO");
    assert_eq!(ok.message, "开机启动已启用");
    let off = startup_toggle_report(false, Ok(()));
    assert_eq!(off.message, "开机启动已关闭");
    let failed = startup_toggle_report(true, Err("denied".to_string()));
    assert_eq!(failed.level, "ERROR");
    assert_eq!(failed.message, "开机启动切换失败：denied");
    assert_eq!(failed.error, Some("denied".to_string()));
    assert_eq!(command_result(true, "x"), Ok(()));
    assert_eq!(command_result(false, "  "), Err("注册表命令执行失败".to_string()));
    assert_eq!(command_result(false, " access denied\n"), Err("access denied".to_string()));
}

#[test]
fn reg_query_skips_lines_without_the_value() {
    assert_eq!(parse_reg_query_value(""), None);
    assert_eq!(parse_reg_query_value("CodexTray without type\r\n"), None);
    assert_eq!(
        parse_reg_query_value("Other REG_SZ x\r\n  CodexTray REG_SZ  \"C:\\a b.exe\"  \r\n"),
        Some("\"C:\\a b.exe\"".to_string())
    );
}

#[test]
fn log_lines_need_three_fields() {
    assert!(parse_log_line("only\tone").is_none());
    let entry = parse_log_line("t\tWARN\tmessage\twith tab").expect("three fields");
    assert_eq!(entry.timestamp, "t");
    assert_eq!(entry.message, "message\twith tab");
}

#[test]
fn update_channel_prefers_environment_then_config() {
    let config = object(vec![
        ("endpoints", JsonValue::Array(vec![text("  https://a/latest.json ")])),
        ("pubkey", text("key")),
    ]);
    let channel = update_channel_config(Some("  "), None, Some(&config)).expect("configured");
    assert_eq!(channel.endpoint, "https://a/latest.json");
    assert_eq!(channel.pubkey, "key");
    let channel = update_channel_config(Some("https://env"), Some("envkey"), Some(&config))
        .expect("configured");
    assert_eq!(channel.endpoint, "https://env");
    assert_eq!(channel.pubkey, "envkey");
    let error = update_channel_config(Some("https://env"), None, None).expect_err("no key");
    assert!(error.contains("CODEXTRAY_UPDATE_PUBKEY"));
    assert_eq!(update_channel_unconfigured_message(), "未启用自动更新通道");
    assert_eq!(initial_update_status(true, "2026-07-03T00:00:00Z".to_string()).message, "更新通道已配置，等待检查");
    assert_eq!(initial_update_status(false, "2026-07-03T00:00:00Z".to_string()).status, DiagnosticStatus::Skipped);
    let empty = object(vec![("endpoints", JsonValue::Array(vec![]))]);
    assert_eq!(updater_config_endpoint_from_value(&empty), None);
}

#[test]
fn hook_feature_gate_reads_codex_hooks_and_top_level_config() {
    let config = object(vec![(
        "config",
        object(vec![("features", object(vec![("codex_hooks", JsonValue::Bool(false))]))]),
    )]);
    assert!(codex_hooks_globally_disabled(&config));
    let enabled = object(vec![(
        "config",
        object(vec![("features", object(vec![("hooks", JsonValue::Bool(true))]))]),
    )]);
    assert!(!codex_hooks_globally_disabled(&enabled));
    let number = object(vec![(
        "config",
        object(vec![("features", object(vec![("hooks", JsonValue::Number(JsonNumber::PosInt(0)))]))]),
    )]);
    assert!(!codex_hooks_globally_disabled(&number));
}

#[test]
fn quota_widget_snaps_to_nearest_edge() {
    assert_eq!(snap_edge(500, 160, 0, 1920), None);
    assert_eq!(snap_edge(10, 160, 0, 1920), Some(QuotaWidgetEdge::Left));
    assert_eq!(snap_edge(1750, 160, 0, 1920), Some(QuotaWidgetEdge::Right));
    assert_eq!(snap_edge(5, 100, 0, 120), Some(QuotaWidgetEdge::Left));
    assert_eq!(snap_edge(18, 100, 0, 120), Some(QuotaWidgetEdge::Right));
    assert_eq!(hidden_edge_x(QuotaWidgetEdge::Left, 0, 1920, 160), -148);
    assert_eq!(hidden_edge_x(QuotaWidgetEdge::Right, 0, 1920, 160), 1908);
    assert_eq!(revealed_edge_x(QuotaWidgetEdge::Left, 0, 1920, 160), 8);
    assert_eq!(revealed_edge_x(QuotaWidgetEdge::Right, 0, 1920, 160), 1752);
    assert_eq!(hidden_edge_y(2000, 0, 1080, 48), 1032);
    assert_eq!(hidden_edge_y(-5, 0, 1080, 48), 0);
    assert_eq!(edge_ui_value(Some(QuotaWidgetEdge::Left)), "left");
    assert_eq!(edge_ui_value(None), "");
}

#[test]
fn positions_are_clamped_into_the_work_area() {
    assert_eq!(clamp_position(5, 10, 20), 10);
    assert_eq!(clamp_position(25, 10, 20), 20);
    assert_eq!(clamp_position(15, 10, 20), 15);
    assert_eq!(clamp_position(15, 10, 5), 10);
    assert_eq!(constrain_to_work_area(-100, 5000, 0, 0, 1920, 1080, 400, 468), (8, 604));
}

#[test]
fn global_shortcut_key_is_the_last_letter() {
    assert_eq!(shortcut_key("Ctrl+Shift+c"), Ok('C'));
    assert_eq!(shortcut_key("Ctrl+Shift+ k "), Ok('K'));
    assert_eq!(shortcut_key("Ctrl+Shift+"), Err("快捷键格式无效".to_string()));
    assert_eq!(shortcut_key("Ctrl+Shift+1"), Err("当前仅支持 Ctrl+Shift+字母 格式".to_string()));
}

#[test]
fn refresh_gate_allows_one_refresh_at_a_time() {
    let mut gate = RefreshGate::new();
    assert!(gate.begin(100));
    assert!(!gate.begin(110));
    assert_eq!(gate.last_started_at, 100);
    assert!(!gate.refresh_due(159));
    assert!(gate.refresh_due(160));
    gate.finish();
    assert!(gate.begin(170));
    assert_eq!(gate.seconds_since_last(160), 0);
    assert_eq!(gate.seconds_since_last(175), 5);
}

#[test]
fn refresh_log_reports_live_quota_or_failed_steps() {
    let snapshot = snapshot_with_quota(vec![quota_window("5H", 24)], false);
    let lines = dashboard_refresh_log_lines("托盘菜单刷新完成", &snapshot);
    assert_eq!(
        lines,
        vec![("INFO".to_string(), "托盘菜单刷新完成，emailPresent=true，quotaWindows=1".to_string())]
    );
    let mut stale = snapshot_with_quota(vec![quota_window("5H", 24)], true);
    stale.diagnostics.cli_app_server = DiagnosticItem::error("CLI app-server", "超时");
    stale.diagnostics.token_activity = DiagnosticItem::error("Token 活动", "失败");
    let lines = dashboard_refresh_log_lines("x", &stale);
    assert_eq!(
        lines,
        vec![
            ("ERROR".to_string(), "CLI app-server：超时".to_string()),
            ("ERROR".to_string(), "Token 活动：失败".to_string()),
        ]
    );
    assert_eq!(token_activity_log(&stale), Some(("ERROR".to_string(), "Token 活动：失败".to_string())));
    assert_eq!(token_activity_log(&snapshot), None);
}

#[test]
fn icon_renders_low_quota_without_panicking_when_fill_is_one_pixel_wide() {
    for remaining in 0..=u8::MAX {
        let mut canvas = vec![0_u8; 32 * 32 * 4];
        let width = quota_fill_width(remaining);
        assert!((0..=18).contains(&width));
        for y in 28..=30 {
            for x in 7..7 + width {
                set_pixel(&mut canvas, x, y, quota_color(remaining));
            }
        }
        assert_eq!(canvas.len(), 32 * 32 * 4);
    }
    assert_eq!(quota_fill_width(3), 1);
}

#[test]
fn update_outcomes_become_logged_statuses() {
    let at = "2026-07-03T00:00:00Z".to_string();
    let (level, status) =
        update_check_report(UpdateCheckOutcome::Available("1.2.0".to_string()), at.clone());
    assert_eq!(level, "INFO");
    assert_eq!(status.status, DiagnosticStatus::Warning);
    assert_eq!(status.message, "发现新版本：1.2.0，请确认后安装");
    assert_eq!(status.available_version.as_deref(), Some("1.2.0"));
    assert_eq!(status.checked_at, at);
    let (level, status) = update_check_report(UpdateCheckOutcome::UpToDate, at.clone());
    assert_eq!(level, "INFO");
    assert_eq!(status.status, DiagnosticStatus::Success);
    assert_eq!(status.message, "当前已是最新版本");
    let (level, status) =
        update_check_report(UpdateCheckOutcome::Failed("offline".to_string()), at.clone());
    assert_eq!(level, "ERROR");
    assert_eq!(status.status, DiagnosticStatus::Error);
    assert_eq!(status.message, "更新检查失败：offline");

    let (level, status) =
        update_install_report(UpdateInstallOutcome::Installed("1.2.0".to_string()), at.clone());
    assert_eq!(level, "INFO");
    assert_eq!(status.status, DiagnosticStatus::Success);
    assert_eq!(status.message, "新版本 1.2.0 已安装，重启后生效");
    assert!(status.available_version.is_none());
    let (level, status) = update_install_report(
        UpdateInstallOutcome::InstallFailed("bad signature".to_string()),
        at.clone(),
    );
    assert_eq!(level, "ERROR");
    assert_eq!(status.message, "更新安装失败：bad signature");
    let (_, status) = update_install_report(UpdateInstallOutcome::UpToDate, at.clone());
    assert_eq!(status.message, "当前已是最新版本");
    let (level, status) =
        update_install_report(UpdateInstallOutcome::CheckFailed("timeout".to_string()), at);
    assert_eq!(level, "ERROR");
    assert_eq!(status.message, "更新检查失败：timeout");
}
