use codextray::hook_command::codextray_hook_command;
use codextray::hook_trust::{
    hook_metadata_items, hook_status_report, hook_trust_entries_needing_update, hook_trust_state,
    hook_trust_state_value, hook_validation_message, managed_hook_trust_keys,
    normalized_event_name_text, remove_trust_keys, trust_state_edit, HookCheck,
};
use codextray::hooks_config::{
    apply_hook_toggle, hook_event_name, hooks_config_has_codextray, install_codextray_hooks,
    normalize_hooks_config, remove_all_codextray_hooks,
};
use codextray::json::{JsonNumber, JsonValue};

const EVENTS: [&str; 10] = [
    "PermissionRequest",
    "PostCompact",
    "PostToolUse",
    "PreCompact",
    "PreToolUse",
    "SessionStart",
    "Stop",
    "SubagentStart",
    "SubagentStop",
    "UserPromptSubmit",
];

fn text(s: &str) -> JsonValue {
    JsonValue::Str(s.to_string())
}

fn object(entries: Vec<(&str, JsonValue)>) -> JsonValue {
    JsonValue::Object(entries.into_iter().map(|(k, v)| (k.to_string(), v)).collect())
}

fn array(items: Vec<JsonValue>) -> JsonValue {
    JsonValue::Array(items)
}

fn command_of(exe: &str) -> String {
    let dir = &exe[..exe.rfind('\\').unwrap()];
    let script = format!("{}\\codextray-hook.ps1", dir);
    codextray_hook_command(&script, exe, true)
}

fn lower_first(value: &str) -> String {
    let mut chars = value.chars();
    let Some(first) = chars.next() else {
        return String::new();
    };
    first.to_lowercase().collect::<String>() + chars.as_str()
}

fn listed_hooks(trust_for: &dyn Fn(&str) -> &'static str) -> JsonValue {
    let hooks = EVENTS
        .iter()
        .map(|event| {
            object(vec![
                ("eventName", text(&lower_first(event))),
                (
                    "command",
                    text("powershell.exe -File \"D:\\Tools\\CodexTray\\codextray-hook.ps1\" -Executable \"D:\\Tools\\CodexTray\\CodexTray.exe\""),
                ),
                ("sourcePath", text("C:\\Users\\person\\.codex\\hooks.json")),
                ("enabled", JsonValue::Bool(true)),
                ("trustStatus", text(trust_for(event))),
                ("key", text(&format!("key-{}", event))),
                ("currentHash", text(&format!("hash-{}", event))),
            ])
        })
        .collect::<Vec<_>>();
    object(vec![(
        "result",
        object(vec![(
            "data",
            array(vec![object(vec![
                ("cwd", text("C:\\Users\\person")),
                ("hooks", array(hooks)),
                ("warnings", array(vec![])),
                ("errors", array(vec![])),
            ])]),
        )]),
    )])
}

fn commands_of_event(config: &JsonValue, event: &str) -> Vec<String> {
    let groups = config
        .get("hooks")
        .and_then(|root| root.get(event))
        .and_then(|v| v.as_array())
        .expect("event should have groups");
    groups
        .iter()
        .filter_map(|group| group.get("hooks").and_then(|h| h.as_array()))
        .flat_map(|hooks| hooks.iter())
        .filter_map(|hook| hook.get("command").and_then(|c| c.as_str()))
        .map(|c| c.to_string())
        .collect()
}

#[test]
fn installs_codextray_hook_for_each_lifecycle_event() {
    let mut config = object(vec![]);
    let exe = r"C:\Apps\CodexTray.exe";

    install_codextray_hooks(&mut config, exe, &command_of(exe));

    for event in EVENTS {
        let hooks = config
            .get("hooks")
            .and_then(|root| root.get(event))
            .and_then(|v| v.as_array())
            .expect("event should have hook entries");

        assert_eq!(hooks.len(), 1);
    }
    assert!(hooks_config_has_codextray(&config, exe));
}

#[test]
fn migrates_legacy_top_level_hooks_so_codex_can_parse_the_config() {
    let mut config = object(vec![
        (
            "PreToolUse",
            array(vec![object(vec![
                ("type", text("command")),
                ("command", text("python legacy.py")),
                ("args", array(vec![text("--flag")])),
            ])]),
        ),
        (
            "hooks",
            object(vec![(
                "Stop",
                array(vec![object(vec![(
                    "hooks",
                    array(vec![object(vec![
                        ("type", text("command")),
                        ("command", text("python existing.py")),
                    ])]),
                )])]),
            )]),
        ),
    ]);

    normalize_hooks_config(&mut config);

    assert!(config.get("PreToolUse").is_none());
    let migrated = config
        .get("hooks")
        .and_then(|root| root.get("PreToolUse"))
        .and_then(|v| v.as_array())
        .and_then(|groups| groups.first())
        .and_then(|group| group.get("hooks"))
        .and_then(|v| v.as_array())
        .and_then(|hooks| hooks.first())
        .expect("legacy hook should move into grouped hooks");
    assert_eq!(migrated.get("command").and_then(|v| v.as_str()), Some("python legacy.py"));
}

#[test]
fn accepts_codex_lower_camel_event_names_when_validating_hooks() {
    let exe = r"D:\Tools\CodexTray\CodexTray.exe";
    let hooks_path = r"C:\Users\person\.codex\hooks.json";
    let response = listed_hooks(&|_| "trusted");

    assert_eq!(hook_validation_message(&response, exe, hooks_path), None);
}

#[test]
fn rejects_modified_codextray_hook_so_written_config_is_not_reported_as_active() {
    let exe = r"D:\Tools\CodexTray\CodexTray.exe";
    let hooks_path = r"C:\Users\person\.codex\hooks.json";
    let response =
        listed_hooks(&|event| if event == "PostToolUse" { "modified" } else { "trusted" });

    assert_eq!(
        hook_validation_message(&response, exe, hooks_path),
        Some("CodexTray Hook 未被信任".to_string())
    );
}

#[test]
fn removes_only_codextray_hook_entries_from_existing_config() {
    let exe = r"D:\WorkSpace\CodexTray\CodexTray.exe";
    let mut config = object(vec![(
        "hooks",
        object(vec![(
            "PreToolUse",
            array(vec![object(vec![(
                "hooks",
                array(vec![
                    object(vec![
                        ("type", text("command")),
                        ("command", text("\"D:\\WorkSpace\\CodexTray\\CodexTray.exe\" --hook-event")),
                        ("timeout", JsonValue::Number(JsonNumber::PosInt(5))),
                    ]),
                    object(vec![("type", text("command")), ("command", text("python other.py"))]),
                ]),
            )])]),
        )]),
    )]);

    remove_all_codextray_hooks(&mut config);

    let hooks = config
        .get("hooks")
        .and_then(|root| root.get("PreToolUse"))
        .and_then(|v| v.as_array())
        .and_then(|groups| groups.first())
        .and_then(|group| group.get("hooks"))
        .and_then(|v| v.as_array())
        .expect("event should remain an array");
    assert_eq!(hooks.len(), 1);
    assert_eq!(hooks[0].get("command").and_then(|v| v.as_str()), Some("python other.py"));
    assert!(!hooks_config_has_codextray(&config, exe));
}

#[test]
fn removes_stale_codextray_hook_paths_before_installing_current_executable() {
    let current_exe = r"D:\Tools\CodexTray\CodexTray.exe";
    let mut config = object(vec![(
        "hooks",
        object(vec![(
            "UserPromptSubmit",
            array(vec![object(vec![(
                "hooks",
                array(vec![
                    object(vec![
                        ("type", text("command")),
                        ("command", text("\"D:\\Old\\CodexTray\\CodexTray.exe\" --hook-event")),
                    ]),
                    object(vec![("type", text("command")), ("command", text("python other.py"))]),
                ]),
            )])]),
        )]),
    )]);

    remove_all_codextray_hooks(&mut config);
    install_codextray_hooks(&mut config, current_exe, &command_of(current_exe));

    assert_eq!(
        commands_of_event(&config, "UserPromptSubmit"),
        vec![
            "python other.py",
            "powershell.exe -NoLogo -NoProfile -NonInteractive -ExecutionPolicy Bypass -File \"D:\\Tools\\CodexTray\\codextray-hook.ps1\" -Executable \"D:\\Tools\\CodexTray\\CodexTray.exe\""
        ]
    );
}

#[test]
fn installing_twice_keeps_one_hook_per_event() {
    let exe = r"C:\Apps\CodexTray.exe";
    let mut config = object(vec![]);
    install_codextray_hooks(&mut config, exe, &command_of(exe));
    install_codextray_hooks(&mut config, exe, &command_of(exe));
    for event in EVENTS {
        assert_eq!(commands_of_event(&config, event).len(), 1);
    }
}

#[test]
fn non_object_config_is_replaced_before_install() {
    let exe = r"C:\Apps\CodexTray.exe";
    let mut config = array(vec![text("junk")]);
    install_codextray_hooks(&mut config, exe, &command_of(exe));
    assert!(config.is_object());
    assert!(hooks_config_has_codextray(&config, exe));
    let mut config = text("x");
    normalize_hooks_config(&mut config);
    assert!(config.is_object());
}

#[test]
fn toggling_hooks_off_removes_legacy_and_grouped_entries() {
    let exe = r"C:\Apps\CodexTray.exe";
    let mut config = object(vec![(
        "Stop",
        array(vec![object(vec![("command", text(&command_of(exe)))])]),
    )]);
    assert!(hooks_config_has_codextray(&config, exe));
    apply_hook_toggle(&mut config, false, exe, &command_of(exe));
    assert!(!hooks_config_has_codextray(&config, exe));
    assert!(config.get("Stop").is_none());
    apply_hook_toggle(&mut config, true, exe, &command_of(exe));
    assert!(hooks_config_has_codextray(&config, exe));
}

#[test]
fn event_names_compare_without_case_or_separators() {
    assert_eq!(normalized_event_name_text("Post_Tool-Use"), "posttooluse");
    assert_eq!(normalized_event_name_text("preToolUse"), normalized_event_name_text("PreToolUse"));
}

#[test]
fn validation_reports_missing_data_errors_and_incomplete_hooks() {
    let exe = r"D:\Tools\CodexTray\CodexTray.exe";
    let hooks_path = r"C:\Users\person\.codex\hooks.json";
    assert_eq!(
        hook_validation_message(&object(vec![]), exe, hooks_path),
        Some("Codex 没有返回 Hook 状态".to_string())
    );
    let errors = object(vec![(
        "data",
        array(vec![object(vec![("errors", array(vec![text("bad")]))])]),
    )]);
    assert_eq!(
        hook_validation_message(&errors, exe, hooks_path),
        Some("Codex 返回 Hook 配置错误".to_string())
    );
    let empty_hooks = object(vec![("data", array(vec![object(vec![("hooks", array(vec![]))])]))]);
    assert_eq!(
        hook_validation_message(&empty_hooks, exe, hooks_path),
        Some("CodexTray Hook 已不完整".to_string())
    );
    assert_eq!(
        hook_validation_message(&listed_hooks(&|_| "trusted"), exe, r"C:\other\hooks.json"),
        Some("CodexTray Hook 来源不是全局 hooks.json".to_string())
    );
}

#[test]
fn trust_entries_and_keys_come_from_managed_hooks() {
    let exe = r"D:\Tools\CodexTray\CodexTray.exe";
    let hooks_path = r"C:\Users\person\.codex\hooks.json";
    let response = listed_hooks(&|event| if event == "Stop" { "untrusted" } else { "trusted" });
    assert_eq!(hook_metadata_items(&response).len(), 10);
    assert_eq!(
        hook_trust_entries_needing_update(&response, exe, hooks_path),
        vec![("key-Stop".to_string(), "hash-Stop".to_string())]
    );
    assert_eq!(managed_hook_trust_keys(&response, exe, hooks_path).len(), 10);
    assert!(managed_hook_trust_keys(&response, r"D:\Else\CodexTray.exe", hooks_path).is_empty());
}

#[test]
fn trust_state_round_trips_and_drops_removed_keys() {
    let entries = vec![("a".to_string(), "h1".to_string()), ("b".to_string(), "h2".to_string())];
    let value = hook_trust_state_value(&entries);
    let response = object(vec![(
        "result",
        object(vec![("config", object(vec![("hooks", object(vec![("state", value)]))]))]),
    )]);
    let state = hook_trust_state(&response);
    assert_eq!(state, entries);
    let kept = remove_trust_keys(state, &vec!["a".to_string()]);
    assert_eq!(kept, vec![("b".to_string(), "h2".to_string())]);
    let edit = trust_state_edit(hook_trust_state_value(&kept), "replace");
    assert_eq!(edit.get("keyPath").and_then(|v| v.as_str()), Some("hooks.state"));
    assert_eq!(edit.get("mergeStrategy").and_then(|v| v.as_str()), Some("replace"));
}

#[test]
fn hook_status_report_shows_where_the_check_stopped() {
    let active = hook_status_report("C:\\h.json", HookCheck::Active);
    assert!(active.enabled);
    assert_eq!(active.message, "Hook 已配置并受信任，等待 Codex 事件");
    let invalid = hook_status_report("C:\\h.json", HookCheck::Invalid("x".to_string()));
    assert!(!invalid.enabled);
    assert_eq!(invalid.message, "Hook 未生效：x");
    assert_eq!(invalid.source, "C:\\h.json");
    let probe = hook_status_report("p", HookCheck::ProbeFailed("y".to_string()));
    assert_eq!(probe.message, "Hook 已写入，但无法验证：y");
    assert_eq!(hook_status_report("p", HookCheck::NotInstalled).message, "未启用 Hook 采集");
    let _ = hook_event_name(0);
}

#[test]
fn removing_hooks_keeps_the_rest_of_the_user_config() {
    let mut config = object(vec![
        ("model", text("gpt-5")),
        ("features", object(vec![("hooks", JsonValue::Bool(true))])),
        (
            "Stop",
            array(vec![
                object(vec![(
                    "command",
                    text("\"C:\\Apps\\CodexTray.exe\" --hook-event"),
                )]),
                object(vec![("command", text("notify.sh"))]),
            ]),
        ),
    ]);

    remove_all_codextray_hooks(&mut config);

    assert_eq!(config.get("model"), Some(&text("gpt-5")));
    assert_eq!(
        config.get("features"),
        Some(&object(vec![("hooks", JsonValue::Bool(true))]))
    );
    assert_eq!(
        config.get("Stop"),
        Some(&array(vec![object(vec![("command", text("notify.sh"))])]))
    );
}

#[test]
fn installing_a_built_command_again_changes_nothing() {
    let exe = "/opt/Codex Tray/codextray";
    let script = "/opt/Codex Tray/codextray-hook.ps1";
    let command = codextray_hook_command(script, exe, false);
    let user_hooks = || {
        object(vec![(
            "hooks",
            object(vec![("Stop", array(vec![object(vec![("hooks", array(vec![object(vec![
                ("type", text("command")),
                ("command", text("python other.py")),
            ])]))])]))]),
        )])
    };
    let mut once = user_hooks();
    install_codextray_hooks(&mut once, exe, &command);
    let mut twice = user_hooks();
    install_codextray_hooks(&mut twice, exe, &command);
    install_codextray_hooks(&mut twice, exe, &command);
    assert_eq!(twice, once);
    assert_eq!(commands_of_event(&once, "Stop").len(), 2);
}

#[test]
fn normalizing_twice_changes_nothing_unless_an_event_key_repeats() {
    let legacy = || {
        object(vec![
            ("model", text("gpt")),
            ("Stop", array(vec![object(vec![("command", text("a"))])])),
            ("SessionStart", array(vec![object(vec![("hooks", array(vec![]))])])),
            ("hooks", object(vec![("Stop", array(vec![object(vec![("hooks", array(vec![]))])]))])),
        ])
    };
    let mut once = legacy();
    normalize_hooks_config(&mut once);
    let mut twice = legacy();
    normalize_hooks_config(&mut twice);
    normalize_hooks_config(&mut twice);
    assert_eq!(twice, once);
    assert!(once.get("Stop").is_none());
    assert_eq!(once.get("hooks").and_then(|h| h.get("Stop")).and_then(|s| s.as_array()).map(|a| a.len()), Some(2));

    let repeated = || {
        object(vec![
            ("Stop", array(vec![object(vec![("command", text("a"))])])),
            ("Stop", array(vec![object(vec![("command", text("b"))])])),
        ])
    };
    let mut once = repeated();
    normalize_hooks_config(&mut once);
    let mut twice = repeated();
    normalize_hooks_config(&mut twice);
    normalize_hooks_config(&mut twice);
    assert_ne!(twice, once);
}
