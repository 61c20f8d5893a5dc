//! The rules of the settings window: validating and saving settings, reading the Windows
//! run-at-startup value and the application log, and choosing the update channel.
use vstd::prelude::*;

use crate::json::{JsonData, JsonValue};
use crate::models::{AppSettings, DiagnosticStatus, LogEntry, StartupStatus, ThemeMode, UpdateStatus};
use crate::text::{
    chars_of, find_char, find_text, first_char_from, first_occurrence_from, is_ascii_alpha,
    lemma_first_char_from, lower_seq, lower_text, seq_starts_with, string_of_range, strip_char,
    strip_char_text, text_eq, text_starts_with, trim, trim_text,
};

verus! {

/// Where the updater looks for releases, and the key their signatures are checked with.
#[derive(Debug, Clone)]
pub struct UpdateChannelConfig {
    pub endpoint: String,
    pub pubkey: String,
}

/// The settings of a fresh installation.
pub fn default_settings() -> (r: AppSettings)
    ensures
        r.theme == ThemeMode::Light,
        r.global_shortcut@ == "Ctrl+Shift+C"@,
        r.codex_cli_path is None,
        !r.quota_widget_enabled,
{
    AppSettings {
        theme: ThemeMode::Light,
        global_shortcut: String::from_str("Ctrl+Shift+C"),
        codex_cli_path: None,
        quota_widget_enabled: false,
    }
}

/// The part of `s` between `from` and `to`, trimmed and in ASCII lower case.
pub open spec fn shortcut_part(s: Seq<char>, from: int, to: int) -> Seq<char> {
    lower_seq(trim(s.subrange(from, to)))
}

/// Whether a shortcut has the form `Ctrl+Shift+<letter>`: exactly three `+`-separated parts,
/// each read trimmed and case-insensitively, the last one a single ASCII letter.
pub open spec fn supported_shortcut(s: Seq<char>) -> bool {
    let a = first_char_from(s, '+', 0);
    let b = first_char_from(s, '+', a + 1);
    let c = first_char_from(s, '+', b + 1);
    &&& a < s.len()
    &&& b < s.len()
    &&& c == s.len()
    &&& shortcut_part(s, 0, a) == "ctrl"@
    &&& shortcut_part(s, a + 1, b) == "shift"@
    &&& shortcut_part(s, b + 1, s.len() as int).len() == 1
    &&& is_ascii_alpha(shortcut_part(s, b + 1, s.len() as int)[0])
}

/// The part of `v` between `from` and `to`, trimmed and in ASCII lower case.
fn shortcut_part_text(v: &Vec<char>, from: usize, to: usize) -> (r: String)
    requires
        from <= to <= v.len(),
    ensures
        r@ == shortcut_part(v@, from as int, to as int),
{
    let raw = string_of_range(v, from, to);
    let t = trim_text(raw.as_str());
    lower_text(t.as_str())
}

/// Whether the global shortcut can be registered: `Ctrl+Shift+<letter>`.
pub fn is_supported_shortcut(shortcut: &str) -> (r: bool)
    ensures
        r == supported_shortcut(shortcut@),
{
    let v = chars_of(shortcut);
    let n = v.len();
    let a = find_char(&v, '+', 0);
    if a >= n {
        return false;
    }
    let b = find_char(&v, '+', a + 1);
    if b >= n {
        return false;
    }
    let c = find_char(&v, '+', b + 1);
    if c < n {
        return false;
    }
    proof {
        lemma_first_char_from(v@, '+', 0);
        lemma_first_char_from(v@, '+', a + 1);
        lemma_first_char_from(v@, '+', b + 1);
    }
    let p0 = shortcut_part_text(&v, 0, a);
    let p1 = shortcut_part_text(&v, a + 1, b);
    let p2 = shortcut_part_text(&v, b + 1, n);
    if !text_eq(p0.as_str(), "ctrl") || !text_eq(p1.as_str(), "shift") {
        return false;
    }
    if p2.unicode_len() != 1 {
        return false;
    }
    let k = p2.get_char(0);
    ('a' <= k && k <= 'z') || ('A' <= k && k <= 'Z')
}

/// The message given when a shortcut of another form is chosen.
pub open spec fn unsupported_shortcut_message() -> Seq<char> {
    "当前仅支持 Ctrl+Shift+字母 格式"@
}

/// The settings with the global shortcut set to `shortcut` (trimmed), or the reason it is
/// refused.
pub fn save_global_shortcut(settings: AppSettings, shortcut: &str) -> (r: Result<AppSettings, String>)
    ensures
        supported_shortcut(trim(shortcut@)) ==> (r matches Ok(s) && s.global_shortcut@ == trim(
            shortcut@,
        ) && s.theme == settings.theme && s.codex_cli_path == settings.codex_cli_path
            && s.quota_widget_enabled == settings.quota_widget_enabled),
        !supported_shortcut(trim(shortcut@)) ==> (r matches Err(e) && e@
            == unsupported_shortcut_message()),
{
    let normalized = trim_text(shortcut);
    if !is_supported_shortcut(normalized.as_str()) {
        return Err(String::from_str("当前仅支持 Ctrl+Shift+字母 格式"));
    }
    let mut settings = settings;
    settings.global_shortcut = normalized;
    Ok(settings)
}

/// The settings without a configured Codex CLI path.
pub fn clear_codex_cli_path(settings: AppSettings) -> (r: AppSettings)
    ensures
        r.codex_cli_path is None,
        r.theme == settings.theme,
        r.global_shortcut == settings.global_shortcut,
        r.quota_widget_enabled == settings.quota_widget_enabled,
{
    let mut settings = settings;
    settings.codex_cli_path = None;
    settings
}

/// The text as a path, or none when it is empty.
pub fn non_empty_path(value: &str) -> (r: Option<String>)
    ensures
        value@.len() == 0 ==> r is None,
        value@.len() > 0 ==> (r matches Some(p) && p@ == value@),
{
    if value.unicode_len() == 0 {
        None
    } else {
        Some(String::from_str(value))
    }
}

/// The Codex CLI path configured in the settings, trimmed; none when it is missing or blank.
pub fn configured_codex_cli_path(settings: &AppSettings) -> (r: Option<String>)
    ensures
        match settings.codex_cli_path {
            Some(p) => if trim(p@).len() > 0 {
                (r matches Some(q) && q@ == trim(p@))
            } else {
                r is None
            },
            None => r is None,
        },
{
    match &settings.codex_cli_path {
        Some(p) => {
            let t = trim_text(p.as_str());
            non_empty_path(t.as_str())
        },
        None => None,
    }
}

/// The message given when an empty Codex CLI path is chosen.
pub open spec fn empty_cli_path_message() -> Seq<char> {
    "Codex CLI 路径不能为空"@
}

/// A chosen Codex CLI path, trimmed and without surrounding double quotes; refused when
/// nothing is left.
pub fn normalize_cli_path_input(path: &str) -> (r: Result<String, String>)
    ensures
        strip_char(trim(path@), '"').len() > 0 ==> (r matches Ok(p) && p@ == strip_char(
            trim(path@),
            '"',
        )),
        strip_char(trim(path@), '"').len() == 0 ==> (r matches Err(e) && e@
            == empty_cli_path_message()),
{
    let t = trim_text(path);
    let normalized = strip_char_text(t.as_str(), '"');
    if normalized.unicode_len() == 0 {
        return Err(String::from_str("Codex CLI 路径不能为空"));
    }
    Ok(normalized)
}

/// The value of a line of `reg query` output that names the application's run value: the
/// text after `REG_SZ`, trimmed.
pub open spec fn reg_line_value(line: Seq<char>) -> Option<Seq<char>> {
    let t = trim(line);
    if !seq_starts_with(t, "CodexTray"@) {
        None
    } else {
        let k = first_occurrence_from(t, "REG_SZ"@, 0);
        if k < 0 {
            None
        } else {
            Some(trim(t.subrange(k + "REG_SZ"@.len(), t.len() as int)))
        }
    }
}

/// The value of the first line of `s`, starting at `start`, that names the run value.
pub open spec fn reg_value_from(s: Seq<char>, start: int) -> Option<Seq<char>>
    decreases s.len() + 1 - start,
{
    if start < 0 || start > s.len() {
        None
    } else {
        let e = first_char_from(s, '\n', start);
        proof {
            lemma_first_char_from(s, '\n', start);
        }
        match reg_line_value(s.subrange(start, e)) {
            Some(v) => Some(v),
            None => if e >= s.len() {
                None
            } else {
                reg_value_from(s, e + 1)
            },
        }
    }
}

/// The value of one line, if it names the run value.
fn reg_line_value_exec(line: &str) -> (r: Option<String>)
    ensures
        match r {
            Some(v) => reg_line_value(line@) == Some(v@),
            None => reg_line_value(line@) is None,
        },
{
    let t = trim_text(line);
    if !text_starts_with(t.as_str(), "CodexTray") {
        return None;
    }
    let tv = chars_of(t.as_str());
    let needle = chars_of("REG_SZ");
    match find_text(&tv, &needle, 0) {
        Some(k) => {
            let rest = string_of_range(&tv, k + needle.len(), tv.len());
            Some(trim_text(rest.as_str()))
        },
        None => None,
    }
}

/// The command line stored in the application's run value, read from `reg query` output.
pub fn parse_reg_query_value(output: &str) -> (r: Option<String>)
    ensures
        match r {
            Some(v) => reg_value_from(output@, 0) == Some(v@),
            None => reg_value_from(output@, 0) is None,
        },
{
    let v = chars_of(output);
    let mut start: usize = 0;
    while start <= v.len()
        invariant
            start <= v.len() + 1,
            v@ == output@,
            reg_value_from(output@, 0) == reg_value_from(output@, start as int),
        decreases v.len() + 1 - start,
    {
        let e = find_char(&v, '\n', start);
        proof {
            lemma_first_char_from(v@, '\n', start as int);
        }
        let line = string_of_range(&v, start, e);
        match reg_line_value_exec(line.as_str()) {
            Some(value) => {
                return Some(value);
            },
            None => {},
        }
        if e >= v.len() {
            return None;
        }
        start = e + 1;
    }
    None
}

/// The three tab-separated fields of a log line (timestamp, level, message); the message may
/// itself hold tabs.
pub open spec fn log_line_fields(s: Seq<char>) -> Option<(Seq<char>, Seq<char>, Seq<char>)> {
    let a = first_char_from(s, '\t', 0);
    let b = first_char_from(s, '\t', a + 1);
    if a < s.len() && b < s.len() {
        Some((s.subrange(0, a), s.subrange(a + 1, b), s.subrange(b + 1, s.len() as int)))
    } else {
        None
    }
}

proof fn lemma_first_char_bound(s: Seq<char>, c: char, from: int, k: int)
    requires
        0 <= from <= k < s.len(),
        s[k] == c,
    ensures
        first_char_from(s, c, from) <= k,
        (forall|j: int| from <= j < k ==> s[j] != c) ==> first_char_from(s, c, from) == k,
    decreases k - from,
{
    if s[from] != c {
        lemma_first_char_bound(s, c, from + 1, k);
    }
}

/// A log line written as timestamp, tab, level, tab, message reads back as those three fields
/// when the timestamp and the level hold no tab (the message may hold any characters); and a
/// line reads as an entry exactly when it holds at least two tabs.
pub proof fn lemma_log_line_round_trip(ts: Seq<char>, level: Seq<char>, msg: Seq<char>, line: Seq<char>)
    requires
        !ts.contains('\t'),
        !level.contains('\t'),
    ensures
        log_line_fields(ts + "\t"@ + level + "\t"@ + msg) == Some((ts, level, msg)),
        log_line_fields(line) is Some <==> exists|i: int, j: int|
            0 <= i < j < line.len() && line[i] == '\t' && line[j] == '\t',
{
    reveal_strlit("\t");
    let s = ts + "\t"@ + level + "\t"@ + msg;
    let a = ts.len() as int;
    let b = a + 1 + level.len();
    assert(s[a] == '\t');
    assert(s[b] == '\t');
    assert forall|j: int| 0 <= j < a implies s[j] != '\t' by {
        assert(s[j] == ts[j]);
    }
    assert forall|j: int| a + 1 <= j < b implies s[j] != '\t' by {
        assert(s[j] == level[j - a - 1]);
    }
    lemma_first_char_bound(s, '\t', 0, a);
    lemma_first_char_bound(s, '\t', a + 1, b);
    assert(s.subrange(0, a) =~= ts);
    assert(s.subrange(a + 1, b) =~= level);
    assert(s.subrange(b + 1, s.len() as int) =~= msg);
    let fa = first_char_from(line, '\t', 0);
    lemma_first_char_from(line, '\t', 0);
    if fa < line.len() {
        let fb = first_char_from(line, '\t', fa + 1);
        lemma_first_char_from(line, '\t', fa + 1);
        if exists|i: int, j: int| 0 <= i < j < line.len() && line[i] == '\t' && line[j] == '\t' {
            let (i, j) = choose|i: int, j: int|
                0 <= i < j < line.len() && line[i] == '\t' && line[j] == '\t';
            lemma_first_char_bound(line, '\t', 0, i);
            lemma_first_char_bound(line, '\t', fa + 1, j);
        }
        if fb < line.len() {
            assert(line[fa] == '\t' && line[fb] == '\t');
        }
    } else {
        if exists|i: int, j: int| 0 <= i < j < line.len() && line[i] == '\t' && line[j] == '\t' {
            let (i, j) = choose|i: int, j: int|
                0 <= i < j < line.len() && line[i] == '\t' && line[j] == '\t';
            lemma_first_char_bound(line, '\t', 0, i);
        }
    }
}

/// One entry of the application log, or none when the line has fewer than three fields.
pub fn parse_log_line(line: &str) -> (r: Option<LogEntry>)
    ensures
        match r {
            Some(e) => log_line_fields(line@) == Some((e.timestamp@, e.level@, e.message@)),
            None => log_line_fields(line@) is None,
        },
{
    let v = chars_of(line);
    let n = v.len();
    let a = find_char(&v, '\t', 0);
    if a >= n {
        return None;
    }
    proof {
        lemma_first_char_from(v@, '\t', 0);
        lemma_first_char_from(v@, '\t', a + 1);
    }
    let b = find_char(&v, '\t', a + 1);
    if b >= n {
        return None;
    }
    Some(
        LogEntry {
            timestamp: string_of_range(&v, 0, a),
            level: string_of_range(&v, a + 1, b),
            message: string_of_range(&v, b + 1, n),
        },
    )
}

/// Whether the run value starts the executable `exe`: the value without surrounding double
/// quotes equals the path, ignoring ASCII case.
pub open spec fn startup_value_matches(value: Seq<char>, exe: Option<Seq<char>>) -> bool {
    match exe {
        Some(p) => lower_seq(strip_char(value, '"')) == lower_seq(p),
        None => false,
    }
}

/// Whether the run value starts the executable `exe` (none when its path is unknown).
pub fn startup_value_matches_current_exe(value: &str, exe: Option<&str>) -> (r: bool)
    ensures
        r == startup_value_matches(value@, match exe { Some(p) => Some(p@), None => None }),
{
    match exe {
        Some(p) => {
            let a = strip_char_text(value, '"');
            let la = lower_text(a.as_str());
            let lb = lower_text(p);
            text_eq(la.as_str(), lb.as_str())
        },
        None => false,
    }
}

/// The message shown where starting with the system is not supported.
pub open spec fn startup_unsupported_message() -> Seq<char> {
    "当前平台暂不支持开机启动"@
}

/// What the settings window shows about starting with Windows, from the platform, the result
/// of querying the run value, and the path of the running executable.
pub fn get_startup_status(windows: bool, query: Result<Option<String>, String>, exe: Option<&str>) -> (r:
    StartupStatus)
    ensures
        !windows ==> !r.enabled && r.source@ == "unsupported"@ && r.message@
            == startup_unsupported_message(),
        windows ==> r.source@ == "HKCU Run"@,
        windows ==> match query {
            Ok(Some(v)) => r.enabled == startup_value_matches(
                v@,
                match exe { Some(p) => Some(p@), None => None },
            ) && r.message@ == v@,
            Ok(None) => !r.enabled && r.message@ == "未启用"@,
            Err(e) => !r.enabled && r.message@ == e@,
        },
{
    if !windows {
        return StartupStatus {
            enabled: false,
            source: String::from_str("unsupported"),
            message: String::from_str("当前平台暂不支持开机启动"),
        };
    }
    match query {
        Ok(Some(value)) => {
            let enabled = startup_value_matches_current_exe(value.as_str(), exe);
            StartupStatus { enabled, source: String::from_str("HKCU Run"), message: value }
        },
        Ok(None) => StartupStatus {
            enabled: false,
            source: String::from_str("HKCU Run"),
            message: String::from_str("未启用"),
        },
        Err(error) => StartupStatus {
            enabled: false,
            source: String::from_str("HKCU Run"),
            message: error,
        },
    }
}

/// The log line and result of switching start-with-Windows on or off.
pub struct StartupToggleReport {
    pub level: String,
    pub message: String,
    pub error: Option<String>,
}

/// What switching start-with-Windows logs, and the error it returns, given how the registry
/// command ended.
pub fn startup_toggle_report(enabled: bool, outcome: Result<(), String>) -> (r: StartupToggleReport)
    ensures
        match outcome {
            Ok(()) => r.level@ == "INFO"@ && r.error is None && r.message@ == (if enabled {
                "开机启动已启用"@
            } else {
                "开机启动已关闭"@
            }),
            Err(e) => r.level@ == "ERROR"@ && r.message@ == "开机启动切换失败："@ + e@ && (r.error
                matches Some(x) && x@ == e@),
        },
{
    match outcome {
        Ok(()) => StartupToggleReport {
            level: String::from_str("INFO"),
            message: if enabled {
                String::from_str("开机启动已启用")
            } else {
                String::from_str("开机启动已关闭")
            },
            error: None,
        },
        Err(error) => {
            let message = String::from_str("开机启动切换失败：").concat(error.as_str());
            StartupToggleReport { level: String::from_str("ERROR"), message, error: Some(error) }
        },
    }
}

/// The result of a registry command from its exit status and its error output.
pub fn command_result(success: bool, stderr: &str) -> (r: Result<(), String>)
    ensures
        success ==> r is Ok,
        !success && trim(stderr@).len() > 0 ==> (r matches Err(e) && e@ == trim(stderr@)),
        !success && trim(stderr@).len() == 0 ==> (r matches Err(e) && e@ == "注册表命令执行失败"@),
{
    if success {
        return Ok(());
    }
    let message = trim_text(stderr);
    if message.unicode_len() == 0 {
        Err(String::from_str("注册表命令执行失败"))
    } else {
        Err(message)
    }
}

/// The trimmed value of an update setting, or none when it is missing or blank.
pub open spec fn update_value(raw: Option<Seq<char>>) -> Option<Seq<char>> {
    match raw {
        Some(v) => if trim(v).len() > 0 {
            Some(trim(v))
        } else {
            None
        },
        None => None,
    }
}

/// The trimmed value of an update setting from the environment.
pub fn env_update_value(raw: Option<&str>) -> (r: Option<String>)
    ensures
        match r {
            Some(v) => update_value(match raw { Some(s) => Some(s@), None => None }) == Some(v@),
            None => update_value(match raw { Some(s) => Some(s@), None => None }) is None,
        },
{
    match raw {
        Some(s) => {
            let t = trim_text(s);
            if t.unicode_len() == 0 {
                None
            } else {
                Some(t)
            }
        },
        None => None,
    }
}

/// The first update endpoint of the updater plugin's configuration, trimmed.
pub open spec fn config_endpoint(value: JsonData) -> Option<Seq<char>> {
    match value.field_items("endpoints"@) {
        Some(items) => if items.len() > 0 {
            update_value(items[0].text())
        } else {
            None
        },
        None => None,
    }
}

/// The signing key of the updater plugin's configuration, trimmed.
pub open spec fn config_pubkey(value: JsonData) -> Option<Seq<char>> {
    update_value(value.field_text("pubkey"@))
}

/// The first update endpoint configured for the updater plugin.
pub fn updater_config_endpoint_from_value(value: &JsonValue) -> (r: Option<String>)
    ensures
        match r {
            Some(v) => config_endpoint(value@) == Some(v@),
            None => config_endpoint(value@) is None,
        },
{
    broadcast use crate::json::group_json_views;

    match value.get("endpoints") {
        Some(e) => match e.as_array() {
            Some(items) => {
                if items.len() == 0 {
                    return None;
                }
                env_update_value(items[0].as_str())
            },
            None => None,
        },
        None => None,
    }
}

/// The signing key configured for the updater plugin.
pub fn updater_config_pubkey_from_value(value: &JsonValue) -> (r: Option<String>)
    ensures
        match r {
            Some(v) => config_pubkey(value@) == Some(v@),
            None => config_pubkey(value@) is None,
        },
{
    env_update_value(value.field_str("pubkey"))
}

/// The message given when no update endpoint is configured.
pub open spec fn missing_endpoint_message() -> Seq<char> {
    "未配置更新端点：CODEXTRAY_UPDATE_ENDPOINT"@
}

/// The message given when no signing key is configured.
pub open spec fn missing_pubkey_message() -> Seq<char> {
    "未配置更新签名公钥：CODEXTRAY_UPDATE_PUBKEY"@
}

/// The update channel: endpoint and key from the environment where set, else from the
/// updater plugin's configuration; refused while either is missing.
pub fn update_channel_config(
    env_endpoint: Option<&str>,
    env_pubkey: Option<&str>,
    updater: Option<&JsonValue>,
) -> (r: Result<UpdateChannelConfig, String>)
    ensures
        ({
            let endpoint = match update_value(match env_endpoint { Some(s) => Some(s@), None => None }) {
                Some(v) => Some(v),
                None => match updater {
                    Some(u) => config_endpoint(u@),
                    None => None,
                },
            };
            let pubkey = match update_value(match env_pubkey { Some(s) => Some(s@), None => None }) {
                Some(v) => Some(v),
                None => match updater {
                    Some(u) => config_pubkey(u@),
                    None => None,
                },
            };
            &&& endpoint is None ==> (r matches Err(e) && e@ == missing_endpoint_message())
            &&& endpoint is Some && pubkey is None ==> (r matches Err(e) && e@
                == missing_pubkey_message())
            &&& endpoint is Some && pubkey is Some ==> (r matches Ok(c) && c.endpoint@
                == endpoint->0 && c.pubkey@ == pubkey->0)
        }),
{
    let endpoint = match env_update_value(env_endpoint) {
        Some(v) => Some(v),
        None => match updater {
            Some(u) => updater_config_endpoint_from_value(u),
            None => None,
        },
    };
    let pubkey = match env_update_value(env_pubkey) {
        Some(v) => Some(v),
        None => match updater {
            Some(u) => updater_config_pubkey_from_value(u),
            None => None,
        },
    };
    match endpoint {
        None => Err(String::from_str("未配置更新端点：CODEXTRAY_UPDATE_ENDPOINT")),
        Some(endpoint) => match pubkey {
            None => Err(String::from_str("未配置更新签名公钥：CODEXTRAY_UPDATE_PUBKEY")),
            Some(pubkey) => Ok(UpdateChannelConfig { endpoint, pubkey }),
        },
    }
}

/// The message shown while no update channel is configured.
pub fn update_channel_unconfigured_message() -> (r: String)
    ensures
        r@ == "未启用自动更新通道"@,
{
    String::from_str("未启用自动更新通道")
}

/// An update status checked at `checked_at`, with no new version.
pub fn update_status(status: DiagnosticStatus, message: &str, checked_at: String) -> (r:
    UpdateStatus)
    ensures
        r.status == status,
        r.message@ == message@,
        r.checked_at == checked_at,
        r.available_version is None,
{
    update_status_with_version(status, message, None, checked_at)
}

/// An update status checked at `checked_at`.
pub fn update_status_with_version(
    status: DiagnosticStatus,
    message: &str,
    available_version: Option<String>,
    checked_at: String,
) -> (r: UpdateStatus)
    ensures
        r.status == status,
        r.message@ == message@,
        r.checked_at == checked_at,
        r.available_version == available_version,
{
    UpdateStatus { status, message: String::from_str(message), checked_at, available_version }
}

/// How a check of the update channel ended.
pub enum UpdateCheckOutcome {
    /// A newer version is offered.
    Available(String),
    /// The running version is the newest.
    UpToDate,
    /// The check failed, with the error's description.
    Failed(String),
}

/// How installing an update ended.
pub enum UpdateInstallOutcome {
    /// The version was downloaded and installed.
    Installed(String),
    /// Downloading or installing the offered version failed, with the error's description.
    InstallFailed(String),
    /// The running version is the newest.
    UpToDate,
    /// The check before installing failed, with the error's description.
    CheckFailed(String),
}

/// The log level and the update status of a finished update check, checked at `checked_at`;
/// the status message is also what is logged.
pub fn update_check_report(outcome: UpdateCheckOutcome, checked_at: String) -> (r: (String, UpdateStatus))
    ensures
        r.1.checked_at == checked_at,
        match outcome {
            UpdateCheckOutcome::Available(v) => {
                &&& r.0@ == "INFO"@
                &&& r.1.status == DiagnosticStatus::Warning
                &&& r.1.message@ == "发现新版本："@ + v@ + "，请确认后安装"@
                &&& r.1.available_version == Some(v)
            },
            UpdateCheckOutcome::UpToDate => {
                &&& r.0@ == "INFO"@
                &&& r.1.status == DiagnosticStatus::Success
                &&& r.1.message@ == "当前已是最新版本"@
                &&& r.1.available_version is None
            },
            UpdateCheckOutcome::Failed(e) => {
                &&& r.0@ == "ERROR"@
                &&& r.1.status == DiagnosticStatus::Error
                &&& r.1.message@ == "更新检查失败："@ + e@
                &&& r.1.available_version is None
            },
        },
{
    match outcome {
        UpdateCheckOutcome::Available(v) => {
            let m = String::from_str("发现新版本：").concat(v.as_str()).concat("，请确认后安装");
            (String::from_str("INFO"), update_status_with_version(DiagnosticStatus::Warning, m.as_str(), Some(v), checked_at))
        },
        UpdateCheckOutcome::UpToDate => {
            (String::from_str("INFO"), update_status(DiagnosticStatus::Success, "当前已是最新版本", checked_at))
        },
        UpdateCheckOutcome::Failed(e) => {
            let m = String::from_str("更新检查失败：").concat(e.as_str());
            (String::from_str("ERROR"), update_status(DiagnosticStatus::Error, m.as_str(), checked_at))
        },
    }
}

/// The log level and the update status of a finished installation, checked at `checked_at`;
/// the status message is also what is logged.
pub fn update_install_report(outcome: UpdateInstallOutcome, checked_at: String) -> (r: (
    String,
    UpdateStatus,
))
    ensures
        r.1.checked_at == checked_at,
        r.1.available_version is None,
        match outcome {
            UpdateInstallOutcome::Installed(v) => {
                &&& r.0@ == "INFO"@
                &&& r.1.status == DiagnosticStatus::Success
                &&& r.1.message@ == "新版本 "@ + v@ + " 已安装，重启后生效"@
            },
            UpdateInstallOutcome::InstallFailed(e) => {
                &&& r.0@ == "ERROR"@
                &&& r.1.status == DiagnosticStatus::Error
                &&& r.1.message@ == "更新安装失败："@ + e@
            },
            UpdateInstallOutcome::UpToDate => {
                &&& r.0@ == "INFO"@
                &&& r.1.status == DiagnosticStatus::Success
                &&& r.1.message@ == "当前已是最新版本"@
            },
            UpdateInstallOutcome::CheckFailed(e) => {
                &&& r.0@ == "ERROR"@
                &&& r.1.status == DiagnosticStatus::Error
                &&& r.1.message@ == "更新检查失败："@ + e@
            },
        },
{
    match outcome {
        UpdateInstallOutcome::Installed(v) => {
            let m = String::from_str("新版本 ").concat(v.as_str()).concat(" 已安装，重启后生效");
            (String::from_str("INFO"), update_status(DiagnosticStatus::Success, m.as_str(), checked_at))
        },
        UpdateInstallOutcome::InstallFailed(e) => {
            let m = String::from_str("更新安装失败：").concat(e.as_str());
            (String::from_str("ERROR"), update_status(DiagnosticStatus::Error, m.as_str(), checked_at))
        },
        UpdateInstallOutcome::UpToDate => {
            (String::from_str("INFO"), update_status(DiagnosticStatus::Success, "当前已是最新版本", checked_at))
        },
        UpdateInstallOutcome::CheckFailed(e) => {
            let m = String::from_str("更新检查失败：").concat(e.as_str());
            (String::from_str("ERROR"), update_status(DiagnosticStatus::Error, m.as_str(), checked_at))
        },
    }
}

/// The update status shown before the first check, depending on whether a channel is
/// configured.
pub fn initial_update_status(channel_configured: bool, checked_at: String) -> (r: UpdateStatus)
    ensures
        r.status == DiagnosticStatus::Skipped,
        r.checked_at == checked_at,
        r.available_version is None,
        channel_configured ==> r.message@ == "更新通道已配置，等待检查"@,
        !channel_configured ==> r.message@ == "未启用自动更新通道"@,
{
    if channel_configured {
        update_status(DiagnosticStatus::Skipped, "更新通道已配置，等待检查", checked_at)
    } else {
        let m = update_channel_unconfigured_message();
        update_status(DiagnosticStatus::Skipped, m.as_str(), checked_at)
    }
}

/// Whether the Codex configuration turns hooks off (`[features] hooks = false` or
/// `codex_hooks = false`).
pub open spec fn hooks_disabled_in(response: JsonData) -> bool {
    match response.field_or_self("result"@).field("config"@) {
        Some(config) => match config.field("features"@) {
            Some(features) => features.field_bool("hooks"@) == Some(false) || features.field_bool(
                "codex_hooks"@,
            ) == Some(false),
            None => false,
        },
        None => false,
    }
}

/// Whether the Codex configuration read through the app-server turns hooks off.
pub fn codex_hooks_globally_disabled(response: &JsonValue) -> (r: bool)
    ensures
        r == hooks_disabled_in(response@),
{
    let base = match response.get("result") {
        Some(b) => b,
        None => response,
    };
    match base.get("config") {
        Some(config) => match config.get("features") {
            Some(features) => {
                let hooks = match features.get("hooks") {
                    Some(h) => h.as_bool(),
                    None => None,
                };
                let codex_hooks = match features.get("codex_hooks") {
                    Some(h) => h.as_bool(),
                    None => None,
                };
                hooks == Some(false) || codex_hooks == Some(false)
            },
            None => false,
        },
        None => false,
    }
}

} // verus!
