//! The data the dashboard, the tray and the settings window show.
use vstd::prelude::*;

verus! {

/// Where a quota reading comes from.
#[derive(Debug, Clone, Copy, PartialEq, Eq, Structural)]
pub enum QuotaSourceKind {
    CodexCli,
    Cached,
}

/// The signed-in account as the Codex CLI reports it.
#[derive(Debug, Clone)]
pub struct AccountSnapshot {
    pub email: Option<String>,
    pub plan: Option<String>,
    pub status: String,
    pub updated_at: String,
}

/// One quota window ("Codex 5H", "Codex 7D") and how much of it is left.
#[derive(Debug, Clone)]
pub struct QuotaWindow {
    pub label: String,
    pub remaining_percent: u8,
    pub reset_at: Option<String>,
}

/// One credit that resets a rate limit early.
#[derive(Debug, Clone)]
pub struct RateLimitResetCredit {
    pub id: String,
    pub title: String,
    pub expires_at: Option<String>,
}

/// The rate-limit reset credits of the account.
#[derive(Debug, Clone)]
pub struct RateLimitResetCredits {
    pub available_count: u64,
    pub credits: Vec<RateLimitResetCredit>,
}

/// The quota windows read at one time.
#[derive(Debug, Clone)]
pub struct RateLimitSnapshot {
    pub source: QuotaSourceKind,
    pub windows: Vec<QuotaWindow>,
    pub reset_credits: Option<RateLimitResetCredits>,
    pub fetched_at: String,
    pub stale: bool,
}

/// A labelled figure of the dashboard.
#[derive(Debug, Clone)]
pub struct DashboardMetric {
    pub label: String,
    pub value: String,
}

/// One day of the activity heat map.
#[derive(Debug, Clone)]
pub struct HeatmapDay {
    pub date: String,
    pub daily_tokens: u64,
    pub weekly_tokens: u64,
    pub cumulative_tokens: u64,
    pub is_future: bool,
    pub hook_stats: Option<HookDayStats>,
}

/// What the Codex hooks recorded on one day.
#[derive(Debug, Clone, Copy, Default, PartialEq, Eq, Structural)]
pub struct HookDayStats {
    pub session_count: u64,
    pub prompt_count: u64,
    pub turn_count: u64,
    pub tool_call_count: u64,
    pub permission_request_count: u64,
    pub compact_count: u64,
    pub subagent_count: u64,
}

/// Where token activity comes from.
#[derive(Debug, Clone, Copy, PartialEq, Eq, Structural)]
pub enum TokenActivitySource {
    ProfileUsageApi,
    LocalJsonl,
}

/// Token activity over the account's lifetime.
#[derive(Debug, Clone)]
pub struct TokenActivitySnapshot {
    pub source: TokenActivitySource,
    pub lifetime_tokens: Option<u64>,
    pub peak_daily_tokens: Option<u64>,
    pub longest_running_turn_sec: Option<u64>,
    pub current_streak_days: Option<u64>,
    pub longest_streak_days: Option<u64>,
    pub daily_buckets: Vec<TokenActivityBucket>,
}

/// The tokens used on one day (`date` is `YYYY-MM-DD`).
#[derive(Debug, Clone)]
pub struct TokenActivityBucket {
    pub date: String,
    pub tokens: u64,
}

/// Everything the dashboard panel shows.
#[derive(Debug, Clone)]
pub struct DashboardSnapshot {
    pub account: AccountSnapshot,
    pub quota: Option<RateLimitSnapshot>,
    pub last_success_source: Option<QuotaSourceKind>,
    pub source_label: String,
    pub diagnostics: DiagnosticsSnapshot,
    pub metrics: Vec<DashboardMetric>,
    pub heatmap_days: Vec<HeatmapDay>,
    pub token_activity_source: Option<TokenActivitySource>,
}

/// The outcome of each step of a refresh.
#[derive(Debug, Clone)]
pub struct DiagnosticsSnapshot {
    pub cli_probe: DiagnosticItem,
    pub cli_app_server: DiagnosticItem,
    pub token_activity: DiagnosticItem,
}

/// The outcome of one step.
#[derive(Debug, Clone)]
pub struct DiagnosticItem {
    pub label: String,
    pub status: DiagnosticStatus,
    pub message: String,
}

/// How a step ended.
#[derive(Debug, Clone, Copy, PartialEq, Eq, Structural)]
pub enum DiagnosticStatus {
    Success,
    Warning,
    Error,
    Skipped,
}

impl DiagnosticItem {
    /// A step that succeeded.
    pub fn ok(label: &str, message: &str) -> (r: Self)
        ensures
            r.label@ == label@,
            r.status == DiagnosticStatus::Success,
            r.message@ == message@,
    {
        DiagnosticItem {
            label: String::from_str(label),
            status: DiagnosticStatus::Success,
            message: String::from_str(message),
        }
    }

    /// A step that failed.
    pub fn error(label: &str, message: &str) -> (r: Self)
        ensures
            r.label@ == label@,
            r.status == DiagnosticStatus::Error,
            r.message@ == message@,
    {
        DiagnosticItem {
            label: String::from_str(label),
            status: DiagnosticStatus::Error,
            message: String::from_str(message),
        }
    }

    /// A step that was not run.
    pub fn skipped(label: &str, message: &str) -> (r: Self)
        ensures
            r.label@ == label@,
            r.status == DiagnosticStatus::Skipped,
            r.message@ == message@,
    {
        DiagnosticItem {
            label: String::from_str(label),
            status: DiagnosticStatus::Skipped,
            message: String::from_str(message),
        }
    }

    /// A copy of the item.
    pub fn duplicate(&self) -> (r: Self)
        ensures
            r == *self,
    {
        DiagnosticItem { label: self.label.clone(), status: self.status, message: self.message.clone() }
    }
}

impl DiagnosticsSnapshot {
    /// A copy of the snapshot.
    pub fn duplicate(&self) -> (r: Self)
        ensures
            r == *self,
    {
        DiagnosticsSnapshot {
            cli_probe: self.cli_probe.duplicate(),
            cli_app_server: self.cli_app_server.duplicate(),
            token_activity: self.token_activity.duplicate(),
        }
    }
}

/// The result of one successful quota refresh.
#[derive(Debug, Clone)]
pub struct QuotaFetchResult {
    pub account: AccountSnapshot,
    pub quota: RateLimitSnapshot,
    pub token_activity: Option<TokenActivitySnapshot>,
}

/// The colour scheme of the panel.
#[derive(Debug, Clone, Copy, PartialEq, Eq, Structural)]
pub enum ThemeMode {
    Dark,
    Light,
}

/// The settings the user can change.
#[derive(Debug, Clone)]
pub struct AppSettings {
    pub theme: ThemeMode,
    pub global_shortcut: String,
    pub codex_cli_path: Option<String>,
    pub quota_widget_enabled: bool,
}

/// Whether the application starts with Windows.
#[derive(Debug, Clone)]
pub struct StartupStatus {
    pub enabled: bool,
    pub source: String,
    pub message: String,
}

/// Whether the Codex hooks of the application are installed and active.
#[derive(Debug, Clone)]
pub struct HookStatus {
    pub enabled: bool,
    pub source: String,
    pub message: String,
}

/// The outcome of the last update check.
#[derive(Debug, Clone)]
pub struct UpdateStatus {
    pub status: DiagnosticStatus,
    pub message: String,
    pub checked_at: String,
    pub available_version: Option<String>,
}

/// Facts about the running program.
#[derive(Debug, Clone)]
pub struct RuntimeInfo {
    pub app_version: String,
    pub cli_version: Option<String>,
    pub cli_path: Option<String>,
    pub run_source: String,
    pub install_path: String,
}

/// Everything the settings window shows.
#[derive(Debug, Clone)]
pub struct SettingsSnapshot {
    pub settings: AppSettings,
    pub startup: StartupStatus,
    pub hook: HookStatus,
    pub update: UpdateStatus,
    pub runtime: RuntimeInfo,
}

/// One line of the application log.
#[derive(Debug, Clone)]
pub struct LogEntry {
    pub timestamp: String,
    pub level: String,
    pub message: String,
}

impl AccountSnapshot {
    /// A copy of the account.
    pub fn duplicate(&self) -> (r: Self)
        ensures
            r == *self,
    {
        AccountSnapshot {
            email: self.email.clone(),
            plan: self.plan.clone(),
            status: self.status.clone(),
            updated_at: self.updated_at.clone(),
        }
    }
}

impl QuotaWindow {
    /// A copy of the window.
    pub fn duplicate(&self) -> (r: Self)
        ensures
            r == *self,
    {
        QuotaWindow {
            label: self.label.clone(),
            remaining_percent: self.remaining_percent,
            reset_at: self.reset_at.clone(),
        }
    }
}

impl RateLimitResetCredit {
    /// A copy of the credit.
    pub fn duplicate(&self) -> (r: Self)
        ensures
            r == *self,
    {
        RateLimitResetCredit {
            id: self.id.clone(),
            title: self.title.clone(),
            expires_at: self.expires_at.clone(),
        }
    }
}

impl RateLimitResetCredits {
    /// Whether two credit lists hold the same credits.
    pub open spec fn same_as(self, other: Self) -> bool {
        self.available_count == other.available_count && self.credits@ == other.credits@
    }

    /// A copy of the credits.
    pub fn duplicate(&self) -> (r: Self)
        ensures
            r.same_as(*self),
    {
        let mut credits: Vec<RateLimitResetCredit> = Vec::new();
        let mut i: usize = 0;
        while i < self.credits.len()
            invariant
                i <= self.credits.len(),
                credits@ == self.credits@.take(i as int),
            decreases self.credits.len() - i,
        {
            credits.push(self.credits[i].duplicate());
            i += 1;
            assert(credits@ =~= self.credits@.take(i as int));
        }
        assert(self.credits@.take(self.credits.len() as int) =~= self.credits@);
        RateLimitResetCredits { available_count: self.available_count, credits }
    }
}

/// Whether two optional credit lists hold the same credits.
pub open spec fn same_credits(a: Option<RateLimitResetCredits>, b: Option<RateLimitResetCredits>) -> bool {
    match (a, b) {
        (Some(x), Some(y)) => x.same_as(y),
        (None, None) => true,
        _ => false,
    }
}

impl RateLimitSnapshot {
    /// Whether two snapshots hold the same readings, the stale mark aside.
    pub open spec fn same_readings(self, other: Self) -> bool {
        &&& self.source == other.source
        &&& self.windows@ == other.windows@
        &&& same_credits(self.reset_credits, other.reset_credits)
        &&& self.fetched_at == other.fetched_at
    }

    /// A copy of the snapshot.
    pub fn duplicate(&self) -> (r: Self)
        ensures
            r.same_readings(*self),
            r.stale == self.stale,
    {
        let mut windows: Vec<QuotaWindow> = Vec::new();
        let mut i: usize = 0;
        while i < self.windows.len()
            invariant
                i <= self.windows.len(),
                windows@ == self.windows@.take(i as int),
            decreases self.windows.len() - i,
        {
            windows.push(self.windows[i].duplicate());
            i += 1;
            assert(windows@ =~= self.windows@.take(i as int));
        }
        assert(self.windows@.take(self.windows.len() as int) =~= self.windows@);
        let reset_credits = match &self.reset_credits {
            Some(c) => Some(c.duplicate()),
            None => None,
        };
        RateLimitSnapshot {
            source: self.source,
            windows,
            reset_credits,
            fetched_at: self.fetched_at.clone(),
            stale: self.stale,
        }
    }
}

impl TokenActivityBucket {
    /// A copy of the bucket.
    pub fn duplicate(&self) -> (r: Self)
        ensures
            r == *self,
    {
        TokenActivityBucket { date: self.date.clone(), tokens: self.tokens }
    }
}

impl TokenActivitySnapshot {
    /// Whether two snapshots hold the same activity.
    pub open spec fn same_as(self, other: Self) -> bool {
        &&& self.source == other.source
        &&& self.lifetime_tokens == other.lifetime_tokens
        &&& self.peak_daily_tokens == other.peak_daily_tokens
        &&& self.longest_running_turn_sec == other.longest_running_turn_sec
        &&& self.current_streak_days == other.current_streak_days
        &&& self.longest_streak_days == other.longest_streak_days
        &&& self.daily_buckets@ == other.daily_buckets@
    }

    /// A copy of the snapshot.
    pub fn duplicate(&self) -> (r: Self)
        ensures
            r.same_as(*self),
    {
        let mut buckets: Vec<TokenActivityBucket> = Vec::new();
        let mut i: usize = 0;
        while i < self.daily_buckets.len()
            invariant
                i <= self.daily_buckets.len(),
                buckets@ == self.daily_buckets@.take(i as int),
            decreases self.daily_buckets.len() - i,
        {
            buckets.push(self.daily_buckets[i].duplicate());
            i += 1;
            assert(buckets@ =~= self.daily_buckets@.take(i as int));
        }
        assert(self.daily_buckets@.take(self.daily_buckets.len() as int) =~= self.daily_buckets@);
        TokenActivitySnapshot {
            source: self.source,
            lifetime_tokens: self.lifetime_tokens,
            peak_daily_tokens: self.peak_daily_tokens,
            longest_running_turn_sec: self.longest_running_turn_sec,
            current_streak_days: self.current_streak_days,
            longest_streak_days: self.longest_streak_days,
            daily_buckets: buckets,
        }
    }
}

/// Whether two optional activity snapshots hold the same activity.
pub open spec fn same_activity(a: Option<TokenActivitySnapshot>, b: Option<TokenActivitySnapshot>) -> bool {
    match (a, b) {
        (Some(x), Some(y)) => x.same_as(y),
        (None, None) => true,
        _ => false,
    }
}

impl QuotaFetchResult {
    /// Whether two results hold the same readings.
    pub open spec fn same_as(self, other: Self) -> bool {
        &&& self.account == other.account
        &&& self.quota.same_readings(other.quota)
        &&& self.quota.stale == other.quota.stale
        &&& same_activity(self.token_activity, other.token_activity)
    }
}

} // verus!
