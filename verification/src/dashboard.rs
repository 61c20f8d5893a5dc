//! The dashboard state: the last successful quota reading and token activity, how a refresh
//! updates them, and the snapshot the panel shows.
use vstd::prelude::*;

use crate::models::{
    same_activity, AccountSnapshot, DashboardMetric, DashboardSnapshot, DiagnosticItem,
    DiagnosticStatus, DiagnosticsSnapshot, HookDayStats, QuotaFetchResult, QuotaSourceKind,
    RateLimitSnapshot, TokenActivitySnapshot, TokenActivitySource,
};
use crate::text::{decimal_text, u64_text};
use crate::token_usage::{
    activity_buckets, build_heatmap_days, buckets_of, heatmap_computable, heatmap_for_today,
};

verus! {

/// What the dashboard remembers between refreshes.
pub struct DashboardState {
    pub last_success: Option<QuotaFetchResult>,
    pub last_token_activity: Option<TokenActivitySnapshot>,
}

/// Whether the step `i` has the label, status and message given.
pub open spec fn item_is(
    i: DiagnosticItem,
    label: Seq<char>,
    status: DiagnosticStatus,
    message: Seq<char>,
) -> bool {
    i.label@ == label && i.status == status && i.message@ == message
}

/// The diagnostics at the start of a refresh: every step skipped, still being diagnosed.
pub open spec fn is_pending(d: DiagnosticsSnapshot) -> bool {
    &&& item_is(d.cli_probe, "CLI 探测"@, DiagnosticStatus::Skipped, "正在诊断"@)
    &&& item_is(d.cli_app_server, "CLI app-server"@, DiagnosticStatus::Skipped, "正在诊断"@)
    &&& item_is(d.token_activity, "Token 活动"@, DiagnosticStatus::Skipped, "正在诊断"@)
}

/// Whether a step failed.
pub open spec fn is_error(item: DiagnosticItem) -> bool {
    item.status == DiagnosticStatus::Error
}

/// Whether probing the CLI or reading from its app-server failed.
pub open spec fn has_error(d: DiagnosticsSnapshot) -> bool {
    is_error(d.cli_probe) || is_error(d.cli_app_server)
}

/// Whether probing the CLI or reading from its app-server failed.
pub fn diagnostics_has_error(diagnostics: &DiagnosticsSnapshot) -> (r: bool)
    ensures
        r == has_error(*diagnostics),
{
    diagnostics.cli_probe.status == DiagnosticStatus::Error || diagnostics.cli_app_server.status
        == DiagnosticStatus::Error
}

/// A refresh counts as failed exactly when its CLI probe step or its app-server step ended in
/// an error.
pub proof fn lemma_has_error_is_a_failed_step(d: DiagnosticsSnapshot)
    ensures
        has_error(d) <==> (d.cli_probe.status == DiagnosticStatus::Error
            || d.cli_app_server.status == DiagnosticStatus::Error),
{
}

/// Where the quota shown comes from: the last reading's source, or the cache when this refresh
/// failed; none without a reading.
pub open spec fn quota_source_spec(quota: Option<RateLimitSnapshot>, d: DiagnosticsSnapshot) -> Option<
    QuotaSourceKind,
> {
    match quota {
        None => None,
        Some(q) => if has_error(d) {
            Some(QuotaSourceKind::Cached)
        } else {
            Some(q.source)
        },
    }
}

/// Where the quota shown comes from.
pub fn quota_source(quota: Option<&RateLimitSnapshot>, diagnostics: &DiagnosticsSnapshot) -> (r:
    Option<QuotaSourceKind>)
    ensures
        r == quota_source_spec(
            match quota {
                Some(q) => Some(*q),
                None => None,
            },
            *diagnostics,
        ),
{
    match quota {
        None => None,
        Some(q) => {
            if diagnostics_has_error(diagnostics) {
                Some(QuotaSourceKind::Cached)
            } else {
                Some(q.source)
            }
        },
    }
}

/// The label of a quota source.
pub open spec fn source_label_text(source: Option<QuotaSourceKind>) -> Seq<char> {
    match source {
        Some(QuotaSourceKind::CodexCli) => "Codex CLI"@,
        Some(QuotaSourceKind::Cached) => "上次成功数据"@,
        None => "暂无可用来源"@,
    }
}

/// The label of a quota source.
pub fn source_label(source: Option<QuotaSourceKind>) -> (r: String)
    ensures
        r@ == source_label_text(source),
{
    match source {
        Some(QuotaSourceKind::CodexCli) => String::from_str("Codex CLI"),
        Some(QuotaSourceKind::Cached) => String::from_str("上次成功数据"),
        None => String::from_str("暂无可用来源"),
    }
}

/// The account shown before any reading succeeded.
pub fn disconnected_account() -> (r: AccountSnapshot)
    ensures
        r.email is None,
        r.plan is None,
        r.status@ == "未连接"@,
        r.updated_at@ == Seq::<char>::empty(),
{
    AccountSnapshot {
        email: None,
        plan: None,
        status: String::from_str("未连接"),
        updated_at: String::new(),
    }
}

/// The diagnostics at the start of a refresh: every step still being diagnosed.
pub fn empty_diagnostics() -> (r: DiagnosticsSnapshot)
    ensures
        is_pending(r),
        !has_error(r),
{
    DiagnosticsSnapshot {
        cli_probe: DiagnosticItem::skipped("CLI 探测", "正在诊断"),
        cli_app_server: DiagnosticItem::skipped("CLI app-server", "正在诊断"),
        token_activity: DiagnosticItem::skipped("Token 活动", "正在诊断"),
    }
}

/// A token count as shown: `-` when unknown, the number below 1000, else its compact form
/// (such as `1.2 K`), which is passed in.
pub open spec fn token_count_text(value: Option<u64>, compact: Seq<char>) -> Seq<char> {
    match value {
        None => "-"@,
        Some(v) => if v >= 1000 {
            compact
        } else {
            decimal_text(v as nat)
        },
    }
}

/// A token count as shown, given its compact form for counts of 1000 and more.
pub fn format_token_count(value: Option<u64>, compact: &str) -> (r: String)
    ensures
        r@ == token_count_text(value, compact@),
{
    match value {
        None => String::from_str("-"),
        Some(v) => if v >= 1000 {
            String::from_str(compact)
        } else {
            u64_text(v)
        },
    }
}

/// A duration as shown: minutes and seconds (`3分5秒`), seconds alone under a minute, or `-`.
pub open spec fn duration_text(value: Option<u64>) -> Seq<char> {
    match value {
        None => "-"@,
        Some(s) => if s / 60 > 0 {
            decimal_text((s / 60) as nat) + "分"@ + decimal_text((s % 60) as nat) + "秒"@
        } else {
            decimal_text((s % 60) as nat) + "秒"@
        },
    }
}

/// A duration in seconds as shown.
pub fn format_duration(value: Option<u64>) -> (r: String)
    ensures
        r@ == duration_text(value),
{
    match value {
        None => String::from_str("-"),
        Some(seconds) => {
            let minutes = seconds / 60;
            let rest = seconds % 60;
            if minutes > 0 {
                u64_text(minutes).concat("分").concat(u64_text(rest).as_str()).concat("秒")
            } else {
                u64_text(rest).concat("秒")
            }
        },
    }
}

/// A duration of `s` seconds is shown as whole minutes and the seconds left over, which add
/// back up to `s`; under a minute, as seconds alone. No duration is shown as `-`.
pub proof fn lemma_duration_text_adds_up(s: u64)
    ensures
        duration_text(None) == "-"@,
        s < 60 ==> duration_text(Some(s)) == decimal_text(s as nat) + "秒"@,
        s >= 60 ==> exists|m: nat, r: nat|
            #![trigger decimal_text(m), decimal_text(r)]
            r < 60 && 1 <= m && 60 * m + r == s && duration_text(Some(s)) == decimal_text(m)
                + "分"@ + decimal_text(r) + "秒"@,
{
    if s >= 60 {
        let m = (s / 60) as nat;
        let r = (s % 60) as nat;
        assert(60 * m + r == s);
        assert(duration_text(Some(s)) == decimal_text(m) + "分"@ + decimal_text(r) + "秒"@);
    } else {
        assert(s % 60 == s);
    }
}

/// A number of days as shown (`5天`), or `-`.
pub open spec fn days_text(value: Option<u64>) -> Seq<char> {
    match value {
        None => "-"@,
        Some(d) => decimal_text(d as nat) + "天"@,
    }
}

/// A number of days as shown.
pub fn format_days(value: Option<u64>) -> (r: String)
    ensures
        r@ == days_text(value),
{
    match value {
        None => String::from_str("-"),
        Some(d) => u64_text(d).concat("天"),
    }
}

/// The compact forms of the lifetime and peak token counts of an activity, made where numbers
/// are formatted with decimals.
pub struct TokenCountTexts {
    pub lifetime: String,
    pub peak: String,
}

/// The metrics as (label, value) pairs.
pub open spec fn metrics_view(m: Seq<DashboardMetric>) -> Seq<(Seq<char>, Seq<char>)> {
    m.map_values(|x: DashboardMetric| (x.label@, x.value@))
}

/// The five metrics of the panel for an activity; `-` throughout without one.
pub open spec fn metrics_spec(
    activity: Option<TokenActivitySnapshot>,
    lifetime_compact: Seq<char>,
    peak_compact: Seq<char>,
) -> Seq<(Seq<char>, Seq<char>)> {
    match activity {
        None => seq![
            ("累计 Token"@, "-"@),
            ("峰值 Token"@, "-"@),
            ("最长任务时长"@, "-"@),
            ("当前连续天数"@, "-"@),
            ("最长连续天数"@, "-"@),
        ],
        Some(a) => seq![
            ("累计 Token"@, token_count_text(a.lifetime_tokens, lifetime_compact)),
            ("峰值 Token"@, token_count_text(a.peak_daily_tokens, peak_compact)),
            ("最长任务时长"@, duration_text(a.longest_running_turn_sec)),
            ("当前连续天数"@, days_text(a.current_streak_days)),
            ("最长连续天数"@, days_text(a.longest_streak_days)),
        ],
    }
}

fn metric(label: &str, value: String) -> (r: DashboardMetric)
    ensures
        r.label@ == label@,
        r.value == value,
{
    DashboardMetric { label: String::from_str(label), value }
}

/// The metrics with no activity: every value `-`.
pub fn empty_metrics() -> (r: Vec<DashboardMetric>)
    ensures
        metrics_view(r@) == metrics_spec(None, Seq::empty(), Seq::empty()),
{
    let mut v: Vec<DashboardMetric> = Vec::new();
    v.push(metric("累计 Token", String::from_str("-")));
    v.push(metric("峰值 Token", String::from_str("-")));
    v.push(metric("最长任务时长", String::from_str("-")));
    v.push(metric("当前连续天数", String::from_str("-")));
    v.push(metric("最长连续天数", String::from_str("-")));
    assert(metrics_view(v@) =~= metrics_spec(None, Seq::empty(), Seq::empty()));
    v
}

/// The five metrics of the panel for an activity.
pub fn metrics_from_activity(activity: Option<&TokenActivitySnapshot>, texts: &TokenCountTexts) -> (r:
    Vec<DashboardMetric>)
    ensures
        metrics_view(r@) == metrics_spec(
            match activity {
                Some(a) => Some(*a),
                None => None,
            },
            texts.lifetime@,
            texts.peak@,
        ),
{
    let a = match activity {
        None => {
            let v = empty_metrics();
            return v;
        },
        Some(a) => a,
    };
    let mut v: Vec<DashboardMetric> = Vec::new();
    v.push(metric("累计 Token", format_token_count(a.lifetime_tokens, texts.lifetime.as_str())));
    v.push(metric("峰值 Token", format_token_count(a.peak_daily_tokens, texts.peak.as_str())));
    v.push(metric("最长任务时长", format_duration(a.longest_running_turn_sec)));
    v.push(metric("当前连续天数", format_days(a.current_streak_days)));
    v.push(metric("最长连续天数", format_days(a.longest_streak_days)));
    assert(metrics_view(v@) =~= metrics_spec(Some(*a), texts.lifetime@, texts.peak@));
    v
}

/// Whether the signed-in account differs from the one of the previous reading.
pub open spec fn account_changed(previous: Option<QuotaFetchResult>, current: QuotaFetchResult) -> bool {
    match previous {
        None => false,
        Some(p) => match (p.account.email, current.account.email) {
            (Some(a), Some(b)) => a@ != b@,
            (None, None) => false,
            _ => true,
        },
    }
}

/// Whether the signed-in account differs from the one of the previous reading.
pub fn has_account_changed(previous: Option<&QuotaFetchResult>, current: &QuotaFetchResult) -> (r: bool)
    ensures
        r == account_changed(
            match previous {
                Some(p) => Some(*p),
                None => None,
            },
            *current,
        ),
{
    match previous {
        None => false,
        Some(p) => match (&p.account.email, &current.account.email) {
            (Some(a), Some(b)) => !crate::text::text_eq(a.as_str(), b.as_str()),
            (None, None) => false,
            _ => true,
        },
    }
}

impl DashboardState {
    /// A state with nothing remembered.
    pub fn new() -> (r: Self)
        ensures
            r.last_success is None,
            r.last_token_activity is None,
    {
        DashboardState { last_success: None, last_token_activity: None }
    }

    /// Whether a quota reading has succeeded.
    pub fn has_success(&self) -> (r: bool)
        ensures
            r == self.last_success is Some,
    {
        self.last_success.is_some()
    }

    /// Remembers a successful reading (see [`remembered`]).
    pub fn remember_success(&mut self, result: QuotaFetchResult)
        ensures
            remembered(*old(self), result, *final(self)),
    {
        if has_account_changed(self.last_success.as_ref(), &result) {
            self.last_token_activity = None;
        }
        match &result.token_activity {
            Some(activity) => {
                self.last_token_activity = Some(activity.duplicate());
            },
            None => {},
        }
        self.last_success = Some(result);
    }

    /// Remembers the token activity read by a refresh.
    pub fn remember_token_activity(&mut self, activity: TokenActivitySnapshot)
        ensures
            final(self).last_token_activity == Some(activity),
            final(self).last_success == old(self).last_success,
    {
        self.last_token_activity = Some(activity);
    }

    /// The snapshot of what is remembered on the day `today`, before any step of a refresh ran.
    pub fn cached_snapshot(
        &self,
        hook_stats: &Vec<(String, HookDayStats)>,
        texts: &TokenCountTexts,
        today: i32,
    ) -> (r: DashboardSnapshot)
        ensures
            snapshot_matches(*self, r.diagnostics, hook_stats@, *texts, today as int, r),
            is_pending(r.diagnostics),
            !has_error(r.diagnostics),
    {
        let d = empty_diagnostics();
        snapshot_from_state(self, d, hook_stats, texts, today)
    }
}

/// Whether `after` is `before` with the successful reading `result` remembered: the reading is
/// the last success; the token activity is the reading's own when it has one, else it is
/// forgotten when the signed-in account changed and kept otherwise.
pub open spec fn remembered(
    before: DashboardState,
    result: QuotaFetchResult,
    after: DashboardState,
) -> bool {
    &&& after.last_success == Some(result)
    &&& result.token_activity is Some ==> same_activity(
        after.last_token_activity,
        result.token_activity,
    )
    &&& result.token_activity is None && account_changed(before.last_success, result)
        ==> after.last_token_activity is None
    &&& result.token_activity is None && !account_changed(before.last_success, result)
        ==> after.last_token_activity == before.last_token_activity
}

/// Once a quota reading has succeeded, the state keeps a success: remembering a reading sets
/// it, and a step that changes the last success only by remembering a reading (a failed
/// refresh, a token-activity refresh, the local fallback) leaves it as it was.
pub proof fn lemma_success_persists(
    before: DashboardState,
    reading: Option<QuotaFetchResult>,
    after: DashboardState,
)
    requires
        reading matches Some(res) ==> remembered(before, res, after),
        reading is None ==> after.last_success == before.last_success,
    ensures
        reading is Some ==> after.last_success is Some,
        before.last_success is Some ==> after.last_success is Some,
{
}

/// Once a quota was read, a refresh whose CLI probe step or app-server step failed shows that
/// quota marked stale and labelled as the last successful data, whichever of the two steps
/// failed; a refresh in which neither failed shows it as current, labelled by where it was read.
pub proof fn lemma_failed_refresh_shows_stale_quota(
    state: DashboardState,
    d: DiagnosticsSnapshot,
    hook_stats: Seq<(String, HookDayStats)>,
    texts: TokenCountTexts,
    today: int,
    s: DashboardSnapshot,
)
    requires
        snapshot_matches(state, d, hook_stats, texts, today, s),
        state.last_success is Some,
    ensures
        d.cli_probe.status == DiagnosticStatus::Error || d.cli_app_server.status
            == DiagnosticStatus::Error ==> (s.quota matches Some(q) && q.stale
            && s.source_label@ == "上次成功数据"@),
        d.cli_probe.status != DiagnosticStatus::Error && d.cli_app_server.status
            != DiagnosticStatus::Error ==> (s.quota matches Some(q) && !q.stale
            && s.source_label@ == (match state.last_success->0.quota.source {
                QuotaSourceKind::CodexCli => "Codex CLI"@,
                QuotaSourceKind::Cached => "上次成功数据"@,
            })),
{
}

/// Whether `s` is the snapshot of the state with the diagnostics `d` on the day `today`: the
/// last account (or a disconnected one), the last quota marked stale when this refresh failed,
/// its source and label, the metrics of the last activity, and the heat map of today with the
/// hook statistics, or none where today's heat map cannot be computed.
pub open spec fn snapshot_matches(
    state: DashboardState,
    d: DiagnosticsSnapshot,
    hook_stats: Seq<(String, HookDayStats)>,
    texts: TokenCountTexts,
    today: int,
    s: DashboardSnapshot,
) -> bool {
    &&& (match state.last_success {
        Some(res) => {
            &&& s.account == res.account
            &&& s.quota matches Some(q) && q.same_readings(res.quota) && q.stale == has_error(d)
            &&& s.last_success_source == Some(res.quota.source)
            &&& s.source_label@ == source_label_text(quota_source_spec(Some(res.quota), d))
        },
        None => {
            &&& s.account.email is None && s.account.plan is None && s.account.status@ == "未连接"@
            &&& s.quota is None
            &&& s.last_success_source is None
            &&& s.source_label@ == source_label_text(None)
        },
    })
    &&& s.diagnostics == d
    &&& metrics_view(s.metrics@) == metrics_spec(
        state.last_token_activity,
        texts.lifetime@,
        texts.peak@,
    )
    &&& heatmap_computable(buckets_of(state.last_token_activity), today) ==> heatmap_for_today(
        s.heatmap_days@,
        buckets_of(state.last_token_activity),
        hook_stats,
        today,
    )
    &&& !heatmap_computable(buckets_of(state.last_token_activity), today)
        ==> s.heatmap_days.len() == 0
    &&& s.token_activity_source == match state.last_token_activity {
        Some(a) => Some(a.source),
        None => None,
    }
}

/// The snapshot of the state with the diagnostics of a refresh.
pub fn snapshot_from_state(
    state: &DashboardState,
    diagnostics: DiagnosticsSnapshot,
    hook_stats: &Vec<(String, HookDayStats)>,
    texts: &TokenCountTexts,
    today: i32,
) -> (r: DashboardSnapshot)
    ensures
        snapshot_matches(*state, diagnostics, hook_stats@, *texts, today as int, r),
{
    let stale = diagnostics_has_error(&diagnostics);
    let (account, quota, last_source) = match &state.last_success {
        Some(res) => {
            let mut q = res.quota.duplicate();
            q.stale = stale;
            (res.account.duplicate(), Some(q), Some(res.quota.source))
        },
        None => (disconnected_account(), None, None),
    };
    let source = quota_source(
        match &state.last_success {
            Some(res) => Some(&res.quota),
            None => None,
        },
        &diagnostics,
    );
    let label = source_label(source);
    let metrics = metrics_from_activity(state.last_token_activity.as_ref(), texts);
    let act = state.last_token_activity.as_ref();
    let heatmap_days = match build_heatmap_days(act, hook_stats, today) {
        Some(days) => days,
        None => Vec::new(),
    };
    proof {
        assert(activity_buckets(act) == buckets_of(state.last_token_activity));
    }
    let token_activity_source = match &state.last_token_activity {
        Some(a) => Some(a.source),
        None => None,
    };
    DashboardSnapshot {
        account,
        quota,
        last_success_source: last_source,
        source_label: label,
        diagnostics,
        metrics,
        heatmap_days,
        token_activity_source,
    }
}

/// The outcome of reading the quota through the CLI.
pub enum QuotaFetchOutcome {
    /// No Codex CLI could be started.
    ProbeFailed(String),
    /// The CLI `version` started, but reading from its app-server failed.
    FetchFailed(String, String),
    /// The CLI `version` started and the quota was read.
    Fetched(String, QuotaFetchResult),
}

/// The diagnostics of a quota reading and the result to remember.
pub fn record_quota_fetch(diagnostics: &mut DiagnosticsSnapshot, outcome: QuotaFetchOutcome) -> (r: Option<
    QuotaFetchResult,
>)
    ensures
        final(diagnostics).token_activity == old(diagnostics).token_activity,
        match outcome {
            QuotaFetchOutcome::ProbeFailed(e) => {
                &&& r is None
                &&& item_is(final(diagnostics).cli_probe, "CLI 探测"@, DiagnosticStatus::Error, e@)
                &&& item_is(
                    final(diagnostics).cli_app_server,
                    "CLI app-server"@,
                    DiagnosticStatus::Skipped,
                    "缺少可启动 Codex CLI"@,
                )
            },
            QuotaFetchOutcome::FetchFailed(v, e) => {
                &&& r is None
                &&& item_is(
                    final(diagnostics).cli_probe,
                    "CLI 探测"@,
                    DiagnosticStatus::Success,
                    "可启动："@ + v@,
                )
                &&& item_is(
                    final(diagnostics).cli_app_server,
                    "CLI app-server"@,
                    DiagnosticStatus::Error,
                    e@,
                )
            },
            QuotaFetchOutcome::Fetched(v, res) => {
                &&& r == Some(res)
                &&& item_is(
                    final(diagnostics).cli_probe,
                    "CLI 探测"@,
                    DiagnosticStatus::Success,
                    "可启动："@ + v@,
                )
                &&& item_is(
                    final(diagnostics).cli_app_server,
                    "CLI app-server"@,
                    DiagnosticStatus::Success,
                    "账号与额度读取成功"@,
                )
            },
        },
{
    match outcome {
        QuotaFetchOutcome::ProbeFailed(e) => {
            diagnostics.cli_probe = DiagnosticItem::error("CLI 探测", e.as_str());
            diagnostics.cli_app_server = DiagnosticItem::skipped("CLI app-server", "缺少可启动 Codex CLI");
            None
        },
        QuotaFetchOutcome::FetchFailed(v, e) => {
            let m = String::from_str("可启动：").concat(v.as_str());
            diagnostics.cli_probe = DiagnosticItem::ok("CLI 探测", m.as_str());
            diagnostics.cli_app_server = DiagnosticItem::error("CLI app-server", e.as_str());
            None
        },
        QuotaFetchOutcome::Fetched(v, res) => {
            let m = String::from_str("可启动：").concat(v.as_str());
            diagnostics.cli_probe = DiagnosticItem::ok("CLI 探测", m.as_str());
            diagnostics.cli_app_server = DiagnosticItem::ok("CLI app-server", "账号与额度读取成功");
            Some(res)
        },
    }
}

/// The snapshot after a quota refresh: the reading (if any) is remembered and the token
/// activity is marked as refreshing in the background.
pub fn finish_quota_refresh(
    state: &mut DashboardState,
    result: Option<QuotaFetchResult>,
    diagnostics: DiagnosticsSnapshot,
    hook_stats: &Vec<(String, HookDayStats)>,
    texts: &TokenCountTexts,
    today: i32,
) -> (r: DashboardSnapshot)
    ensures
        result matches Some(res) ==> remembered(*old(state), res, *final(state)),
        result is None ==> *final(state) == *old(state),
        old(state).last_success is Some ==> final(state).last_success is Some,
        r.diagnostics.cli_probe == diagnostics.cli_probe,
        r.diagnostics.cli_app_server == diagnostics.cli_app_server,
        item_is(
            r.diagnostics.token_activity,
            "Token 活动"@,
            DiagnosticStatus::Skipped,
            "后台刷新中"@,
        ),
        snapshot_matches(*final(state), r.diagnostics, hook_stats@, *texts, today as int, r),
{
    match result {
        Some(res) => state.remember_success(res),
        None => {},
    }
    let mut diagnostics = diagnostics;
    diagnostics.token_activity = DiagnosticItem::skipped("Token 活动", "后台刷新中");
    snapshot_from_state(state, diagnostics, hook_stats, texts, today)
}

/// The outcome of reading the token activity through the CLI.
pub enum UsageFetchOutcome {
    /// No Codex CLI could be started.
    ProbeFailed(String),
    /// The CLI `version` started, but reading the usage failed.
    FetchFailed(String, String),
    /// The CLI `version` started and the usage was read.
    Fetched(String, TokenActivitySnapshot),
}

/// The diagnostics of a usage reading and the activity read.
pub fn record_usage_fetch(diagnostics: &mut DiagnosticsSnapshot, outcome: UsageFetchOutcome) -> (r: Option<
    TokenActivitySnapshot,
>)
    ensures
        match outcome {
            UsageFetchOutcome::ProbeFailed(e) => {
                &&& r is None
                &&& item_is(final(diagnostics).cli_probe, "CLI 探测"@, DiagnosticStatus::Error, e@)
                &&& item_is(
                    final(diagnostics).cli_app_server,
                    "CLI app-server"@,
                    DiagnosticStatus::Skipped,
                    "缺少可启动 Codex CLI"@,
                )
                &&& final(diagnostics).token_activity == old(diagnostics).token_activity
            },
            UsageFetchOutcome::FetchFailed(v, e) => {
                &&& r is None
                &&& item_is(
                    final(diagnostics).cli_probe,
                    "CLI 探测"@,
                    DiagnosticStatus::Success,
                    "可启动："@ + v@,
                )
                &&& item_is(
                    final(diagnostics).cli_app_server,
                    "CLI app-server"@,
                    DiagnosticStatus::Error,
                    e@,
                )
                &&& final(diagnostics).token_activity == old(diagnostics).token_activity
            },
            UsageFetchOutcome::Fetched(v, a) => {
                &&& r == Some(a)
                &&& item_is(
                    final(diagnostics).cli_probe,
                    "CLI 探测"@,
                    DiagnosticStatus::Success,
                    "可启动："@ + v@,
                )
                &&& item_is(
                    final(diagnostics).cli_app_server,
                    "CLI app-server"@,
                    DiagnosticStatus::Success,
                    "Token 活动读取成功"@,
                )
                &&& item_is(
                    final(diagnostics).token_activity,
                    "Token 活动"@,
                    DiagnosticStatus::Success,
                    "profile usage API 读取成功"@,
                )
            },
        },
{
    match outcome {
        UsageFetchOutcome::ProbeFailed(e) => {
            diagnostics.cli_probe = DiagnosticItem::error("CLI 探测", e.as_str());
            diagnostics.cli_app_server = DiagnosticItem::skipped("CLI app-server", "缺少可启动 Codex CLI");
            None
        },
        UsageFetchOutcome::FetchFailed(v, e) => {
            let m = String::from_str("可启动：").concat(v.as_str());
            diagnostics.cli_probe = DiagnosticItem::ok("CLI 探测", m.as_str());
            diagnostics.cli_app_server = DiagnosticItem::error("CLI app-server", e.as_str());
            None
        },
        UsageFetchOutcome::Fetched(v, a) => {
            let m = String::from_str("可启动：").concat(v.as_str());
            diagnostics.cli_probe = DiagnosticItem::ok("CLI 探测", m.as_str());
            diagnostics.cli_app_server = DiagnosticItem::ok("CLI app-server", "Token 活动读取成功");
            diagnostics.token_activity = DiagnosticItem::ok("Token 活动", "profile usage API 读取成功");
            Some(a)
        },
    }
}

/// Whether the remembered activity already comes from the profile usage API, so the local
/// session logs are not read.
pub open spec fn has_profile_usage(state: DashboardState) -> bool {
    match state.last_token_activity {
        Some(a) => a.source == TokenActivitySource::ProfileUsageApi,
        None => false,
    }
}

/// Whether the local session logs must be read after the usage API failed.
pub fn needs_local_fallback(state: &DashboardState) -> (r: bool)
    ensures
        r == !has_profile_usage(*state),
{
    match &state.last_token_activity {
        Some(a) => a.source != TokenActivitySource::ProfileUsageApi,
        None => true,
    }
}

/// Records the fallback to the local session logs: nothing read when the profile usage is
/// already known (`local` is none), else the activity read or the reason it failed.
pub fn record_local_fallback(
    state: &mut DashboardState,
    diagnostics: &mut DiagnosticsSnapshot,
    local: Option<Result<TokenActivitySnapshot, String>>,
)
    requires
        local is None <==> has_profile_usage(*old(state)),
    ensures
        final(state).last_success == old(state).last_success,
        final(diagnostics).cli_probe == old(diagnostics).cli_probe,
        final(diagnostics).cli_app_server == old(diagnostics).cli_app_server,
        match local {
            None => {
                &&& *final(state) == *old(state)
                &&& item_is(
                    final(diagnostics).token_activity,
                    "Token 活动"@,
                    DiagnosticStatus::Success,
                    "profile usage API 读取成功"@,
                )
            },
            Some(Ok(a)) => {
                &&& final(state).last_token_activity == Some(a)
                &&& item_is(
                    final(diagnostics).token_activity,
                    "Token 活动"@,
                    DiagnosticStatus::Success,
                    "已回退本地 JSONL"@,
                )
            },
            Some(Err(e)) => {
                &&& *final(state) == *old(state)
                &&& item_is(
                    final(diagnostics).token_activity,
                    "Token 活动"@,
                    DiagnosticStatus::Error,
                    e@,
                )
            },
        },
{
    match local {
        None => {
            diagnostics.token_activity = DiagnosticItem::ok("Token 活动", "profile usage API 读取成功");
        },
        Some(Ok(a)) => {
            diagnostics.token_activity = DiagnosticItem::ok("Token 活动", "已回退本地 JSONL");
            state.last_token_activity = Some(a);
        },
        Some(Err(e)) => {
            diagnostics.token_activity = DiagnosticItem::error("Token 活动", e.as_str());
        },
    }
}

} // verus!
