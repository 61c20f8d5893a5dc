//! The decisions of the desktop shell: where the quota widget sits and hides at a screen
//! edge, which key the global shortcut uses, when a dashboard refresh may start, and what a
//! refresh writes to the log.
use vstd::prelude::*;

use crate::models::{DashboardSnapshot, DiagnosticItem, DiagnosticStatus};
use crate::text::{chars_of, decimal_text, is_space, string_of_range, trim, trim_text, u64_text};

verus! {

/// How many pixels of the quota widget stay visible when it is hidden at a screen edge.
pub const QUOTA_WIDGET_EDGE_REVEAL_SIZE: i32 = 12;

/// The gap between a revealed quota widget and the screen edge.
pub const QUOTA_WIDGET_EDGE_GAP: i32 = 8;

/// How close to a screen edge a dropped widget must be to snap to it.
pub const QUOTA_WIDGET_SNAP_DISTANCE: i32 = 20;

/// The margin kept between the panel and the edges of the work area.
pub const PANEL_WORK_AREA_MARGIN: i32 = 8;

/// The seconds between automatic dashboard refreshes.
pub const AUTO_REFRESH_INTERVAL_SECONDS: u64 = 60;

/// The screen edge the quota widget is docked at.
#[derive(Debug, Clone, Copy, PartialEq, Eq, Structural)]
pub enum QuotaWidgetEdge {
    Left,
    Right,
}

/// The x position of the quota widget at startup: hidden at the right edge of the work area
/// with only the reveal strip visible. The width is taken as an `i32`, wrapping as a cast does.
pub fn quota_widget_startup_x(work_area_left: i32, work_area_width: u32) -> (r: i32)
    requires
        i32::MIN <= work_area_left + (work_area_width as i32) - QUOTA_WIDGET_EDGE_REVEAL_SIZE
            <= i32::MAX,
    ensures
        r == work_area_left + (work_area_width as i32) - QUOTA_WIDGET_EDGE_REVEAL_SIZE,
{
    let w: i32 = work_area_width as i32;
    (work_area_left as i64 + w as i64 - 12) as i32
}

/// The height in logical pixels of the quota widget showing `quota_count` windows: one row
/// of 48 pixels, and 34 more for each further window.
pub fn quota_widget_height(quota_count: usize) -> (r: u128)
    ensures
        quota_count == 0 ==> r == 48,
        quota_count > 0 ==> r == 48 + (quota_count - 1) * 34,
{
    let extra: u128 = if quota_count == 0 { 0 } else { (quota_count - 1) as u128 };
    48 + extra * 34
}

/// `value` limited to `min..=max`; `min` when the range is empty.
pub open spec fn clamp_spec(value: int, min: int, max: int) -> int {
    if max < min {
        min
    } else if value < min {
        min
    } else if value > max {
        max
    } else {
        value
    }
}

/// `value` limited to `min..=max`; `min` when the range is empty.
pub fn clamp_position(value: i32, min: i32, max: i32) -> (r: i32)
    ensures
        r == clamp_spec(value as int, min as int, max as int),
{
    if max < min {
        min
    } else if value < min {
        min
    } else if value > max {
        max
    } else {
        value
    }
}

/// The distance between two positions.
pub open spec fn distance(a: int, b: int) -> int {
    if a >= b {
        a - b
    } else {
        b - a
    }
}

/// The edge a dropped widget snaps to: the edge it is within the snap distance of, the
/// nearer one when it is near both, none when it is near neither.
pub open spec fn snap_edge_spec(x: int, width: int, left: int, right: int) -> Option<QuotaWidgetEdge> {
    let touches_left = x <= left + QUOTA_WIDGET_SNAP_DISTANCE;
    let touches_right = x + width >= right - QUOTA_WIDGET_SNAP_DISTANCE;
    if !touches_left && !touches_right {
        None
    } else if touches_left && !touches_right {
        Some(QuotaWidgetEdge::Left)
    } else if !touches_left && touches_right {
        Some(QuotaWidgetEdge::Right)
    } else if distance(x, left) <= distance(x + width, right) {
        Some(QuotaWidgetEdge::Left)
    } else {
        Some(QuotaWidgetEdge::Right)
    }
}

/// The edge the quota widget at `x`, `width` pixels wide, snaps to within the work area that
/// starts at `left` and is `work_width` pixels wide.
pub fn snap_edge(x: i32, width: u32, left: i32, work_width: u32) -> (r: Option<QuotaWidgetEdge>)
    ensures
        r == snap_edge_spec(x as int, width as int, left as int, left + work_width),
{
    let x = x as i64;
    let width = width as i64;
    let left = left as i64;
    let right = left + work_width as i64;
    let touches_left = x <= left + 20;
    let touches_right = x + width >= right - 20;
    if !touches_left && !touches_right {
        None
    } else if touches_left && !touches_right {
        Some(QuotaWidgetEdge::Left)
    } else if !touches_left && touches_right {
        Some(QuotaWidgetEdge::Right)
    } else {
        let dl = if x >= left { x - left } else { left - x };
        let dr = if x + width >= right { x + width - right } else { right - (x + width) };
        if dl <= dr {
            Some(QuotaWidgetEdge::Left)
        } else {
            Some(QuotaWidgetEdge::Right)
        }
    }
}

/// The x position of a widget hidden at `edge`: all of it beyond the edge but the reveal
/// strip.
pub open spec fn hidden_x_spec(edge: QuotaWidgetEdge, left: int, work_width: int, width: int) -> int {
    match edge {
        QuotaWidgetEdge::Left => left - width + QUOTA_WIDGET_EDGE_REVEAL_SIZE,
        QuotaWidgetEdge::Right => left + work_width - QUOTA_WIDGET_EDGE_REVEAL_SIZE,
    }
}

/// The x position of the widget hidden at `edge`.
pub fn hidden_edge_x(edge: QuotaWidgetEdge, left: i32, work_width: u32, width: u32) -> (r: i32)
    requires
        i32::MIN <= hidden_x_spec(edge, left as int, work_width as int, width as int) <= i32::MAX,
    ensures
        r == hidden_x_spec(edge, left as int, work_width as int, width as int),
{
    let v: i64 = match edge {
        QuotaWidgetEdge::Left => left as i64 - width as i64 + 12,
        QuotaWidgetEdge::Right => left as i64 + work_width as i64 - 12,
    };
    v as i32
}

/// The x position of a widget revealed from `edge`: the gap away from that edge.
pub open spec fn revealed_x_spec(edge: QuotaWidgetEdge, left: int, work_width: int, width: int) -> int {
    match edge {
        QuotaWidgetEdge::Left => left + QUOTA_WIDGET_EDGE_GAP,
        QuotaWidgetEdge::Right => left + work_width - width - QUOTA_WIDGET_EDGE_GAP,
    }
}

/// The x position of the widget revealed from `edge`.
pub fn revealed_edge_x(edge: QuotaWidgetEdge, left: i32, work_width: u32, width: u32) -> (r: i32)
    requires
        i32::MIN <= revealed_x_spec(edge, left as int, work_width as int, width as int) <= i32::MAX,
    ensures
        r == revealed_x_spec(edge, left as int, work_width as int, width as int),
{
    let v: i64 = match edge {
        QuotaWidgetEdge::Left => left as i64 + 8,
        QuotaWidgetEdge::Right => left as i64 + work_width as i64 - width as i64 - 8,
    };
    v as i32
}

/// The y position of a widget hidden at an edge: its own, kept within the work area.
pub fn hidden_edge_y(y: i32, top: i32, work_height: u32, height: u32) -> (r: i32)
    requires
        i32::MIN <= top + work_height - height <= i32::MAX,
    ensures
        r == clamp_spec(y as int, top as int, top + work_height - height),
{
    let max = (top as i64 + work_height as i64 - height as i64) as i32;
    clamp_position(y, top, max)
}

/// The position of a window moved into the work area, keeping the margin from its edges.
pub fn constrain_to_work_area(
    x: i32,
    y: i32,
    area_x: i32,
    area_y: i32,
    area_width: u32,
    area_height: u32,
    width: u32,
    height: u32,
) -> (r: (i32, i32))
    requires
        i32::MIN <= area_x + PANEL_WORK_AREA_MARGIN <= i32::MAX,
        i32::MIN <= area_y + PANEL_WORK_AREA_MARGIN <= i32::MAX,
        i32::MIN <= area_x + area_width - width - PANEL_WORK_AREA_MARGIN <= i32::MAX,
        i32::MIN <= area_y + area_height - height - PANEL_WORK_AREA_MARGIN <= i32::MAX,
    ensures
        r.0 == clamp_spec(
            x as int,
            area_x + PANEL_WORK_AREA_MARGIN,
            area_x + area_width - width - PANEL_WORK_AREA_MARGIN,
        ),
        r.1 == clamp_spec(
            y as int,
            area_y + PANEL_WORK_AREA_MARGIN,
            area_y + area_height - height - PANEL_WORK_AREA_MARGIN,
        ),
{
    let min_x = (area_x as i64 + 8) as i32;
    let min_y = (area_y as i64 + 8) as i32;
    let max_x = (area_x as i64 + area_width as i64 - width as i64 - 8) as i32;
    let max_y = (area_y as i64 + area_height as i64 - height as i64 - 8) as i32;
    (clamp_position(x, min_x, max_x), clamp_position(y, min_y, max_y))
}

/// The name the widget's page uses for the edge it is docked at.
pub fn edge_ui_value(edge: Option<QuotaWidgetEdge>) -> (r: &'static str)
    ensures
        edge == Some(QuotaWidgetEdge::Left) ==> r@ == "left"@,
        edge == Some(QuotaWidgetEdge::Right) ==> r@ == "right"@,
        edge is None ==> r@ == ""@,
{
    match edge {
        Some(QuotaWidgetEdge::Left) => "left",
        Some(QuotaWidgetEdge::Right) => "right",
        None => "",
    }
}

/// The index of the last `c` in `s` before `end`, or -1.
pub open spec fn last_char_before(s: Seq<char>, c: char, end: int) -> int
    decreases end,
{
    if end <= 0 {
        -1
    } else if s[end - 1] == c {
        end - 1
    } else {
        last_char_before(s, c, end - 1)
    }
}

proof fn lemma_last_char_before(s: Seq<char>, c: char, end: int)
    requires
        0 <= end <= s.len(),
    ensures
        -1 <= last_char_before(s, c, end) < end,
    decreases end,
{
    if end > 0 && s[end - 1] != c {
        lemma_last_char_before(s, c, end - 1);
    }
}

/// The ASCII upper-case form of `c`.
pub open spec fn ascii_upper(c: char) -> char {
    if 'a' <= c && c <= 'z' {
        ((c as u32) - 32) as char
    } else {
        c
    }
}

/// The key of a global shortcut: the first character of its last `+`-separated part,
/// trimmed, in upper case; refused when that part is empty or the key is not a letter.
pub open spec fn shortcut_key_spec(s: Seq<char>) -> Result<char, Seq<char>> {
    let part = trim(s.subrange(last_char_before(s, '+', s.len() as int) + 1, s.len() as int));
    if part.len() == 0 {
        Err("快捷键格式无效"@)
    } else if 'A' <= ascii_upper(part[0]) && ascii_upper(part[0]) <= 'Z' {
        Ok(ascii_upper(part[0]))
    } else {
        Err("当前仅支持 Ctrl+Shift+字母 格式"@)
    }
}

/// The upper-case letter of the key of a global shortcut such as `Ctrl+Shift+C`.
pub fn shortcut_key(value: &str) -> (r: Result<char, String>)
    ensures
        match r {
            Ok(k) => shortcut_key_spec(value@) == Ok::<char, Seq<char>>(k),
            Err(e) => shortcut_key_spec(value@) == Err::<char, Seq<char>>(e@),
        },
{
    let v = chars_of(value);
    let mut j: usize = v.len();
    while j > 0 && v[j - 1] != '+'
        invariant
            j <= v.len(),
            last_char_before(v@, '+', v.len() as int) == last_char_before(v@, '+', j as int),
        decreases j,
    {
        j -= 1;
    }
    proof {
        lemma_last_char_before(v@, '+', v.len() as int);
    }
    let part_raw = string_of_range(&v, j, v.len());
    let part = trim_text(part_raw.as_str());
    if part.unicode_len() == 0 {
        return Err(String::from_str("快捷键格式无效"));
    }
    let first = part.get_char(0);
    let upper = if 'a' <= first && first <= 'z' {
        ((first as u8) - 32) as char
    } else {
        first
    };
    proof {
        assert(upper == ascii_upper(first)) by {
            if 'a' <= first && first <= 'z' {
                assert((first as u8) as u32 == first as u32);
            }
        }
    }
    if 'A' <= upper && upper <= 'Z' {
        Ok(upper)
    } else {
        Err(String::from_str("当前仅支持 Ctrl+Shift+字母 格式"))
    }
}

/// Whether a dashboard refresh is running, and when the last one started (seconds since the
/// Unix epoch).
#[derive(Debug, Clone, Copy, PartialEq, Eq, Structural)]
pub struct RefreshGate {
    pub in_progress: bool,
    pub last_started_at: u64,
}

impl RefreshGate {
    /// A gate with no refresh run yet.
    pub fn new() -> (r: Self)
        ensures
            !r.in_progress,
            r.last_started_at == 0,
    {
        RefreshGate { in_progress: false, last_started_at: 0 }
    }

    /// Starts a refresh at time `now` unless one is running; true when it started.
    pub fn begin(&mut self, now: u64) -> (started: bool)
        ensures
            started == !old(self).in_progress,
            final(self).in_progress,
            started ==> final(self).last_started_at == now,
            !started ==> *final(self) == *old(self),
    {
        if self.in_progress {
            return false;
        }
        self.in_progress = true;
        self.last_started_at = now;
        true
    }

    /// Marks the running refresh as finished.
    pub fn finish(&mut self)
        ensures
            !final(self).in_progress,
            final(self).last_started_at == old(self).last_started_at,
    {
        self.in_progress = false;
    }

    /// The seconds since the last refresh started (zero if the clock went back).
    pub fn seconds_since_last(&self, now: u64) -> (r: u64)
        ensures
            now >= self.last_started_at ==> r == now - self.last_started_at,
            now < self.last_started_at ==> r == 0,
    {
        if now >= self.last_started_at {
            now - self.last_started_at
        } else {
            0
        }
    }

    /// Whether an automatic refresh is due at time `now`.
    pub fn refresh_due(&self, now: u64) -> (r: bool)
        ensures
            r == (now >= self.last_started_at && now - self.last_started_at
                >= AUTO_REFRESH_INTERVAL_SECONDS),
    {
        self.seconds_since_last(now) >= 60
    }
}

/// The text of a flag as `format!` writes it.
pub open spec fn bool_text(b: bool) -> Seq<char> {
    if b {
        "true"@
    } else {
        "false"@
    }
}

/// The log line of a failed step: its label and message.
pub open spec fn step_error_line(item: DiagnosticItem) -> (Seq<char>, Seq<char>) {
    ("ERROR"@, item.label@ + "："@ + item.message@)
}

/// The log lines of the failed steps of a snapshot, in order.
pub open spec fn failed_step_lines(s: DashboardSnapshot) -> Seq<(Seq<char>, Seq<char>)> {
    let items = seq![s.diagnostics.cli_probe, s.diagnostics.cli_app_server, s.diagnostics.token_activity];
    items.filter(|i: DiagnosticItem| i.status == DiagnosticStatus::Error).map_values(
        |i: DiagnosticItem| step_error_line(i),
    )
}

/// What a logged dashboard refresh writes: the success message with the account and window
/// counts when a live quota was read, else one error line per failed step.
pub open spec fn refresh_log_lines(success_message: Seq<char>, s: DashboardSnapshot) -> Seq<
    (Seq<char>, Seq<char>),
> {
    match s.quota {
        Some(q) => if !q.stale {
            seq![
                (
                    "INFO"@,
                    success_message + "，emailPresent="@ + bool_text(s.account.email is Some)
                        + "，quotaWindows="@ + decimal_text(q.windows@.len()),
                ),
            ]
        } else {
            failed_step_lines(s)
        },
        None => failed_step_lines(s),
    }
}

/// The views of a list of log lines.
pub open spec fn line_views(v: Seq<(String, String)>) -> Seq<(Seq<char>, Seq<char>)> {
    v.map_values(|p: (String, String)| (p.0@, p.1@))
}

fn push_failed_step(lines: &mut Vec<(String, String)>, item: &DiagnosticItem)
    ensures
        item.status == DiagnosticStatus::Error ==> line_views(final(lines)@) == line_views(
            old(lines)@,
        ).push(step_error_line(*item)),
        item.status != DiagnosticStatus::Error ==> final(lines)@ == old(lines)@,
{
    if item.status == DiagnosticStatus::Error {
        let message = item.label.clone().concat("：").concat(item.message.as_str());
        let ghost before = lines@;
        lines.push((String::from_str("ERROR"), message));
        assert(line_views(lines@) =~= line_views(before).push(step_error_line(*item)));
    }
}

/// The log lines (level, message) of a refresh that records its outcome.
pub fn dashboard_refresh_log_lines(success_message: &str, snapshot: &DashboardSnapshot) -> (r: Vec<
    (String, String),
>)
    ensures
        line_views(r@) == refresh_log_lines(success_message@, *snapshot),
{
    let mut lines: Vec<(String, String)> = Vec::new();
    match &snapshot.quota {
        Some(q) => {
            if !q.stale {
                let flag = if snapshot.account.email.is_some() {
                    "true"
                } else {
                    "false"
                };
                let count = u64_text(q.windows.len() as u64);
                let message = String::from_str(success_message).concat("，emailPresent=").concat(
                    flag,
                ).concat("，quotaWindows=").concat(count.as_str());
                lines.push((String::from_str("INFO"), message));
                assert(line_views(lines@) =~= refresh_log_lines(success_message@, *snapshot));
                return lines;
            }
        },
        None => {},
    }
    let ghost items = seq![
        snapshot.diagnostics.cli_probe,
        snapshot.diagnostics.cli_app_server,
        snapshot.diagnostics.token_activity,
    ];
    let ghost pred = |i: DiagnosticItem| i.status == DiagnosticStatus::Error;
    let ghost f = |i: DiagnosticItem| step_error_line(i);
    assert(line_views(lines@) =~= items.take(0).filter(pred).map_values(f));
    push_failed_step(&mut lines, &snapshot.diagnostics.cli_probe);
    proof {
        lemma_filter_step(items, pred, 0);
        assert(line_views(lines@) =~= items.take(1).filter(pred).map_values(f));
    }
    push_failed_step(&mut lines, &snapshot.diagnostics.cli_app_server);
    proof {
        lemma_filter_step(items, pred, 1);
        assert(line_views(lines@) =~= items.take(2).filter(pred).map_values(f));
    }
    push_failed_step(&mut lines, &snapshot.diagnostics.token_activity);
    proof {
        lemma_filter_step(items, pred, 2);
        assert(items.take(3) =~= items);
        assert(line_views(lines@) =~= items.filter(pred).map_values(f));
    }
    lines
}

proof fn lemma_filter_step<A>(s: Seq<A>, pred: spec_fn(A) -> bool, i: int)
    requires
        0 <= i < s.len(),
    ensures
        s.take(i + 1).filter(pred) == if pred(s[i]) {
            s.take(i).filter(pred).push(s[i])
        } else {
            s.take(i).filter(pred)
        },
{
    reveal(Seq::filter);
    assert(s.take(i + 1).drop_last() =~= s.take(i));
}

/// What a logged token-activity refresh writes: a success line when activity was read, an
/// error line when that step failed, else nothing.
pub open spec fn token_activity_log_line(s: DashboardSnapshot) -> Option<(Seq<char>, Seq<char>)> {
    if s.token_activity_source is Some {
        Some(("INFO"@, "Token 活动刷新完成"@))
    } else if s.diagnostics.token_activity.status == DiagnosticStatus::Error {
        Some(step_error_line(s.diagnostics.token_activity))
    } else {
        None
    }
}

/// The log line (level, message) of a token-activity refresh that records its outcome.
pub fn token_activity_log(snapshot: &DashboardSnapshot) -> (r: Option<(String, String)>)
    ensures
        match r {
            Some(p) => token_activity_log_line(*snapshot) == Some((p.0@, p.1@)),
            None => token_activity_log_line(*snapshot) is None,
        },
{
    if snapshot.token_activity_source.is_some() {
        return Some((String::from_str("INFO"), String::from_str("Token 活动刷新完成")));
    }
    let item = &snapshot.diagnostics.token_activity;
    if item.status == DiagnosticStatus::Error {
        let message = item.label.clone().concat("：").concat(item.message.as_str());
        return Some((String::from_str("ERROR"), message));
    }
    None
}

} // verus!
