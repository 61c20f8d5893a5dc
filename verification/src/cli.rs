//! Reading the answers of the Codex CLI app-server: quota windows, account, reset credits and
//! usage summary, plus the small rules around finding and starting the CLI.
use vstd::prelude::*;

use crate::calendar::{chrono_timestamp_rfc3339, timestamp_rfc3339};
use crate::json::{
    entry_views, group_json_views, json_view, json_views, lemma_entry_views, lemma_json_views,
    number_view, JsonData, JsonNumber, JsonValue, NumberData,
};
use crate::models::{
    AccountSnapshot, QuotaFetchResult, QuotaSourceKind, QuotaWindow, RateLimitResetCredit,
    RateLimitResetCredits, RateLimitSnapshot, TokenActivityBucket, TokenActivitySnapshot,
    TokenActivitySource,
};
use crate::text::{
    decimal_text, lower_seq, lower_text, parse_u64_text, parse_unsigned, replace_all,
    replace_text, seq_contains, str_uppercase, text_contains, text_eq, text_to_uppercase, trim,
    trim_text, u64_text,
};

verus! {

broadcast use group_json_views;

/// The Codex CLI that answered the version probe.
#[derive(Debug, Clone)]
pub struct CliProbe {
    pub path: String,
    pub version: String,
}

/// A quota window as (label, percentage left, reset time).
pub open spec fn window_view(w: QuotaWindow) -> (Seq<char>, u8, Option<Seq<char>>) {
    (
        w.label@,
        w.remaining_percent,
        match w.reset_at {
            Some(s) => Some(s@),
            None => None,
        },
    )
}

/// The views of a list of quota windows.
pub open spec fn windows_view(ws: Seq<QuotaWindow>) -> Seq<(Seq<char>, u8, Option<Seq<char>>)> {
    ws.map_values(|w: QuotaWindow| window_view(w))
}

/// Where the answer gives the percentage left of a quota window. The number is worked out
/// from these readings in binary floating point and rounded to a whole percentage, which is
/// the caller's part (see [`windows_with_percentages`]).
#[derive(Debug)]
pub enum PercentReading {
    /// What the window's `usedPercent` leaves of 100.
    LeftAfterUsed(JsonNumber),
    /// The percentage left, as the answer gives it.
    Given(JsonNumber),
    /// `remaining` out of `limit`; zero unless the limit is above zero.
    Ratio(JsonNumber, JsonNumber),
    /// The answer gives no percentage: zero.
    Absent,
}

/// The model of a [`PercentReading`].
pub enum PercentData {
    LeftAfterUsed(NumberData),
    Given(NumberData),
    Ratio(NumberData, NumberData),
    Absent,
}

/// The model of a percentage reading.
pub open spec fn percent_view(p: PercentReading) -> PercentData {
    match p {
        PercentReading::LeftAfterUsed(n) => PercentData::LeftAfterUsed(number_view(n)),
        PercentReading::Given(n) => PercentData::Given(number_view(n)),
        PercentReading::Ratio(r, l) => PercentData::Ratio(number_view(r), number_view(l)),
        PercentReading::Absent => PercentData::Absent,
    }
}

/// A quota window as the answer describes it: its label, where its percentage left is read,
/// and when it resets.
#[derive(Debug)]
pub struct WindowReading {
    pub label: String,
    pub percent: PercentReading,
    pub reset_at: Option<String>,
}

/// A window reading as (label, percentage reading, reset time).
pub open spec fn reading_view(w: WindowReading) -> (Seq<char>, PercentData, Option<Seq<char>>) {
    (
        w.label@,
        percent_view(w.percent),
        match w.reset_at {
            Some(s) => Some(s@),
            None => None,
        },
    )
}

/// The views of a list of window readings.
pub open spec fn readings_view(ws: Seq<WindowReading>) -> Seq<(Seq<char>, PercentData, Option<Seq<char>>)> {
    ws.map_values(|w: WindowReading| reading_view(w))
}

/// The quota windows of the readings, the `i`-th with the percentage `percents[i]`.
pub open spec fn windows_with(
    readings: Seq<(Seq<char>, PercentData, Option<Seq<char>>)>,
    percents: Seq<u8>,
) -> Seq<(Seq<char>, u8, Option<Seq<char>>)> {
    Seq::new(readings.len(), |i: int| (readings[i].0, percents[i], readings[i].2))
}

/// A copy of a number.
fn number_copy(n: &JsonNumber) -> (r: JsonNumber)
    ensures
        r == *n,
{
    match n {
        JsonNumber::PosInt(u) => JsonNumber::PosInt(*u),
        JsonNumber::NegInt(i) => JsonNumber::NegInt(*i),
        JsonNumber::Float(m, e) => JsonNumber::Float(*m, *e),
    }
}

/// The quota windows of the readings, each with the percentage worked out for it.
pub fn windows_with_percentages(readings: &Vec<WindowReading>, percents: &Vec<u8>) -> (r: Vec<
    QuotaWindow,
>)
    requires
        readings@.len() == percents@.len(),
    ensures
        windows_view(r@) == windows_with(readings_view(readings@), percents@),
{
    let mut out: Vec<QuotaWindow> = Vec::new();
    let mut i: usize = 0;
    while i < readings.len()
        invariant
            i <= readings.len(),
            readings@.len() == percents@.len(),
            windows_view(out@) == windows_with(readings_view(readings@), percents@).take(i as int),
        decreases readings.len() - i,
    {
        let w = &readings[i];
        let reset_at = match &w.reset_at {
            Some(s) => Some(s.clone()),
            None => None,
        };
        let q = QuotaWindow { label: w.label.clone(), remaining_percent: percents[i], reset_at };
        let ghost before = out@;
        out.push(q);
        proof {
            let want = windows_with(readings_view(readings@), percents@);
            assert(reading_view(readings@[i as int]) == readings_view(readings@)[i as int]);
            assert(window_view(q) == want[i as int]);
            assert(windows_view(out@) =~= windows_view(before).push(window_view(q)));
            assert(want.take(i + 1) =~= want.take(i as int).push(want[i as int]));
        }
        i += 1;
    }
    assert(windows_with(readings_view(readings@), percents@).take(readings.len() as int)
        =~= windows_with(readings_view(readings@), percents@));
    out
}

/// A timestamp in milliseconds (anything after the year 2286 in seconds) as seconds.
pub open spec fn normalized_timestamp(t: int) -> int {
    if t > 10_000_000_000 {
        t / 1000
    } else {
        t
    }
}

/// A Unix timestamp in seconds; values that are milliseconds are divided by 1000.
pub fn normalize_unix_timestamp(timestamp: i64) -> (r: i64)
    ensures
        r == normalized_timestamp(timestamp as int),
{
    if timestamp > 10_000_000_000 {
        timestamp / 1000
    } else {
        timestamp
    }
}

/// The label of a window's length: whole days as `<n>D`, else whole hours as `<n>H`, else
/// minutes as `<n>M`; none when the length is not reported.
pub open spec fn duration_label(window: JsonData) -> Option<Seq<char>> {
    match window.field("windowDurationMins"@) {
        Some(v) => match v.unsigned() {
            Some(m) => if m % 1440 == 0 {
                Some(decimal_text((m / 1440) as nat) + "D"@)
            } else if m % 60 == 0 {
                Some(decimal_text((m / 60) as nat) + "H"@)
            } else {
                Some(decimal_text(m as nat) + "M"@)
            },
            None => None,
        },
        None => None,
    }
}

/// The label of a window's length (see [`duration_label`]).
pub fn rate_limit_window_duration_label(window: &JsonValue) -> (r: Option<String>)
    ensures
        match r {
            Some(s) => duration_label(window@) == Some(s@),
            None => duration_label(window@) is None,
        },
{
    let m = match window.get("windowDurationMins") {
        Some(v) => match v.as_u64() {
            Some(m) => m,
            None => {
                return None;
            },
        },
        None => {
            return None;
        },
    };
    if m % 1440 == 0 {
        Some(u64_text(m / 1440).concat("D"))
    } else if m % 60 == 0 {
        Some(u64_text(m / 60).concat("H"))
    } else {
        Some(u64_text(m).concat("M"))
    }
}

/// When a window resets: its `resetsAt` timestamp as RFC 3339 text.
pub open spec fn window_reset(window: JsonData) -> Option<Seq<char>> {
    match window.field("resetsAt"@) {
        Some(v) => match v.signed() {
            Some(t) => chrono_timestamp_rfc3339(normalized_timestamp(t)),
            None => None,
        },
        None => None,
    }
}

/// The window of a rate limit labelled `label`, when it reports the percentage used.
pub open spec fn rate_window(label: Seq<char>, window: JsonData) -> Option<
    (Seq<char>, PercentData, Option<Seq<char>>),
> {
    match window.field("usedPercent"@) {
        Some(v) => match v.number() {
            Some(n) => Some((label, PercentData::LeftAfterUsed(n), window_reset(window))),
            None => None,
        },
        None => None,
    }
}

/// The windows appended for one rate-limit window, if any.
pub open spec fn opt_window(w: Option<(Seq<char>, PercentData, Option<Seq<char>>)>) -> Seq<
    (Seq<char>, PercentData, Option<Seq<char>>),
> {
    match w {
        Some(x) => seq![x],
        None => Seq::empty(),
    }
}

/// The name of a rate limit: `limitName` (or `limit_name` when that key is missing) if it is
/// text, else the limit's id.
pub open spec fn limit_name(limit_id: Seq<char>, snapshot: JsonData) -> Seq<char> {
    let v = match snapshot.field("limitName"@) {
        Some(v) => Some(v),
        None => snapshot.field("limit_name"@),
    };
    match v {
        Some(x) => match x.text() {
            Some(t) => t,
            None => limit_id,
        },
        None => limit_id,
    }
}

/// The windows of one rate limit: its primary window (by default five hours) then its
/// secondary one (by default seven days), each labelled with the limit's name and length.
pub open spec fn snapshot_windows(limit_id: Seq<char>, snapshot: JsonData) -> Seq<
    (Seq<char>, PercentData, Option<Seq<char>>),
> {
    let name = limit_name(limit_id, snapshot);
    let primary = match snapshot.field("primary"@) {
        Some(p) => opt_window(
            rate_window(
                name + " "@ + match duration_label(p) {
                    Some(d) => d,
                    None => "5H"@,
                },
                p,
            ),
        ),
        None => Seq::empty(),
    };
    let secondary = match snapshot.field("secondary"@) {
        Some(s) => opt_window(
            rate_window(
                name + " "@ + match duration_label(s) {
                    Some(d) => d,
                    None => "7D"@,
                },
                s,
            ),
        ),
        None => Seq::empty(),
    };
    primary + secondary
}

/// The windows of every rate limit of a `rateLimitsByLimitId` object, in order.
pub open spec fn all_snapshot_windows(e: Seq<(Seq<char>, JsonData)>) -> Seq<
    (Seq<char>, PercentData, Option<Seq<char>>),
>
    decreases e.len(),
{
    if e.len() == 0 {
        Seq::empty()
    } else {
        all_snapshot_windows(e.drop_last()) + snapshot_windows(e.last().0, e.last().1)
    }
}

/// The first of two members that is present.
pub open spec fn field_either(v: JsonData, a: Seq<char>, b: Seq<char>) -> Option<JsonData> {
    match v.field(a) {
        Some(x) => Some(x),
        None => v.field(b),
    }
}

/// Where a window of the older formats gives its percentage left: `remaining_percent` (or
/// `remainingPercent`) when it is a number, else `remaining` out of `limit` (or `total`) when
/// both are numbers, else nowhere.
pub open spec fn item_percent(item: JsonData) -> PercentData {
    match field_either(item, "remaining_percent"@, "remainingPercent"@) {
        Some(v) if v.number() is Some => PercentData::Given(v.number()->0),
        _ => {
            let remaining = match item.field("remaining"@) {
                Some(v) => v.number(),
                None => None,
            };
            let limit = match field_either(item, "limit"@, "total"@) {
                Some(v) => v.number(),
                None => None,
            };
            match (remaining, limit) {
                (Some(r), Some(l)) => PercentData::Ratio(r, l),
                _ => PercentData::Absent,
            }
        },
    }
}

/// When a window of the older formats resets: `reset_at` (or `resetAt`) if it is text.
pub open spec fn item_reset(item: JsonData) -> Option<Seq<char>> {
    match field_either(item, "reset_at"@, "resetAt"@) {
        Some(v) => v.text(),
        None => None,
    }
}

/// The windows of a list in the older formats: each item with a `window` (or `label`) text.
pub open spec fn legacy_array_windows(items: Seq<JsonData>) -> Seq<(Seq<char>, PercentData, Option<Seq<char>>)>
    decreases items.len(),
{
    if items.len() == 0 {
        Seq::empty()
    } else {
        let prev = legacy_array_windows(items.drop_last());
        let item = items.last();
        match field_either(item, "window"@, "label"@) {
            Some(l) => match l.text() {
                Some(t) => prev.push((t, item_percent(item), item_reset(item))),
                None => prev,
            },
            None => prev,
        }
    }
}

/// The windows of an object in the older formats: one per member, labelled by its key.
pub open spec fn legacy_object_windows(e: Seq<(Seq<char>, JsonData)>) -> Seq<
    (Seq<char>, PercentData, Option<Seq<char>>),
>
    decreases e.len(),
{
    if e.len() == 0 {
        Seq::empty()
    } else {
        legacy_object_windows(e.drop_last()).push(
            (e.last().0, item_percent(e.last().1), item_reset(e.last().1)),
        )
    }
}

/// The windows of the older formats: from `rate_limits`, `rateLimits` or `limits`, or the
/// value itself.
pub open spec fn legacy_windows(value: JsonData) -> Seq<(Seq<char>, PercentData, Option<Seq<char>>)> {
    let source = match value.field("rate_limits"@) {
        Some(x) => x,
        None => match value.field("rateLimits"@) {
            Some(x) => x,
            None => match value.field("limits"@) {
                Some(x) => x,
                None => value,
            },
        },
    };
    match source {
        JsonData::Array(items) => legacy_array_windows(items),
        JsonData::Object(e) => legacy_object_windows(e),
        _ => Seq::empty(),
    }
}

/// The quota windows of a rate-limits answer, as readings: those of `rateLimitsByLimitId` if it yields any,
/// else those of `rateLimits` (as limit `codex`) if it yields any, else those of the older
/// formats.
pub open spec fn cli_windows(value: JsonData) -> Seq<(Seq<char>, PercentData, Option<Seq<char>>)> {
    let by_id = match value.field("rateLimitsByLimitId"@) {
        Some(JsonData::Object(e)) => all_snapshot_windows(e),
        _ => Seq::empty(),
    };
    if by_id.len() > 0 {
        by_id
    } else {
        let single = match value.field("rateLimits"@) {
            Some(s) => snapshot_windows("codex"@, s),
            None => Seq::empty(),
        };
        if single.len() > 0 {
            single
        } else {
            legacy_windows(value)
        }
    }
}

/// The first of two members that is present.
fn get_either<'a>(v: &'a JsonValue, a: &str, b: &str) -> (r: Option<&'a JsonValue>)
    ensures
        match r {
            Some(x) => field_either(v@, a@, b@) == Some(x@),
            None => field_either(v@, a@, b@) is None,
        },
{
    match v.get(a) {
        Some(x) => Some(x),
        None => v.get(b),
    }
}

/// Appends the window of a rate limit labelled `label`, when it reports the percentage used.
pub fn append_rate_limit_window(windows: &mut Vec<WindowReading>, label: String, window: &JsonValue)
    ensures
        readings_view(final(windows)@) == readings_view(old(windows)@) + opt_window(
            rate_window(label@, window@),
        ),
{
    let n = match window.get("usedPercent") {
        Some(v) => match v.as_number() {
            Some(n) => n,
            None => {
                assert(readings_view(windows@) + Seq::empty() =~= readings_view(windows@));
                return;
            },
        },
        None => {
            assert(readings_view(windows@) + Seq::empty() =~= readings_view(windows@));
            return;
        },
    };
    let percent = PercentReading::LeftAfterUsed(number_copy(n));
    let reset_at = match window.get("resetsAt") {
        Some(v) => match v.as_i64() {
            Some(t) => timestamp_rfc3339(normalize_unix_timestamp(t)),
            None => None,
        },
        None => None,
    };
    let ghost before = windows@;
    let w = WindowReading { label, percent, reset_at };
    windows.push(w);
    assert(readings_view(windows@) =~= readings_view(before).push(reading_view(w)));
}

/// Appends the windows of one rate limit (see [`snapshot_windows`]).
pub fn append_rate_limit_snapshot(windows: &mut Vec<WindowReading>, limit_id: &str, snapshot: &JsonValue)
    ensures
        readings_view(final(windows)@) == readings_view(old(windows)@) + snapshot_windows(
            limit_id@,
            snapshot@,
        ),
{
    let ghost start = readings_view(windows@);
    let name_value = match snapshot.get("limitName") {
        Some(v) => Some(v),
        None => snapshot.get("limit_name"),
    };
    let name: &str = match name_value {
        Some(x) => match x.as_str() {
            Some(t) => t,
            None => limit_id,
        },
        None => limit_id,
    };
    match snapshot.get("primary") {
        Some(p) => {
            let d = match rate_limit_window_duration_label(p) {
                Some(d) => d,
                None => String::from_str("5H"),
            };
            let label = String::from_str(name).concat(" ").concat(d.as_str());
            append_rate_limit_window(windows, label, p);
        },
        None => {
            assert(readings_view(windows@) =~= start + Seq::empty());
        },
    }
    let ghost mid = readings_view(windows@);
    match snapshot.get("secondary") {
        Some(s) => {
            let d = match rate_limit_window_duration_label(s) {
                Some(d) => d,
                None => String::from_str("7D"),
            };
            let label = String::from_str(name).concat(" ").concat(d.as_str());
            append_rate_limit_window(windows, label, s);
        },
        None => {
            assert(readings_view(windows@) =~= mid + Seq::empty());
        },
    }
    assert(readings_view(windows@) =~= start + snapshot_windows(limit_id@, snapshot@));
}

/// Where a window of the older formats gives its percentage left (see [`item_percent`]).
pub fn percent_reading(item: &JsonValue) -> (r: PercentReading)
    ensures
        percent_view(r) == item_percent(item@),
{
    match get_either(item, "remaining_percent", "remainingPercent") {
        Some(v) => match v.as_number() {
            Some(n) => {
                return PercentReading::Given(number_copy(n));
            },
            None => {},
        },
        None => {},
    }
    let remaining = match item.get("remaining") {
        Some(v) => v.as_number(),
        None => None,
    };
    let limit = match get_either(item, "limit", "total") {
        Some(v) => v.as_number(),
        None => None,
    };
    match (remaining, limit) {
        (Some(r), Some(l)) => PercentReading::Ratio(number_copy(r), number_copy(l)),
        _ => PercentReading::Absent,
    }
}

/// The text of a member given as text.
fn text_field(v: &JsonValue) -> (r: Option<String>)
    ensures
        match r {
            Some(s) => v@.text() == Some(s@),
            None => v@.text() is None,
        },
{
    match v.as_str() {
        Some(s) => Some(String::from_str(s)),
        None => None,
    }
}

/// The windows of a list in the older formats.
fn legacy_array_windows_exec(items: &Vec<JsonValue>) -> (r: Vec<WindowReading>)
    ensures
        readings_view(r@) == legacy_array_windows(json_views(items@)),
{
    let ghost iv = json_views(items@);
    proof {
        lemma_json_views(items@);
    }
    let mut out: Vec<WindowReading> = Vec::new();
    let mut i: usize = 0;
    proof {
        assert(readings_view(out@) =~= legacy_array_windows(iv.take(0)));
    }
    while i < items.len()
        invariant
            i <= items.len(),
            iv == json_views(items@),
            iv.len() == items.len(),
            forall|k: int| 0 <= k < items.len() ==> #[trigger] iv[k] == json_view(items@[k]),
            readings_view(out@) == legacy_array_windows(iv.take(i as int)),
        decreases items.len() - i,
    {
        let item = &items[i];
        proof {
            assert(iv.take(i + 1).drop_last() =~= iv.take(i as int));
            assert(iv.take(i + 1).last() == iv[i as int]);
        }
        match get_either(item, "window", "label") {
            Some(l) => match text_field(l) {
                Some(label) => {
                    let pct = percent_reading(item);
                    let reset_at = match get_either(item, "reset_at", "resetAt") {
                        Some(v) => text_field(v),
                        None => None,
                    };
                    let ghost before = out@;
                    let w = WindowReading { label, percent: pct, reset_at };
                    out.push(w);
                    assert(readings_view(out@) =~= readings_view(before).push(reading_view(w)));
                },
                None => {},
            },
            None => {},
        }
        i += 1;
    }
    proof {
        assert(iv.take(items.len() as int) =~= iv);
    }
    out
}

/// The windows of an object in the older formats.
fn legacy_object_windows_exec(e: &Vec<(String, JsonValue)>) -> (r: Vec<WindowReading>)
    ensures
        readings_view(r@) == legacy_object_windows(entry_views(e@)),
{
    let ghost ev = entry_views(e@);
    proof {
        lemma_entry_views(e@);
    }
    let mut out: Vec<WindowReading> = Vec::new();
    let mut i: usize = 0;
    proof {
        assert(readings_view(out@) =~= legacy_object_windows(ev.take(0)));
    }
    while i < e.len()
        invariant
            i <= e.len(),
            ev == entry_views(e@),
            ev.len() == e.len(),
            forall|k: int| 0 <= k < e.len() ==> #[trigger] ev[k] == (e@[k].0@, json_view(e@[k].1)),
            readings_view(out@) == legacy_object_windows(ev.take(i as int)),
        decreases e.len() - i,
    {
        let item = &e[i].1;
        proof {
            assert(ev.take(i + 1).drop_last() =~= ev.take(i as int));
            assert(ev.take(i + 1).last() == ev[i as int]);
        }
        let pct = percent_reading(item);
        let reset_at = match get_either(item, "reset_at", "resetAt") {
            Some(v) => text_field(v),
            None => None,
        };
        let ghost before = out@;
        let w = WindowReading { label: e[i].0.clone(), percent: pct, reset_at };
        out.push(w);
        assert(readings_view(out@) =~= readings_view(before).push(reading_view(w)));
        i += 1;
    }
    proof {
        assert(ev.take(e.len() as int) =~= ev);
    }
    out
}

/// The quota windows of a rate-limits answer, as readings (see [`cli_windows`]).
pub fn extract_cli_windows(value: &JsonValue) -> (r: Vec<WindowReading>)
    ensures
        readings_view(r@) == cli_windows(value@),
{
    match value.get("rateLimitsByLimitId") {
        Some(by_id) => match by_id.as_object() {
            Some(e) => {
                let ghost ev = entry_views(e@);
                proof {
                    lemma_entry_views(e@);
                }
                let mut windows: Vec<WindowReading> = Vec::new();
                let mut i: usize = 0;
                proof {
                    assert(readings_view(windows@) =~= all_snapshot_windows(ev.take(0)));
                }
                while i < e.len()
                    invariant
                        i <= e.len(),
                        ev == entry_views(e@),
                        ev.len() == e.len(),
                        forall|k: int| 0 <= k < e.len() ==> #[trigger] ev[k] == (e@[k].0@, json_view(e@[k].1)),
                        readings_view(windows@) == all_snapshot_windows(ev.take(i as int)),
                    decreases e.len() - i,
                {
                    proof {
                        assert(ev.take(i + 1).drop_last() =~= ev.take(i as int));
                        assert(ev.take(i + 1).last() == ev[i as int]);
                    }
                    append_rate_limit_snapshot(&mut windows, e[i].0.as_str(), &e[i].1);
                    i += 1;
                }
                proof {
                    assert(ev.take(e.len() as int) =~= ev);
                }
                if windows.len() > 0 {
                    return windows;
                }
            },
            None => {},
        },
        None => {},
    }
    match value.get("rateLimits") {
        Some(s) => {
            let mut windows: Vec<WindowReading> = Vec::new();
            assert(readings_view(windows@) =~= Seq::empty());
            append_rate_limit_snapshot(&mut windows, "codex", s);
            assert(readings_view(windows@) =~= snapshot_windows("codex"@, s@));
            if windows.len() > 0 {
                return windows;
            }
        },
        None => {},
    }
    let source = match value.get("rate_limits") {
        Some(x) => x,
        None => match value.get("rateLimits") {
            Some(x) => x,
            None => match value.get("limits") {
                Some(x) => x,
                None => value,
            },
        },
    };
    match source {
        JsonValue::Array(items) => legacy_array_windows_exec(items),
        JsonValue::Object(e) => legacy_object_windows_exec(e),
        _ => {
            let w: Vec<WindowReading> = Vec::new();
            assert(readings_view(w@) =~= Seq::empty());
            w
        },
    }
}


/// A count given as a non-negative integer or as its decimal text.
pub open spec fn u64_field(v: JsonData) -> Option<int> {
    match v.unsigned() {
        Some(n) => Some(n),
        None => match v.text() {
            Some(t) => parse_unsigned(t),
            None => None,
        },
    }
}

/// A count given as a non-negative integer or as its decimal text.
pub fn parse_u64_field(value: &JsonValue) -> (r: Option<u64>)
    ensures
        crate::text::opt_u64_int(r) == u64_field(value@),
{
    match value.as_u64() {
        Some(n) => Some(n),
        None => match value.as_str() {
            Some(t) => parse_u64_text(t),
            None => None,
        },
    }
}

/// A time given as a Unix timestamp (number or decimal text, in seconds or milliseconds) as
/// RFC 3339 text, or any other text as it is; none for `null` or another value.
pub open spec fn optional_time(v: JsonData) -> Option<Seq<char>> {
    if v.is_null() {
        None
    } else {
        match v.signed() {
            Some(t) => chrono_timestamp_rfc3339(normalized_timestamp(t)),
            None => match v.text() {
                Some(t) => match crate::text::parse_signed(t) {
                    Some(n) => chrono_timestamp_rfc3339(normalized_timestamp(n)),
                    None => Some(t),
                },
                None => None,
            },
        }
    }
}

/// A time member as RFC 3339 text (see [`optional_time`]).
pub fn parse_optional_time_field(value: &JsonValue) -> (r: Option<String>)
    ensures
        match r {
            Some(s) => optional_time(value@) == Some(s@),
            None => optional_time(value@) is None,
        },
{
    if value.is_null() {
        return None;
    }
    match value.as_i64() {
        Some(t) => timestamp_rfc3339(normalize_unix_timestamp(t)),
        None => match value.as_str() {
            Some(text) => match crate::text::parse_i64_text(text) {
                Some(n) => timestamp_rfc3339(normalize_unix_timestamp(n)),
                None => Some(String::from_str(text)),
            },
            None => None,
        },
    }
}

/// A reset credit as (id, title, expiry).
pub open spec fn credit_view(c: RateLimitResetCredit) -> (Seq<char>, Seq<char>, Option<Seq<char>>) {
    (
        c.id@,
        c.title@,
        match c.expires_at {
            Some(s) => Some(s@),
            None => None,
        },
    )
}

/// The reset credit at position `index`: its id (or `reset-credit-<index>`), its title (or
/// the default title) and when it expires.
pub open spec fn reset_credit(v: JsonData, index: int) -> (Seq<char>, Seq<char>, Option<Seq<char>>) {
    let id = match v.field_text("id"@) {
        Some(t) => t,
        None => "reset-credit-"@ + decimal_text(index as nat),
    };
    let title = match v.field_text("title"@) {
        Some(t) => t,
        None => "限额重置"@,
    };
    let expiry = match v.field("expiresAt"@) {
        Some(x) => Some(x),
        None => match v.field("expires_at"@) {
            Some(x) => Some(x),
            None => v.field("expirationTime"@),
        },
    };
    (
        id,
        title,
        match expiry {
            Some(x) => optional_time(x),
            None => None,
        },
    )
}

/// One reset credit (see [`reset_credit`]).
pub fn extract_reset_credit(value: &JsonValue, index: usize) -> (r: RateLimitResetCredit)
    requires
        index <= u64::MAX,
    ensures
        credit_view(r) == reset_credit(value@, index as int),
{
    let id = match value.field_str("id") {
        Some(t) => String::from_str(t),
        None => String::from_str("reset-credit-").concat(u64_text(index as u64).as_str()),
    };
    let title = match value.field_str("title") {
        Some(t) => String::from_str(t),
        None => String::from_str("限额重置"),
    };
    let expiry = match value.get("expiresAt") {
        Some(x) => Some(x),
        None => match value.get("expires_at") {
            Some(x) => Some(x),
            None => value.get("expirationTime"),
        },
    };
    let expires_at = match expiry {
        Some(x) => parse_optional_time_field(x),
        None => None,
    };
    RateLimitResetCredit { id, title, expires_at }
}

/// The reset credits of a rate-limits answer: the available count (required) and each
/// credit in order; none when the member is missing or `null` or the count is missing.
pub open spec fn reset_credits(value: JsonData) -> Option<
    (int, Seq<(Seq<char>, Seq<char>, Option<Seq<char>>)>),
> {
    match value.field("rateLimitResetCredits"@) {
        None => None,
        Some(c) => if c.is_null() {
            None
        } else {
            match field_either(c, "availableCount"@, "available_count"@) {
                Some(v) => match u64_field(v) {
                    Some(count) => Some(
                        (
                            count,
                            match c.field_items("credits"@) {
                                Some(items) => Seq::new(
                                    items.len(),
                                    |i: int| reset_credit(items[i], i),
                                ),
                                None => Seq::empty(),
                            },
                        ),
                    ),
                    None => None,
                },
                None => None,
            }
        },
    }
}

/// The views of a list of reset credits.
pub open spec fn credits_view(cs: Seq<RateLimitResetCredit>) -> Seq<
    (Seq<char>, Seq<char>, Option<Seq<char>>),
> {
    cs.map_values(|c: RateLimitResetCredit| credit_view(c))
}

/// The reset credits of a rate-limits answer (see [`reset_credits`]).
pub fn extract_reset_credits(value: &JsonValue) -> (r: Option<RateLimitResetCredits>)
    ensures
        match r {
            Some(c) => reset_credits(value@) == Some(
                (c.available_count as int, credits_view(c.credits@)),
            ),
            None => reset_credits(value@) is None,
        },
{
    let credits = match value.get("rateLimitResetCredits") {
        Some(c) => c,
        None => {
            return None;
        },
    };
    if credits.is_null() {
        return None;
    }
    let available_count = match get_either(credits, "availableCount", "available_count") {
        Some(v) => match parse_u64_field(v) {
            Some(n) => n,
            None => {
                return None;
            },
        },
        None => {
            return None;
        },
    };
    let mut list: Vec<RateLimitResetCredit> = Vec::new();
    match credits.get("credits") {
        Some(cv) => match cv.as_array() {
            Some(items) => {
                let ghost iv = json_views(items@);
                proof {
                    lemma_json_views(items@);
                }
                let mut i: usize = 0;
                while i < items.len()
                    invariant
                        i <= items.len(),
                        iv == json_views(items@),
                        iv.len() == items.len(),
                        forall|k: int| 0 <= k < items.len() ==> #[trigger] iv[k] == json_view(items@[k]),
                        list@.len() == i,
                        forall|k: int| 0 <= k < i ==> #[trigger] credit_view(list@[k]) == reset_credit(iv[k], k),
                    decreases items.len() - i,
                {
                    let c = extract_reset_credit(&items[i], i);
                    list.push(c);
                    i += 1;
                }
                assert(credits_view(list@) =~= Seq::new(
                    iv.len(),
                    |k: int| reset_credit(iv[k], k),
                ));
            },
            None => {
                assert(credits_view(list@) =~= Seq::empty());
            },
        },
        None => {
            assert(credits_view(list@) =~= Seq::empty());
        },
    }
    Some(RateLimitResetCredits { available_count, credits: list })
}

/// A usage day as (date, tokens).
pub open spec fn bucket_view(b: TokenActivityBucket) -> (Seq<char>, int) {
    (b.date@, b.tokens as int)
}

/// The views of a list of usage days.
pub open spec fn buckets_view(bs: Seq<TokenActivityBucket>) -> Seq<(Seq<char>, int)> {
    bs.map_values(|b: TokenActivityBucket| bucket_view(b))
}

/// The usage days of a usage answer: each bucket with a `startDate` text and a token count,
/// in order; others are skipped.
pub open spec fn usage_buckets(items: Seq<JsonData>) -> Seq<(Seq<char>, int)>
    decreases items.len(),
{
    if items.len() == 0 {
        Seq::empty()
    } else {
        let prev = usage_buckets(items.drop_last());
        let b = items.last();
        match (b.field_text("startDate"@), b.field("tokens"@)) {
            (Some(d), Some(t)) => match u64_field(t) {
                Some(n) => prev.push((d, n)),
                None => prev,
            },
            _ => prev,
        }
    }
}

/// A summary count of a usage answer.
pub open spec fn summary_count(summary: JsonData, key: Seq<char>) -> Option<int> {
    match summary.field(key) {
        Some(v) => u64_field(v),
        None => None,
    }
}

/// The result part of an app-server answer (the answer itself when it has none).
pub open spec fn result_of(v: JsonData) -> JsonData {
    v.field_or_self("result"@)
}

/// Whether a usage answer is read as the given activity: it has a summary, the counts are
/// those of the summary and the days those of `dailyUsageBuckets`.
pub open spec fn usage_matches(value: JsonData, a: TokenActivitySnapshot) -> bool {
    let result = result_of(value);
    let summary = result.field("summary"@)->0;
    &&& a.source == TokenActivitySource::ProfileUsageApi
    &&& crate::text::opt_u64_int(a.lifetime_tokens) == summary_count(summary, "lifetimeTokens"@)
    &&& crate::text::opt_u64_int(a.peak_daily_tokens) == summary_count(summary, "peakDailyTokens"@)
    &&& crate::text::opt_u64_int(a.longest_running_turn_sec) == summary_count(
        summary,
        "longestRunningTurnSec"@,
    )
    &&& crate::text::opt_u64_int(a.current_streak_days) == summary_count(summary, "currentStreakDays"@)
    &&& crate::text::opt_u64_int(a.longest_streak_days) == summary_count(summary, "longestStreakDays"@)
    &&& buckets_view(a.daily_buckets@) == match result.field_items("dailyUsageBuckets"@) {
        Some(items) => usage_buckets(items),
        None => Seq::empty(),
    }
}

fn summary_count_exec(summary: &JsonValue, key: &str) -> (r: Option<u64>)
    ensures
        crate::text::opt_u64_int(r) == summary_count(summary@, key@),
{
    match summary.get(key) {
        Some(v) => parse_u64_field(v),
        None => None,
    }
}

/// The token activity of a usage answer; none when it has no summary.
pub fn parse_cli_usage(value: &JsonValue) -> (r: Option<TokenActivitySnapshot>)
    ensures
        r is None <==> result_of(value@).field("summary"@) is None,
        r matches Some(a) ==> usage_matches(value@, a),
{
    let result = match value.get("result") {
        Some(r) => r,
        None => value,
    };
    let summary = match result.get("summary") {
        Some(s) => s,
        None => {
            return None;
        },
    };
    let mut buckets: Vec<TokenActivityBucket> = Vec::new();
    match result.get("dailyUsageBuckets") {
        Some(bv) => match bv.as_array() {
            Some(items) => {
                let ghost iv = json_views(items@);
                proof {
                    lemma_json_views(items@);
                    assert(buckets_view(buckets@) =~= usage_buckets(iv.take(0)));
                }
                let mut i: usize = 0;
                while i < items.len()
                    invariant
                        i <= items.len(),
                        iv == json_views(items@),
                        iv.len() == items.len(),
                        forall|k: int| 0 <= k < items.len() ==> #[trigger] iv[k] == json_view(items@[k]),
                        buckets_view(buckets@) == usage_buckets(iv.take(i as int)),
                    decreases items.len() - i,
                {
                    proof {
                        assert(iv.take(i + 1).drop_last() =~= iv.take(i as int));
                        assert(iv.take(i + 1).last() == iv[i as int]);
                    }
                    let b = &items[i];
                    match (b.field_str("startDate"), b.get("tokens")) {
                        (Some(d), Some(t)) => match parse_u64_field(t) {
                            Some(n) => {
                                let ghost before = buckets@;
                                let nb = TokenActivityBucket { date: String::from_str(d), tokens: n };
                                buckets.push(nb);
                                assert(buckets_view(buckets@) =~= buckets_view(before).push(
                                    bucket_view(nb),
                                ));
                            },
                            None => {},
                        },
                        _ => {},
                    }
                    i += 1;
                }
                proof {
                    assert(iv.take(items.len() as int) =~= iv);
                }
            },
            None => {
                assert(buckets_view(buckets@) =~= Seq::empty());
            },
        },
        None => {
            assert(buckets_view(buckets@) =~= Seq::empty());
        },
    }
    Some(
        TokenActivitySnapshot {
            source: TokenActivitySource::ProfileUsageApi,
            lifetime_tokens: summary_count_exec(summary, "lifetimeTokens"),
            peak_daily_tokens: summary_count_exec(summary, "peakDailyTokens"),
            longest_running_turn_sec: summary_count_exec(summary, "longestRunningTurnSec"),
            current_streak_days: summary_count_exec(summary, "currentStreakDays"),
            longest_streak_days: summary_count_exec(summary, "longestStreakDays"),
            daily_buckets: buckets,
        },
    )
}

/// The account member of an account answer (the result itself when it has none).
pub open spec fn account_value(account: JsonData) -> JsonData {
    result_of(account).field_or_self("account"@)
}

/// The plan of an account: `planType` (or `plan` when that key is missing) if it is text, in
/// upper case.
pub open spec fn account_plan(account: JsonData) -> Option<Seq<char>> {
    match field_either(account_value(account), "planType"@, "plan"@) {
        Some(v) => match v.text() {
            Some(t) => Some(str_uppercase(t)),
            None => None,
        },
        None => None,
    }
}

/// Whether `r` is the quota reading of the account and rate-limits answers fetched at
/// `fetched_at`, with the percentages worked out for the windows and the usage answer if one
/// was given.
pub open spec fn cli_result_matches(
    account: JsonData,
    quota: JsonData,
    usage: Option<JsonData>,
    percents: Seq<u8>,
    fetched_at: Seq<char>,
    r: QuotaFetchResult,
) -> bool {
    let q = result_of(quota);
    &&& (match r.account.email {
        Some(e) => account_value(account).field_text("email"@) == Some(e@),
        None => account_value(account).field_text("email"@) is None,
    })
    &&& (match r.account.plan {
        Some(p) => account_plan(account) == Some(p@),
        None => account_plan(account) is None,
    })
    &&& r.account.status@ == "已连接"@
    &&& r.account.updated_at@ == fetched_at
    &&& r.quota.source == QuotaSourceKind::CodexCli
    &&& windows_view(r.quota.windows@) == windows_with(cli_windows(q), percents)
    &&& (match r.quota.reset_credits {
        Some(c) => reset_credits(q) == Some((c.available_count as int, credits_view(c.credits@))),
        None => reset_credits(q) is None,
    })
    &&& r.quota.fetched_at@ == fetched_at
    &&& !r.quota.stale
    &&& (match usage {
        Some(u) => match r.token_activity {
            Some(a) => usage_matches(u, a),
            None => result_of(u).field("summary"@) is None,
        },
        None => r.token_activity is None,
    })
}

/// The member `result` of an app-server answer, or the answer itself when it has none.
pub fn result_member(value: &JsonValue) -> (r: &JsonValue)
    ensures
        r@ == result_of(value@),
{
    match value.get("result") {
        Some(r) => r,
        None => value,
    }
}

/// The quota reading of the account and rate-limits answers, fetched at `fetched_at`, with
/// `percents[i]` the percentage left of the `i`-th window the answer describes; refused when the
/// answer has no quota window.
pub fn build_cli_result(
    account: &JsonValue,
    quota: &JsonValue,
    usage: Option<&JsonValue>,
    percents: &Vec<u8>,
    fetched_at: String,
) -> (r: Result<QuotaFetchResult, String>)
    requires
        percents@.len() == cli_windows(result_of(quota@)).len(),
    ensures
        cli_windows(result_of(quota@)).len() == 0 ==> (r matches Err(e) && e@
            == "CLI app-server 未返回可识别额度窗口"@),
        cli_windows(result_of(quota@)).len() > 0 ==> (r matches Ok(res) && cli_result_matches(
            account@,
            quota@,
            match usage { Some(u) => Some(u@), None => None },
            percents@,
            fetched_at@,
            res,
        )),
{
    let account_result = match account.get("result") {
        Some(r) => r,
        None => account,
    };
    let quota_result = match quota.get("result") {
        Some(r) => r,
        None => quota,
    };
    let account_val = match account_result.get("account") {
        Some(a) => a,
        None => account_result,
    };
    let email = match account_val.field_str("email") {
        Some(e) => Some(String::from_str(e)),
        None => None,
    };
    let readings = extract_cli_windows(quota_result);
    let reset_credits = extract_reset_credits(quota_result);
    if readings.len() == 0 {
        return Err(String::from_str("CLI app-server 未返回可识别额度窗口"));
    }
    let plan = match get_either(account_val, "planType", "plan") {
        Some(v) => match v.as_str() {
            Some(t) => Some(text_to_uppercase(t)),
            None => None,
        },
        None => None,
    };
    let token_activity = match usage {
        Some(u) => parse_cli_usage(u),
        None => None,
    };
    let windows = windows_with_percentages(&readings, percents);
    Ok(
        QuotaFetchResult {
            account: AccountSnapshot {
                email,
                plan,
                status: String::from_str("已连接"),
                updated_at: fetched_at.clone(),
            },
            quota: RateLimitSnapshot {
                source: QuotaSourceKind::CodexCli,
                windows,
                reset_credits,
                fetched_at,
                stale: false,
            },
            token_activity,
        },
    )
}

/// The message of an app-server error, with token names masked.
pub open spec fn sanitized_rpc_error(error: JsonData) -> Seq<char> {
    let m = match error.field_text("message"@) {
        Some(t) => t,
        None => "未知错误"@,
    };
    replace_all(replace_all(m, "access_token"@, "token"@), "refresh_token"@, "token"@)
}

/// The message of an app-server error, with `access_token` and `refresh_token` masked.
pub fn sanitize_json_rpc_error(error: &JsonValue) -> (r: String)
    ensures
        r@ == sanitized_rpc_error(error@),
{
    let m = match error.field_str("message") {
        Some(t) => t,
        None => "未知错误",
    };
    proof {
        reveal_strlit("access_token");
        reveal_strlit("refresh_token");
    }
    let a = replace_text(m, "access_token", "token");
    replace_text(a.as_str(), "refresh_token", "token")
}

/// What a line read from the app-server means while waiting for the answer `expected_id`:
/// none for another message (keep reading), the answer, or its error.
pub open spec fn response_outcome(value: JsonData, expected_id: int) -> Option<Result<JsonData, Seq<char>>> {
    match value.field("id"@) {
        Some(id) => if id.signed() == Some(expected_id) {
            match value.field("error"@) {
                Some(e) => Some(Err("CLI app-server 返回错误："@ + sanitized_rpc_error(e))),
                None => Some(Ok(value)),
            }
        } else {
            None
        },
        None => None,
    }
}

/// What a line read from the app-server means while waiting for the answer `expected_id`.
pub fn match_json_response(value: JsonValue, expected_id: i64) -> (r: Option<Result<JsonValue, String>>)
    ensures
        match r {
            None => response_outcome(value@, expected_id as int) is None,
            Some(Ok(v)) => response_outcome(value@, expected_id as int) == Some(
                Ok::<JsonData, Seq<char>>(v@),
            ),
            Some(Err(e)) => response_outcome(value@, expected_id as int) == Some(
                Err::<JsonData, Seq<char>>(e@),
            ),
        },
{
    let matches = match value.get("id") {
        Some(id) => id.as_i64() == Some(expected_id),
        None => false,
    };
    if !matches {
        return None;
    }
    match value.get("error") {
        Some(e) => {
            let m = sanitize_json_rpc_error(e);
            Some(Err(String::from_str("CLI app-server 返回错误：").concat(m.as_str())))
        },
        None => Some(Ok(value)),
    }
}

/// The version a probe reports: the trimmed standard output, or the trimmed error output when
/// the first is empty; refused when the command failed.
pub fn cli_version_from_output(success: bool, stdout: &str, stderr: &str) -> (r: Result<String, String>)
    ensures
        !success ==> (r matches Err(e) && e@ == "CLI --version 返回失败"@),
        success && trim(stdout@).len() > 0 ==> (r matches Ok(v) && v@ == trim(stdout@)),
        success && trim(stdout@).len() == 0 ==> (r matches Ok(v) && v@ == trim(stderr@)),
{
    if !success {
        return Err(String::from_str("CLI --version 返回失败"));
    }
    let out = trim_text(stdout);
    if out.unicode_len() == 0 {
        Ok(trim_text(stderr))
    } else {
        Ok(out)
    }
}

/// Whether a folder name or `package.json` text mentions Codex, ChatGPT or OpenAI, ignoring
/// ASCII case.
pub open spec fn mentions_codex(value: Seq<char>) -> bool {
    let t = lower_seq(value);
    seq_contains(t, "codex"@) || seq_contains(t, "chatgpt"@) || seq_contains(t, "openai"@)
}

/// Whether a folder name or `package.json` text mentions Codex, ChatGPT or OpenAI.
pub fn text_mentions_codex(value: &str) -> (r: bool)
    ensures
        r == mentions_codex(value@),
{
    let t = lower_text(value);
    text_contains(t.as_str(), "codex") || text_contains(t.as_str(), "chatgpt") || text_contains(
        t.as_str(),
        "openai",
    )
}

/// Whether a file name is that of the Codex CLI on the platform, ignoring ASCII case.
pub open spec fn codex_executable_name(name: Seq<char>, windows: bool) -> bool {
    let n = lower_seq(name);
    if windows {
        n == "codex.exe"@ || n == "codex.cmd"@ || n == "codex"@
    } else {
        n == "codex"@
    }
}

/// Whether a file name is that of the Codex CLI on the platform.
pub fn is_codex_executable(name: &str, windows: bool) -> (r: bool)
    ensures
        r == codex_executable_name(name@, windows),
{
    let n = lower_text(name);
    if windows {
        text_eq(n.as_str(), "codex.exe") || text_eq(n.as_str(), "codex.cmd") || text_eq(
            n.as_str(),
            "codex",
        )
    } else {
        text_eq(n.as_str(), "codex")
    }
}

/// The views of a list of texts.
pub open spec fn paths_view(v: Seq<String>) -> Seq<Seq<char>> {
    v.map_values(|s: String| s@)
}

/// The candidates without repeats, each kept at its first place.
pub open spec fn dedup(s: Seq<Seq<char>>) -> Seq<Seq<char>>
    decreases s.len(),
{
    if s.len() == 0 {
        s
    } else {
        let prev = dedup(s.drop_last());
        if prev.contains(s.last()) {
            prev
        } else {
            prev.push(s.last())
        }
    }
}

/// The candidate paths without repeats, each kept at its first place.
pub fn deduplicate_candidates(candidates: Vec<String>) -> (r: Vec<String>)
    ensures
        paths_view(r@) == dedup(paths_view(candidates@)),
{
    let ghost cv = paths_view(candidates@);
    let mut out: Vec<String> = Vec::new();
    let mut i: usize = 0;
    proof {
        assert(paths_view(out@) =~= dedup(cv.take(0)));
    }
    while i < candidates.len()
        invariant
            i <= candidates.len(),
            cv == paths_view(candidates@),
            paths_view(out@) == dedup(cv.take(i as int)),
        decreases candidates.len() - i,
    {
        let ghost ov = paths_view(out@);
        let mut found = false;
        let mut j: usize = 0;
        while j < out.len()
            invariant
                j <= out.len(),
                i < candidates.len(),
                ov == paths_view(out@),
                found <==> exists|m: int| 0 <= m < j && ov[m] == candidates@[i as int]@,
            decreases out.len() - j,
        {
            assert(ov[j as int] == out@[j as int]@);
            if text_eq(out[j].as_str(), candidates[i].as_str()) {
                found = true;
            }
            j += 1;
        }
        proof {
            assert(cv.take(i + 1).drop_last() =~= cv.take(i as int));
            assert(cv.take(i + 1).last() == cv[i as int]);
            assert(cv[i as int] == candidates@[i as int]@);
            if found {
                let m = choose|m: int| 0 <= m < out.len() && ov[m] == candidates@[i as int]@;
                assert(ov.contains(cv[i as int]));
            } else {
                assert(!ov.contains(cv[i as int])) by {
                    if ov.contains(cv[i as int]) {
                        let m = choose|m: int| 0 <= m < ov.len() && ov[m] == cv[i as int];
                        assert(ov[m] == candidates@[i as int]@);
                    }
                }
            }
        }
        if !found {
            let c = candidates[i].clone();
            out.push(c);
            assert(paths_view(out@) =~= ov.push(cv[i as int]));
        }
        i += 1;
    }
    proof {
        assert(cv.take(candidates.len() as int) =~= cv);
    }
    out
}

/// Each candidate appears once in the deduplicated list.
pub proof fn lemma_dedup_no_repeats(s: Seq<Seq<char>>)
    ensures
        forall|i: int, j: int| 0 <= i < j < dedup(s).len() ==> dedup(s)[i] != dedup(s)[j],
        forall|x: Seq<char>| s.contains(x) <==> dedup(s).contains(x),
    decreases s.len(),
{
    if s.len() > 0 {
        lemma_dedup_no_repeats(s.drop_last());
        let prev = dedup(s.drop_last());
        let d = dedup(s);
        assert forall|x: Seq<char>| s.contains(x) <==> d.contains(x) by {
            if s.contains(x) {
                let k = choose|k: int| 0 <= k < s.len() && s[k] == x;
                if k < s.len() - 1 {
                    assert(s.drop_last()[k] == x);
                    assert(s.drop_last().contains(x));
                    assert(prev.contains(x));
                    let m = choose|m: int| 0 <= m < prev.len() && prev[m] == x;
                    if !prev.contains(s.last()) {
                        assert(d[m] == x);
                    }
                } else {
                    if !prev.contains(s.last()) {
                        assert(d[prev.len() as int] == x);
                    }
                }
            }
            if d.contains(x) {
                let m = choose|m: int| 0 <= m < d.len() && d[m] == x;
                if m < prev.len() {
                    assert(prev[m] == x);
                    assert(prev.contains(x));
                    assert(s.drop_last().contains(x));
                    let k = choose|k: int| 0 <= k < s.drop_last().len() && s.drop_last()[k] == x;
                    assert(s[k] == x);
                } else {
                    assert(x == s.last());
                    assert(s[s.len() - 1] == x);
                }
            }
        }
    }
}

} // verus!
