//! Token activity: the heat map of the last 33 weeks, usage streaks, and reading token-count
//! events of the local session logs.
//!
//! Days are day numbers (see [`crate::calendar`]); a week runs from Sunday to Saturday.
use vstd::prelude::*;

use crate::calendar::{
    chrono_parse_ymd, chrono_rfc3339_valid, chrono_ymd_text, first_day, last_day, opt_day,
    parse_ymd, rfc3339_valid, valid_day, weekday_from_sunday, weekday_of, ymd_text,
};
use crate::json::{JsonData, JsonValue};
use crate::models::{HeatmapDay, HookDayStats, TokenActivityBucket, TokenActivitySnapshot, TokenActivitySource};

verus! {

/// The number of days of the heat map: 33 weeks.
pub const HEATMAP_DAYS: usize = 231;

/// The days that chrono reads from the usage buckets, with their tokens, in order; buckets
/// whose date does not read are left out.
pub open spec fn parsed_buckets(bs: Seq<TokenActivityBucket>) -> Seq<(int, int)>
    decreases bs.len(),
{
    if bs.len() == 0 {
        Seq::empty()
    } else {
        let p = parsed_buckets(bs.drop_last());
        match chrono_parse_ymd(bs.last().date@) {
            Some(d) => p.push((d, bs.last().tokens as int)),
            None => p,
        }
    }
}

/// The tokens recorded for day `d`: those of the last bucket of that day, else zero.
pub open spec fn tokens_on(p: Seq<(int, int)>, d: int) -> int
    decreases p.len(),
{
    if p.len() == 0 {
        0
    } else if p.last().0 == d {
        p.last().1
    } else {
        tokens_on(p.drop_last(), d)
    }
}

/// The Sunday that starts the week of day `d`.
pub open spec fn week_start(d: int) -> int {
    d - weekday_from_sunday(d)
}

/// The tokens of the days of `d`'s week from weekday `o` on, counting only days up to today.
pub open spec fn week_sum_from(p: Seq<(int, int)>, d: int, today: int, o: int) -> int
    decreases 7 - o,
{
    if o >= 7 {
        0
    } else {
        let x = week_start(d) + o;
        (if x <= today {
            tokens_on(p, x)
        } else {
            0
        }) + week_sum_from(p, d, today, o + 1)
    }
}

/// The tokens of the week of day `d`, counting only days up to today.
pub open spec fn week_sum(p: Seq<(int, int)>, d: int, today: int) -> int {
    week_sum_from(p, d, today, 0)
}

/// The last day of the heat map: the Saturday ending today's week.
pub open spec fn heatmap_end(today: int) -> int {
    today + 6 - weekday_from_sunday(today)
}

/// The first day of the heat map: 230 days before its last day, a Sunday.
pub open spec fn heatmap_start(today: int) -> int {
    heatmap_end(today) - 230
}

/// The tokens shown for day `d`: none for a day after today.
pub open spec fn daily_at(p: Seq<(int, int)>, today: int, d: int) -> int {
    if d > today {
        0
    } else {
        tokens_on(p, d)
    }
}

/// `a + b`, or the largest `u64` where that overflows.
pub open spec fn sat_add(a: int, b: int) -> int {
    if a + b > u64::MAX {
        u64::MAX as int
    } else {
        a + b
    }
}

/// The running total of the tokens shown up to and including day `start + k`.
pub open spec fn cumulative_at(p: Seq<(int, int)>, today: int, start: int, k: int) -> int
    decreases k + 1,
{
    if k < 0 {
        0
    } else {
        sat_add(cumulative_at(p, today, start, k - 1), daily_at(p, today, start + k))
    }
}

/// The hook statistics recorded under `key`: those of the first entry with that key.
pub open spec fn hook_stats_on(stats: Seq<(String, HookDayStats)>, key: Seq<char>) -> Option<
    HookDayStats,
>
    decreases stats.len(),
{
    if stats.len() == 0 {
        None
    } else if stats[0].0@ == key {
        Some(stats[0].1)
    } else {
        hook_stats_on(stats.drop_first(), key)
    }
}

/// The buckets of the activity, if there is one.
pub open spec fn activity_buckets(activity: Option<&TokenActivitySnapshot>) -> Seq<(int, int)> {
    match activity {
        Some(a) => parsed_buckets(a.daily_buckets@),
        None => Seq::empty(),
    }
}

/// Whether today lies where every day of its heat map can be computed with chrono.
pub open spec fn heatmap_today_in_range(today: int) -> bool {
    first_day() + 240 <= today <= last_day() - 7
}

/// Whether the week totals of the heat map fit in a `u64`.
pub open spec fn heatmap_fits(p: Seq<(int, int)>, today: int) -> bool {
    forall|k: int|
        0 <= k < HEATMAP_DAYS ==> (heatmap_start(today) + k <= today ==> #[trigger] week_sum(
            p,
            heatmap_start(today) + k,
            today,
        ) <= u64::MAX)
}

/// Whether `day` is the heat-map day `start + k` for today, as the heat map shows it.
pub open spec fn heatmap_day_matches(
    day: HeatmapDay,
    p: Seq<(int, int)>,
    stats: Seq<(String, HookDayStats)>,
    today: int,
    k: int,
) -> bool {
    let start = heatmap_start(today);
    let d = start + k;
    &&& day.date@ == chrono_ymd_text(d)
    &&& day.is_future == (d > today)
    &&& day.daily_tokens == daily_at(p, today, d)
    &&& day.weekly_tokens == (if d > today {
        0
    } else {
        week_sum(p, d, today)
    })
    &&& day.cumulative_tokens == cumulative_at(p, today, start, k)
    &&& day.hook_stats == hook_stats_on(stats, chrono_ymd_text(d))
}

/// The days of the activity buckets that chrono reads, with their tokens.
fn parse_buckets(activity: Option<&TokenActivitySnapshot>) -> (r: Vec<(i32, u64)>)
    ensures
        r@.map_values(|x: (i32, u64)| (x.0 as int, x.1 as int)) == activity_buckets(activity),
{
    let mut out: Vec<(i32, u64)> = Vec::new();
    match activity {
        None => {
            assert(out@.map_values(|x: (i32, u64)| (x.0 as int, x.1 as int)) =~= Seq::empty());
        },
        Some(a) => {
            let bs = &a.daily_buckets;
            let mut i: usize = 0;
            assert(out@.map_values(|x: (i32, u64)| (x.0 as int, x.1 as int)) =~= parsed_buckets(
                bs@.take(0),
            ));
            while i < bs.len()
                invariant
                    i <= bs.len(),
                    out@.map_values(|x: (i32, u64)| (x.0 as int, x.1 as int)) == parsed_buckets(
                        bs@.take(i as int),
                    ),
                decreases bs.len() - i,
            {
                proof {
                    assert(bs@.take(i + 1).drop_last() =~= bs@.take(i as int));
                    assert(bs@.take(i + 1).last() == bs@[i as int]);
                }
                match parse_ymd(bs[i].date.as_str()) {
                    Some(d) => {
                        let ghost before = out@;
                        out.push((d, bs[i].tokens));
                        assert(out@.map_values(|x: (i32, u64)| (x.0 as int, x.1 as int))
                            =~= before.map_values(|x: (i32, u64)| (x.0 as int, x.1 as int)).push(
                            (d as int, bs@[i as int].tokens as int),
                        ));
                    },
                    None => {},
                }
                i += 1;
            }
            assert(bs@.take(bs.len() as int) =~= bs@);
        },
    }
    out
}

/// The tokens recorded for day `d` (see [`tokens_on`]).
fn tokens_on_exec(p: &Vec<(i32, u64)>, d: i32) -> (r: u64)
    ensures
        r == tokens_on(p@.map_values(|x: (i32, u64)| (x.0 as int, x.1 as int)), d as int),
{
    let ghost pv = p@.map_values(|x: (i32, u64)| (x.0 as int, x.1 as int));
    assert(pv.take(p.len() as int) =~= pv);
    let mut j: usize = p.len();
    while j > 0
        invariant
            j <= p.len(),
            pv == p@.map_values(|x: (i32, u64)| (x.0 as int, x.1 as int)),
            tokens_on(pv, d as int) == tokens_on(pv.take(j as int), d as int),
        decreases j,
    {
        proof {
            assert(pv.take(j as int).drop_last() =~= pv.take(j - 1));
            assert(pv.take(j as int).last() == pv[j - 1]);
        }
        if p[j - 1].0 == d {
            return p[j - 1].1;
        }
        j -= 1;
    }
    proof {
        assert(pv.take(0) =~= Seq::<(int, int)>::empty());
    }
    0
}

proof fn lemma_tokens_on_bound(p: Seq<(int, int)>, d: int, bound: int)
    requires
        forall|k: int| 0 <= k < p.len() ==> 0 <= (#[trigger] p[k]).1 <= bound,
        0 <= bound,
    ensures
        0 <= tokens_on(p, d) <= bound,
    decreases p.len(),
{
    if p.len() > 0 {
        assert forall|k: int| 0 <= k < p.drop_last().len() implies 0 <= (#[trigger] p.drop_last()[k]).1
            <= bound by {
            assert(p.drop_last()[k] == p[k]);
        }
        lemma_tokens_on_bound(p.drop_last(), d, bound);
        assert(p[p.len() - 1] == p.last());
    }
}

proof fn lemma_week_sum_nonneg(p: Seq<(int, int)>, d: int, today: int, o: int)
    requires
        forall|k: int| 0 <= k < p.len() ==> 0 <= (#[trigger] p[k]).1 <= u64::MAX,
        0 <= o,
    ensures
        0 <= week_sum_from(p, d, today, o),
    decreases 7 - o,
{
    if o < 7 {
        lemma_week_sum_nonneg(p, d, today, o + 1);
        lemma_tokens_on_bound(p, week_start(d) + o, u64::MAX as int);
    }
}

/// The tokens of the week of day `d`, counting only days up to today.
fn week_tokens(p: &Vec<(i32, u64)>, d: i32, today: i32) -> (r: u64)
    requires
        valid_day(d as int),
        first_day() + 7 <= d <= last_day() - 7,
        week_sum(p@.map_values(|x: (i32, u64)| (x.0 as int, x.1 as int)), d as int, today as int)
            <= u64::MAX,
    ensures
        r == week_sum(p@.map_values(|x: (i32, u64)| (x.0 as int, x.1 as int)), d as int, today as int),
{
    let ghost pv = p@.map_values(|x: (i32, u64)| (x.0 as int, x.1 as int));
    proof {
        assert forall|k: int| 0 <= k < pv.len() implies 0 <= (#[trigger] pv[k]).1 <= u64::MAX by {
            assert(pv[k] == (p@[k].0 as int, p@[k].1 as int));
        }
    }
    let start = d - weekday_of(d) as i32;
    let mut total: u64 = 0;
    let mut o: i32 = 0;
    while o < 7
        invariant
            0 <= o <= 7,
            start == week_start(d as int),
            first_day() <= start <= last_day(),
            pv == p@.map_values(|x: (i32, u64)| (x.0 as int, x.1 as int)),
            forall|k: int| 0 <= k < pv.len() ==> 0 <= (#[trigger] pv[k]).1 <= u64::MAX,
            total + week_sum_from(pv, d as int, today as int, o as int) == week_sum(
                pv,
                d as int,
                today as int,
            ),
            week_sum(pv, d as int, today as int) <= u64::MAX,
        decreases 7 - o,
    {
        let x = start + o;
        proof {
            lemma_week_sum_nonneg(pv, d as int, today as int, o + 1);
            lemma_tokens_on_bound(pv, x as int, u64::MAX as int);
        }
        if x <= today {
            let t = tokens_on_exec(p, x);
            total = total + t;
        }
        o += 1;
    }
    total
}

/// The heat map of the 33 weeks ending with the Saturday of today's week: for each day its
/// tokens (none after today), the tokens of its week up to today, the running total, whether
/// it is after today, and the hook statistics recorded for it.
pub fn build_heatmap_days_for_today(
    activity: Option<&TokenActivitySnapshot>,
    hook_stats: &Vec<(String, HookDayStats)>,
    today: i32,
) -> (r: Vec<HeatmapDay>)
    requires
        heatmap_today_in_range(today as int),
        heatmap_fits(activity_buckets(activity), today as int),
    ensures
        r.len() == HEATMAP_DAYS,
        forall|k: int|
            0 <= k < HEATMAP_DAYS ==> heatmap_day_matches(
                #[trigger] r@[k],
                activity_buckets(activity),
                hook_stats@,
                today as int,
                k,
            ),
{
    let p = parse_buckets(activity);
    let ghost pv = activity_buckets(activity);
    proof {
        assert forall|k: int| 0 <= k < pv.len() implies 0 <= (#[trigger] pv[k]).1 <= u64::MAX by {
            assert(pv[k] == (p@[k].0 as int, p@[k].1 as int));
        }
    }
    let end = today + 6 - weekday_of(today) as i32;
    let start = end - 230;
    let mut cumulative: u64 = 0;
    let mut result: Vec<HeatmapDay> = Vec::new();
    let mut index: usize = 0;
    while index < 231
        invariant
            index <= 231,
            heatmap_today_in_range(today as int),
            heatmap_fits(pv, today as int),
            pv == activity_buckets(activity),
            pv == p@.map_values(|x: (i32, u64)| (x.0 as int, x.1 as int)),
            forall|k: int| 0 <= k < pv.len() ==> 0 <= (#[trigger] pv[k]).1 <= u64::MAX,
            start == heatmap_start(today as int),
            result.len() == index,
            cumulative == cumulative_at(pv, today as int, start as int, index - 1),
            forall|k: int|
                0 <= k < index ==> heatmap_day_matches(
                    #[trigger] result@[k],
                    pv,
                    hook_stats@,
                    today as int,
                    k,
                ),
        decreases 231 - index,
    {
        let date = start + index as i32;
        let is_future = date > today;
        proof {
            lemma_tokens_on_bound(pv, date as int, u64::MAX as int);
        }
        let daily_tokens: u64 = if is_future {
            0
        } else {
            tokens_on_exec(&p, date)
        };
        cumulative = cumulative.saturating_add(daily_tokens);
        let weekly_tokens: u64 = if is_future {
            0
        } else {
            assert(heatmap_start(today as int) + index as int <= today ==> week_sum(
                pv,
                heatmap_start(today as int) + index as int,
                today as int,
            ) <= u64::MAX);
            week_tokens(&p, date, today)
        };
        let text = ymd_text(date);
        let hook = hook_stats_lookup(hook_stats, text.as_str());
        let day = HeatmapDay {
            date: text,
            daily_tokens,
            weekly_tokens,
            cumulative_tokens: cumulative,
            is_future,
            hook_stats: hook,
        };
        result.push(day);
        index += 1;
    }
    result
}

/// The hook statistics recorded under `key`.
pub fn hook_stats_lookup(stats: &Vec<(String, HookDayStats)>, key: &str) -> (r: Option<HookDayStats>)
    ensures
        r == hook_stats_on(stats@, key@),
{
    let mut i: usize = 0;
    assert(stats@.skip(0) =~= stats@);
    while i < stats.len()
        invariant
            i <= stats.len(),
            hook_stats_on(stats@, key@) == hook_stats_on(stats@.skip(i as int), key@),
        decreases stats.len() - i,
    {
        proof {
            assert(stats@.skip(i as int).drop_first() =~= stats@.skip(i + 1));
            assert(stats@.skip(i as int)[0] == stats@[i as int]);
        }
        if text_eq_str(&stats[i].0, key) {
            return Some(stats[i].1);
        }
        i += 1;
    }
    proof {
        assert(stats@.skip(stats.len() as int) =~= Seq::<(String, HookDayStats)>::empty());
    }
    None
}

fn text_eq_str(a: &String, b: &str) -> (r: bool)
    ensures
        r == (a@ == b@),
{
    crate::text::text_eq(a.as_str(), b)
}

/// Whether `days` is the heat map of the activity and hook statistics on the day `today`.
pub open spec fn heatmap_for_today(
    days: Seq<HeatmapDay>,
    p: Seq<(int, int)>,
    hook_stats: Seq<(String, HookDayStats)>,
    today: int,
) -> bool {
    &&& days.len() == HEATMAP_DAYS
    &&& forall|k: int|
        0 <= k < HEATMAP_DAYS ==> heatmap_day_matches(#[trigger] days[k], p, hook_stats, today, k)
}

/// The buckets of an optional activity.
pub open spec fn buckets_of(activity: Option<TokenActivitySnapshot>) -> Seq<(int, int)> {
    match activity {
        Some(a) => parsed_buckets(a.daily_buckets@),
        None => Seq::empty(),
    }
}

/// Whether the heat map of the day `today` can be computed: today lies where every day of the
/// map has a date and every week total fits in a `u64`.
pub open spec fn heatmap_computable(p: Seq<(int, int)>, today: int) -> bool {
    heatmap_today_in_range(today) && heatmap_fits(p, today)
}

/// The heat map on the day `today` (the caller's local date); none when today lies where the
/// heat map cannot be computed or a week total would not fit in a `u64`.
pub fn build_heatmap_days(
    activity: Option<&TokenActivitySnapshot>,
    hook_stats: &Vec<(String, HookDayStats)>,
    today: i32,
) -> (r: Option<Vec<HeatmapDay>>)
    ensures
        r is Some <==> heatmap_computable(activity_buckets(activity), today as int),
        r matches Some(days) ==> heatmap_for_today(
            days@,
            activity_buckets(activity),
            hook_stats@,
            today as int,
        ),
{
    if today < -95745889 || today > 95745392 {
        return None;
    }
    if !heatmap_fits_exec(activity, today) {
        return None;
    }
    Some(build_heatmap_days_for_today(activity, hook_stats, today))
}

/// Whether the week totals of today's heat map fit in a `u64`.
fn heatmap_fits_exec(activity: Option<&TokenActivitySnapshot>, today: i32) -> (r: bool)
    requires
        heatmap_today_in_range(today as int),
    ensures
        r == heatmap_fits(activity_buckets(activity), today as int),
{
    let p = parse_buckets(activity);
    let ghost pv = activity_buckets(activity);
    let end = today + 6 - weekday_of(today) as i32;
    let start = end - 230;
    let mut index: i32 = 0;
    while index < 231
        invariant
            0 <= index <= 231,
            heatmap_today_in_range(today as int),
            pv == activity_buckets(activity),
            pv == p@.map_values(|x: (i32, u64)| (x.0 as int, x.1 as int)),
            start == heatmap_start(today as int),
            forall|k: int|
                0 <= k < index ==> (start + k <= today ==> #[trigger] week_sum(pv, start + k, today as int)
                    <= u64::MAX),
        decreases 231 - index,
    {
        let date = start + index;
        if date <= today {
            if !week_fits(&p, date, today) {
                assert(!(start + index <= today ==> week_sum(pv, start + index, today as int)
                    <= u64::MAX));
                return false;
            }
        }
        index += 1;
    }
    true
}

/// Whether the tokens of day `d`'s week up to today fit in a `u64`.
fn week_fits(p: &Vec<(i32, u64)>, d: i32, today: i32) -> (r: bool)
    requires
        first_day() + 7 <= d <= last_day() - 7,
    ensures
        r == (week_sum(p@.map_values(|x: (i32, u64)| (x.0 as int, x.1 as int)), d as int, today as int)
            <= u64::MAX),
{
    let ghost pv = p@.map_values(|x: (i32, u64)| (x.0 as int, x.1 as int));
    proof {
        assert forall|k: int| 0 <= k < pv.len() implies 0 <= (#[trigger] pv[k]).1 <= u64::MAX by {
            assert(pv[k] == (p@[k].0 as int, p@[k].1 as int));
        }
    }
    let start = d - weekday_of(d) as i32;
    let mut total: u64 = 0;
    let mut o: i32 = 0;
    while o < 7
        invariant
            0 <= o <= 7,
            start == week_start(d as int),
            first_day() <= start <= last_day(),
            pv == p@.map_values(|x: (i32, u64)| (x.0 as int, x.1 as int)),
            forall|k: int| 0 <= k < pv.len() ==> 0 <= (#[trigger] pv[k]).1 <= u64::MAX,
            total + week_sum_from(pv, d as int, today as int, o as int) == week_sum(
                pv,
                d as int,
                today as int,
            ),
        decreases 7 - o,
    {
        let x = start + o;
        proof {
            lemma_week_sum_nonneg(pv, d as int, today as int, o + 1);
            lemma_tokens_on_bound(pv, x as int, u64::MAX as int);
        }
        if x <= today {
            let t = tokens_on_exec(p, x);
            match total.checked_add(t) {
                Some(s) => {
                    total = s;
                },
                None => {
                    return false;
                },
            }
        }
        o += 1;
    }
    true
}

/// The heat map runs from a Sunday to the Saturday of today's week, and today is one of its
/// last seven days.
pub proof fn lemma_heatmap_aligned(today: int)
    ensures
        weekday_from_sunday(heatmap_start(today)) == 0,
        weekday_from_sunday(heatmap_end(today)) == 6,
        heatmap_end(today) - heatmap_start(today) + 1 == HEATMAP_DAYS,
        today <= heatmap_end(today) <= today + 6,
{
    let w = today % 7;
    assert(0 <= w < 7);
    assert(heatmap_end(today) == today - w + 6);
    assert((today - w) % 7 == 0) by {
        assert(today == 7 * (today / 7) + w);
        assert(today - w == 7 * (today / 7));
        vstd::arithmetic::div_mod::lemma_mod_multiples_basic(today / 7, 7);
    }
    assert(heatmap_start(today) == (today - w) - 224);
    vstd::arithmetic::div_mod::lemma_mod_multiples_basic(today / 7 - 32, 7);
    assert((today - w) - 224 == 7 * (today / 7 - 32));
    vstd::arithmetic::div_mod::lemma_mod_multiples_basic(today / 7, 7);
    assert(heatmap_end(today) == 7 * (today / 7) + 6);
    vstd::arithmetic::div_mod::lemma_fundamental_div_mod_converse(heatmap_end(today), 7, today / 7, 6);
}


/// The tokens shown for the heat-map days `a..b`, added up.
pub open spec fn shown_daily_sum(days: Seq<HeatmapDay>, a: int, b: int) -> int
    decreases b - a,
{
    if a >= b {
        0
    } else {
        days[a].daily_tokens + shown_daily_sum(days, a + 1, b)
    }
}

proof fn lemma_week_sum_same_week(p: Seq<(int, int)>, d1: int, d2: int, today: int, o: int)
    requires
        week_start(d1) == week_start(d2),
    ensures
        week_sum_from(p, d1, today, o) == week_sum_from(p, d2, today, o),
    decreases 7 - o,
{
    if o < 7 {
        lemma_week_sum_same_week(p, d1, d2, today, o + 1);
    }
}

proof fn lemma_week_sum_shown(
    days: Seq<HeatmapDay>,
    p: Seq<(int, int)>,
    stats: Seq<(String, HookDayStats)>,
    today: int,
    ws: int,
    o: int,
)
    requires
        heatmap_for_today(days, p, stats, today),
        0 <= ws,
        ws + 7 <= HEATMAP_DAYS,
        week_start(heatmap_start(today) + ws) == heatmap_start(today) + ws,
        0 <= o <= 7,
    ensures
        week_sum_from(p, heatmap_start(today) + ws, today, o) == shown_daily_sum(
            days,
            ws + o,
            ws + 7,
        ),
    decreases 7 - o,
{
    if o < 7 {
        lemma_week_sum_shown(days, p, stats, today, ws, o + 1);
        assert(heatmap_day_matches(days[ws + o], p, stats, today, ws + o));
    }
}

/// A day's week total in the heat map is the sum of the tokens the heat map shows for the
/// seven days of its row, the Sunday-to-Saturday week it lies in (days after today show no
/// tokens). So every day of one week, up to today, shows the same week total.
pub proof fn lemma_heatmap_week_totals(
    days: Seq<HeatmapDay>,
    p: Seq<(int, int)>,
    stats: Seq<(String, HookDayStats)>,
    today: int,
    k: int,
    j: int,
)
    requires
        heatmap_for_today(days, p, stats, today),
        0 <= k < HEATMAP_DAYS,
        0 <= j < HEATMAP_DAYS,
        !days[k].is_future,
        !days[j].is_future,
        k / 7 == j / 7,
    ensures
        days[k].weekly_tokens == shown_daily_sum(days, k - k % 7, k - k % 7 + 7),
        days[j].weekly_tokens == days[k].weekly_tokens,
{
    lemma_heatmap_week_total(days, p, stats, today, k);
    lemma_heatmap_week_total(days, p, stats, today, j);
    assert(j - j % 7 == k - k % 7);
}

/// Each day's running total in the heat map is the previous day's running total plus the
/// tokens shown for that day (held at the largest `u64`), starting from the first day's
/// tokens; days after today show no tokens, so the running total stops growing after today.
pub proof fn lemma_heatmap_running_total(
    days: Seq<HeatmapDay>,
    p: Seq<(int, int)>,
    stats: Seq<(String, HookDayStats)>,
    today: int,
    k: int,
)
    requires
        heatmap_for_today(days, p, stats, today),
        0 <= k < HEATMAP_DAYS,
    ensures
        k == 0 ==> days[k].cumulative_tokens == days[k].daily_tokens,
        k > 0 ==> days[k].cumulative_tokens == sat_add(
            days[k - 1].cumulative_tokens as int,
            days[k].daily_tokens as int,
        ),
        days[k].is_future ==> days[k].daily_tokens == 0,
{
    assert(heatmap_day_matches(days[k], p, stats, today, k));
    if k > 0 {
        assert(heatmap_day_matches(days[k - 1], p, stats, today, k - 1));
    } else {
        assert(cumulative_at(p, today, heatmap_start(today), -1) == 0);
    }
}

proof fn lemma_heatmap_week_total(
    days: Seq<HeatmapDay>,
    p: Seq<(int, int)>,
    stats: Seq<(String, HookDayStats)>,
    today: int,
    k: int,
)
    requires
        heatmap_for_today(days, p, stats, today),
        0 <= k < HEATMAP_DAYS,
        !days[k].is_future,
    ensures
        days[k].weekly_tokens == shown_daily_sum(days, k - k % 7, k - k % 7 + 7),
{
    lemma_heatmap_aligned(today);
    let start = heatmap_start(today);
    let q = start / 7;
    assert(start == 7 * q + start % 7);
    assert(start % 7 == 0);
    assert(start == 7 * q);
    vstd::arithmetic::div_mod::lemma_mod_multiples_vanish(q, k, 7);
    vstd::arithmetic::div_mod::lemma_mod_multiples_vanish(q, k - k % 7, 7);
    assert(k == 7 * (k / 7) + k % 7);
    vstd::arithmetic::div_mod::lemma_mod_multiples_basic(k / 7, 7);
    let ws = k - k % 7;
    assert(ws % 7 == 0);
    assert(k / 7 <= 32);
    assert(week_start(start + k) == start + ws);
    assert(week_start(start + ws) == start + ws);
    assert(heatmap_day_matches(days[k], p, stats, today, k));
    lemma_week_sum_shown(days, p, stats, today, ws, 0);
    lemma_week_sum_same_week(p, start + k, start + ws, today, 0);
}

/// The days of the buckets that have tokens and whose date chrono reads, in order.
pub open spec fn active_days(bs: Seq<TokenActivityBucket>) -> Seq<int>
    decreases bs.len(),
{
    if bs.len() == 0 {
        Seq::empty()
    } else {
        let p = active_days(bs.drop_last());
        if bs.last().tokens > 0 {
            match chrono_parse_ymd(bs.last().date@) {
                Some(d) => p.push(d),
                None => p,
            }
        } else {
            p
        }
    }
}

/// The length of the run of consecutive days that ends at position `i`.
pub open spec fn run_end(a: Seq<int>, i: int) -> int
    decreases i,
{
    if i <= 0 {
        1
    } else if a[i] == a[i - 1] + 1 {
        run_end(a, i - 1) + 1
    } else {
        1
    }
}

/// The longest run of consecutive days among the first `n` positions.
pub open spec fn longest_run(a: Seq<int>, n: int) -> int
    decreases n,
{
    if n <= 0 {
        0
    } else {
        let prev = longest_run(a, n - 1);
        let here = run_end(a, n - 1);
        if prev >= here {
            prev
        } else {
            here
        }
    }
}

/// The current streak (the run ending at the last active day, when that day is today) and the
/// longest streak of the active days.
pub open spec fn streaks(a: Seq<int>, today: int) -> (int, int) {
    if a.len() == 0 {
        (0, 0)
    } else {
        (
            if a.last() == today {
                run_end(a, a.len() - 1)
            } else {
                0
            },
            longest_run(a, a.len() as int),
        )
    }
}

proof fn lemma_run_end_bounds(a: Seq<int>, i: int)
    requires
        0 <= i,
    ensures
        1 <= run_end(a, i) <= i + 1,
    decreases i,
{
    if i > 0 {
        lemma_run_end_bounds(a, i - 1);
    }
}

/// The current streak is never longer than the longest one.
pub proof fn lemma_current_streak_within_longest(a: Seq<int>, today: int)
    ensures
        streaks(a, today).0 <= streaks(a, today).1,
{
    if a.len() > 0 {
        let n = a.len() as int;
        lemma_run_end_bounds(a, n - 1);
        assert(longest_run(a, n) >= run_end(a, n - 1));
    }
}

/// Whether the active days at positions `i..=j` follow one another day by day.
pub open spec fn consecutive(a: Seq<int>, i: int, j: int) -> bool {
    forall|m: int| i <= m < j ==> #[trigger] a[m + 1] == a[m] + 1
}

proof fn lemma_run_end_shape(a: Seq<int>, i: int)
    requires
        0 <= i < a.len(),
    ensures
        1 <= run_end(a, i) <= i + 1,
        forall|k: int| 0 <= k < run_end(a, i) ==> #[trigger] a[i - k] == a[i] - k,
        run_end(a, i) <= i ==> a[i - run_end(a, i)] != a[i] - run_end(a, i),
    decreases i,
{
    if i > 0 {
        lemma_run_end_shape(a, i - 1);
        if a[i] == a[i - 1] + 1 {
            assert forall|k: int| 0 <= k < run_end(a, i) implies #[trigger] a[i - k] == a[i] - k by {
                if k > 0 {
                    assert(a[(i - 1) - (k - 1)] == a[i - 1] - (k - 1));
                }
            }
        }
    }
}

proof fn lemma_run_end_covers(a: Seq<int>, i: int, j: int)
    requires
        0 <= i <= j < a.len(),
        consecutive(a, i, j),
    ensures
        run_end(a, j) >= j - i + 1,
    decreases j,
{
    lemma_run_end_bounds(a, j);
    if j > i {
        assert(a[(j - 1) + 1] == a[j - 1] + 1);
        assert(a[j] == a[j - 1] + 1);
        lemma_run_end_covers(a, i, j - 1);
        assert(run_end(a, j) == run_end(a, j - 1) + 1);
    }
}

proof fn lemma_longest_run_shape(a: Seq<int>, n: int)
    requires
        0 <= n <= a.len(),
    ensures
        forall|m: int| 0 <= m < n ==> longest_run(a, n) >= #[trigger] run_end(a, m),
        n > 0 ==> exists|m: int| 0 <= m < n && longest_run(a, n) == run_end(a, m),
    decreases n,
{
    if n > 0 {
        lemma_longest_run_shape(a, n - 1);
        if n - 1 > 0 {
            let m = choose|m: int| 0 <= m < n - 1 && longest_run(a, n - 1) == run_end(a, m);
            if longest_run(a, n - 1) >= run_end(a, n - 1) {
                assert(longest_run(a, n) == run_end(a, m));
            } else {
                assert(longest_run(a, n) == run_end(a, n - 1));
            }
        } else {
            assert(longest_run(a, n) == run_end(a, 0)) by {
                lemma_run_end_bounds(a, 0);
            }
        }
    }
}

/// The current streak counts the active days that run without a gap up to today: when the
/// last active day is today and the current streak is `n`, the last `n` active days are today,
/// the day before, and so on, and the active day before them (if any) is not the day before
/// that run. When the last active day is not today, there is no current streak.
pub proof fn lemma_current_streak_ends_today(a: Seq<int>, today: int)
    requires
        a.len() > 0,
    ensures
        a.last() != today ==> streaks(a, today).0 == 0,
        a.last() == today ==> 1 <= streaks(a, today).0 <= a.len(),
        a.last() == today ==> forall|k: int|
            0 <= k < streaks(a, today).0 ==> #[trigger] a[a.len() - 1 - k] == today - k,
        a.last() == today && streaks(a, today).0 < a.len() ==> a[a.len() - 1 - streaks(a, today).0]
            != today - streaks(a, today).0,
{
    lemma_run_end_shape(a, a.len() - 1);
}

/// The longest streak is the length of the longest stretch of active days, in the order they
/// come, that follow one another day by day: no such stretch is longer, and one has that
/// length (none without active days).
pub proof fn lemma_longest_streak_is_longest_stretch(a: Seq<int>, today: int)
    ensures
        forall|i: int, j: int|
            0 <= i <= j < a.len() && consecutive(a, i, j) ==> j - i + 1 <= streaks(a, today).1,
        a.len() == 0 ==> streaks(a, today).1 == 0,
        a.len() > 0 ==> exists|i: int, j: int|
            0 <= i <= j < a.len() && consecutive(a, i, j) && j - i + 1 == streaks(a, today).1,
{
    let n = a.len() as int;
    lemma_longest_run_shape(a, n);
    assert forall|i: int, j: int|
        0 <= i <= j < a.len() && consecutive(a, i, j) implies j - i + 1 <= streaks(a, today).1 by {
        lemma_run_end_covers(a, i, j);
        assert(longest_run(a, n) >= run_end(a, j));
    }
    if n > 0 {
        let m = choose|m: int| 0 <= m < n && longest_run(a, n) == run_end(a, m);
        lemma_run_end_shape(a, m);
        let i = m - run_end(a, m) + 1;
        assert forall|x: int| i <= x < m implies #[trigger] a[x + 1] == a[x] + 1 by {
            assert(a[m - (m - x)] == a[m] - (m - x));
            assert(a[m - (m - x - 1)] == a[m] - (m - x - 1));
        }
        assert(consecutive(a, i, m));
    }
}

/// The current and longest usage streaks of the buckets, for the day `today`.
pub fn calculate_streaks_for_today(buckets: &Vec<TokenActivityBucket>, today: i32) -> (r: (u64, u64))
    ensures
        r.0 == streaks(active_days(buckets@), today as int).0,
        r.1 == streaks(active_days(buckets@), today as int).1,
{
    let mut days: Vec<i32> = Vec::new();
    let mut i: usize = 0;
    assert(days@.map_values(|x: i32| x as int) =~= active_days(buckets@.take(0)));
    while i < buckets.len()
        invariant
            i <= buckets.len(),
            days.len() <= i,
            days@.map_values(|x: i32| x as int) == active_days(buckets@.take(i as int)),
        decreases buckets.len() - i,
    {
        proof {
            assert(buckets@.take(i + 1).drop_last() =~= buckets@.take(i as int));
            assert(buckets@.take(i + 1).last() == buckets@[i as int]);
        }
        if buckets[i].tokens > 0 {
            match parse_ymd(buckets[i].date.as_str()) {
                Some(d) => {
                    let ghost before = days@;
                    days.push(d);
                    assert(days@.map_values(|x: i32| x as int) =~= before.map_values(
                        |x: i32| x as int,
                    ).push(d as int));
                },
                None => {},
            }
        }
        i += 1;
    }
    assert(buckets@.take(buckets.len() as int) =~= buckets@);
    let ghost a = active_days(buckets@);
    if days.len() == 0 {
        return (0, 0);
    }
    let mut longest: u64 = 1;
    let mut current: u64 = 1;
    let mut k: usize = 1;
    proof {
        assert(a[0] == days@[0] as int);
        assert(run_end(a, 0) == 1);
        assert(longest_run(a, 0) == 0);
        assert(longest_run(a, 1) == 1);
    }
    while k < days.len()
        invariant
            1 <= k <= days.len(),
            days.len() <= buckets.len(),
            a == days@.map_values(|x: i32| x as int),
            a.len() == days.len(),
            current == run_end(a, k - 1),
            1 <= current <= k,
            1 <= longest <= k,
            (if longest >= current {
                longest as int
            } else {
                current as int
            }) == longest_run(a, k as int),
        decreases days.len() - k,
    {
        proof {
            assert(a[k as int] == days@[k as int] as int);
            assert(a[k - 1] == days@[k - 1] as int);
            lemma_run_end_bounds(a, k as int);
        }
        if days[k - 1] < 2147483647 && days[k] == days[k - 1] + 1 {
            current += 1;
        } else {
            if current > longest {
                longest = current;
            }
            current = 1;
        }
        k += 1;
    }
    if current > longest {
        longest = current;
    }
    let last = days[days.len() - 1];
    proof {
        assert(a.last() == last as int);
    }
    let current_streak = if last == today {
        current
    } else {
        0
    };
    (current_streak, longest)
}

/// The day of an event time: `local_day` (its day in the local time zone, as the caller read
/// it) when it is an RFC 3339 date-and-time, else the day of a `YYYY-MM-DD` text.
pub open spec fn token_time_day(t: Seq<char>, local_day: Option<int>) -> Option<int> {
    if chrono_rfc3339_valid(t) {
        local_day
    } else {
        chrono_parse_ymd(t)
    }
}

/// The day of an event time (see [`token_time_day`]).
pub fn parse_event_date(value: &str, local_day: Option<i32>) -> (r: Option<i32>)
    ensures
        opt_day(r) == token_time_day(value@, opt_day(local_day)),
{
    if rfc3339_valid(value) {
        local_day
    } else {
        parse_ymd(value)
    }
}

/// The token count of a `token_count` event: the total of its last token usage.
pub open spec fn token_event_tokens(value: JsonData) -> Option<int> {
    match value.field("payload"@) {
        Some(payload) => if payload.field_text("type"@) == Some("token_count"@) {
            match payload.field("info"@) {
                Some(info) => match info.field("last_token_usage"@) {
                    Some(usage) => match usage.field("total_tokens"@) {
                        Some(t) => t.unsigned(),
                        None => None,
                    },
                    None => None,
                },
                None => None,
            }
        } else {
            None
        },
        None => None,
    }
}

/// The time text of an event: `timestamp`, or `time` when that key is missing.
pub open spec fn token_event_time(value: JsonData) -> Option<Seq<char>> {
    match crate::cli::field_either(value, "timestamp"@, "time"@) {
        Some(v) => v.text(),
        None => None,
    }
}

/// The day and tokens of a `token_count` event, with `local_day` the local day of its time
/// where that is an RFC 3339 date-and-time; none for another line.
pub open spec fn token_event_spec(value: JsonData, local_day: Option<int>) -> Option<(int, int)> {
    match (token_event_tokens(value), token_event_time(value)) {
        (Some(t), Some(time)) => match token_time_day(time, local_day) {
            Some(d) => Some((d, t)),
            None => None,
        },
        _ => None,
    }
}

/// The time text of a session-log event (see [`token_event_time`]).
pub fn token_event_time_text(value: &JsonValue) -> (r: Option<String>)
    ensures
        crate::hook_stats::opt_text(r) == token_event_time(value@),
{
    let time = match value.get("timestamp") {
        Some(v) => Some(v),
        None => value.get("time"),
    };
    match time {
        Some(v) => match v.as_str() {
            Some(t) => Some(String::from_str(t)),
            None => None,
        },
        None => None,
    }
}

/// The day and tokens of a `token_count` event of a session log (see [`token_event_spec`]).
pub fn parse_token_count_event(value: &JsonValue, local_day: Option<i32>) -> (r: Option<(i32, u64)>)
    ensures
        match r {
            Some((d, t)) => token_event_spec(value@, opt_day(local_day)) == Some(
                (d as int, t as int),
            ),
            None => token_event_spec(value@, opt_day(local_day)) is None,
        },
{
    let payload = match value.get("payload") {
        Some(p) => p,
        None => {
            return None;
        },
    };
    let is_count = match payload.field_str("type") {
        Some(t) => crate::text::text_eq(t, "token_count"),
        None => false,
    };
    if !is_count {
        return None;
    }
    let tokens = match payload.get("info") {
        Some(info) => match info.get("last_token_usage") {
            Some(usage) => match usage.get("total_tokens") {
                Some(t) => t.as_u64(),
                None => None,
            },
            None => None,
        },
        None => None,
    };
    let tokens = match tokens {
        Some(t) => t,
        None => {
            return None;
        },
    };
    let time = match value.get("timestamp") {
        Some(v) => Some(v),
        None => value.get("time"),
    };
    let text = match time {
        Some(v) => match v.as_str() {
            Some(t) => t,
            None => {
                return None;
            },
        },
        None => {
            return None;
        },
    };
    match parse_event_date(text, local_day) {
        Some(d) => Some((d, tokens)),
        None => None,
    }
}

/// Whether the daily totals are ordered by day with no day twice.
pub open spec fn days_ascending(s: Seq<(i32, u64)>) -> bool {
    forall|i: int, j: int| 0 <= i < j < s.len() ==> s[i].0 < s[j].0
}

/// The total recorded for day `d`, if any.
pub open spec fn daily_total(s: Seq<(i32, u64)>, d: int) -> Option<int> {
    if exists|k: int| 0 <= k < s.len() && s[k].0 == d {
        Some(s[choose|k: int| 0 <= k < s.len() && s[k].0 == d].1 as int)
    } else {
        None
    }
}

proof fn lemma_total_at(s: Seq<(i32, u64)>, k: int)
    requires
        days_ascending(s),
        0 <= k < s.len(),
    ensures
        daily_total(s, s[k].0 as int) == Some(s[k].1 as int),
{
    let d = s[k].0 as int;
    assert(exists|j: int| 0 <= j < s.len() && s[j].0 == d);
    let j = choose|j: int| 0 <= j < s.len() && s[j].0 == d;
    if j < k {
        assert(s[j].0 < s[k].0);
    } else if j > k {
        assert(s[k].0 < s[j].0);
    }
}

proof fn lemma_update_totals(s0: Seq<(i32, u64)>, i: int, day: i32, total: u64)
    requires
        days_ascending(s0),
        0 <= i < s0.len(),
        s0[i].0 == day,
    ensures
        days_ascending(s0.update(i, (day, total))),
        daily_total(s0, day as int) == Some(s0[i].1 as int),
        daily_total(s0.update(i, (day, total)), day as int) == Some(total as int),
        forall|d: int| d != day ==> daily_total(s0.update(i, (day, total)), d) == daily_total(s0, d),
{
    let s1 = s0.update(i, (day, total));
    assert forall|a: int, b: int| 0 <= a < b < s1.len() implies s1[a].0 < s1[b].0 by {
        assert(s0[a].0 < s0[b].0);
    }
    lemma_total_at(s0, i);
    lemma_total_at(s1, i);
    assert forall|d: int| d != day implies daily_total(s1, d) == daily_total(s0, d) by {
        if exists|k: int| 0 <= k < s0.len() && s0[k].0 == d {
            let k = choose|k: int| 0 <= k < s0.len() && s0[k].0 == d;
            lemma_total_at(s0, k);
            lemma_total_at(s1, k);
        } else {
            assert(!(exists|k: int| 0 <= k < s1.len() && s1[k].0 == d)) by {
                if exists|k: int| 0 <= k < s1.len() && s1[k].0 == d {
                    let k = choose|k: int| 0 <= k < s1.len() && s1[k].0 == d;
                    assert(s0[k].0 == d);
                }
            }
        }
    }
}

proof fn lemma_insert_totals(s0: Seq<(i32, u64)>, i: int, day: i32, tokens: u64)
    requires
        days_ascending(s0),
        0 <= i <= s0.len(),
        forall|k: int| 0 <= k < i ==> s0[k].0 < day,
        i < s0.len() ==> s0[i].0 > day,
    ensures
        days_ascending(s0.insert(i, (day, tokens))),
        daily_total(s0, day as int) is None,
        daily_total(s0.insert(i, (day, tokens)), day as int) == Some(tokens as int),
        forall|d: int| d != day ==> daily_total(s0.insert(i, (day, tokens)), d) == daily_total(s0, d),
{
    let s1 = s0.insert(i, (day, tokens));
    assert forall|a: int, b: int| 0 <= a < b < s1.len() implies s1[a].0 < s1[b].0 by {
        if b < i {
            assert(s1[a] == s0[a] && s1[b] == s0[b]);
        } else if b == i {
            assert(s1[a] == s0[a]);
        } else if a < i {
            assert(s1[a] == s0[a] && s1[b] == s0[b - 1]);
            assert(s0[a].0 < day);
            if b - 1 > i {
                assert(s0[i].0 < s0[b - 1].0);
            }
        } else if a == i {
            assert(s1[b] == s0[b - 1]);
            if b - 1 > i {
                assert(s0[i].0 < s0[b - 1].0);
            }
        } else {
            assert(s1[a] == s0[a - 1] && s1[b] == s0[b - 1]);
        }
    }
    assert(!(exists|k: int| 0 <= k < s0.len() && s0[k].0 == day)) by {
        if exists|k: int| 0 <= k < s0.len() && s0[k].0 == day {
            let k = choose|k: int| 0 <= k < s0.len() && s0[k].0 == day;
            if k > i {
                assert(s0[i].0 < s0[k].0);
            }
        }
    }
    lemma_total_at(s1, i);
    assert forall|d: int| d != day implies daily_total(s1, d) == daily_total(s0, d) by {
        if exists|k: int| 0 <= k < s0.len() && s0[k].0 == d {
            let k = choose|k: int| 0 <= k < s0.len() && s0[k].0 == d;
            let k1 = if k < i { k } else { k + 1 };
            assert(s1[k1] == s0[k]);
            lemma_total_at(s0, k);
            lemma_total_at(s1, k1);
        } else {
            assert(!(exists|k: int| 0 <= k < s1.len() && s1[k].0 == d)) by {
                if exists|k: int| 0 <= k < s1.len() && s1[k].0 == d {
                    let k = choose|k: int| 0 <= k < s1.len() && s1[k].0 == d;
                    if k < i {
                        assert(s0[k].0 == d);
                    } else if k > i {
                        assert(s0[k - 1].0 == d);
                    }
                }
            }
        }
    }
}

/// Adds the tokens of one event to the daily totals (saturating at the largest `u64`),
/// keeping them ordered by day.
pub fn add_daily_tokens(daily: &mut Vec<(i32, u64)>, day: i32, tokens: u64)
    requires
        days_ascending(old(daily)@),
    ensures
        days_ascending(final(daily)@),
        daily_total(final(daily)@, day as int) == Some(
            sat_add(
                match daily_total(old(daily)@, day as int) {
                    Some(t) => t,
                    None => 0,
                },
                tokens as int,
            ),
        ),
        forall|d: int| d != day ==> daily_total(final(daily)@, d) == daily_total(old(daily)@, d),
{
    let ghost s0 = daily@;
    let mut i: usize = 0;
    while i < daily.len() && daily[i].0 < day
        invariant
            i <= daily.len(),
            daily@ == s0,
            forall|k: int| 0 <= k < i ==> s0[k].0 < day,
        decreases daily.len() - i,
    {
        i += 1;
    }
    if i < daily.len() && daily[i].0 == day {
        let old_total = daily[i].1;
        let total = old_total.saturating_add(tokens);
        daily.set(i, (day, total));
        proof {
            lemma_update_totals(s0, i as int, day, total);
        }
    } else {
        daily.insert(i, (day, tokens));
        proof {
            lemma_insert_totals(s0, i as int, day, tokens);
        }
    }
}

/// The sum of the daily totals.
pub open spec fn total_tokens(s: Seq<(i32, u64)>) -> int
    decreases s.len(),
{
    if s.len() == 0 {
        0
    } else {
        total_tokens(s.drop_last()) + s.last().1
    }
}

/// The largest daily total, if there is a day.
pub open spec fn peak_tokens(s: Seq<(i32, u64)>) -> Option<int>
    decreases s.len(),
{
    if s.len() == 0 {
        None
    } else {
        match peak_tokens(s.drop_last()) {
            Some(p) => if p >= s.last().1 {
                Some(p)
            } else {
                Some(s.last().1 as int)
            },
            None => Some(s.last().1 as int),
        }
    }
}

/// The message given when the session logs hold no usable event and some lines did not read.
pub open spec fn local_usage_error() -> Seq<char> {
    "本地 JSONL 存在解析错误，且没有可用 token_count 事件"@
}

proof fn lemma_total_prefix(s: Seq<(i32, u64)>, i: int)
    requires
        0 <= i <= s.len(),
    ensures
        0 <= total_tokens(s.take(i)) <= total_tokens(s),
    decreases s.len(),
{
    if i < s.len() {
        assert(s.drop_last().take(i) =~= s.take(i));
        lemma_total_prefix(s.drop_last(), i);
    } else {
        assert(s.take(i) =~= s);
        lemma_total_nonneg(s);
    }
}

proof fn lemma_total_nonneg(s: Seq<(i32, u64)>)
    ensures
        0 <= total_tokens(s),
    decreases s.len(),
{
    if s.len() > 0 {
        lemma_total_nonneg(s.drop_last());
    }
}

/// Whether `r` is the token activity of the local session logs with the daily totals `daily`
/// (ordered by day) and `parse_errors` lines that did not read, on the day `today`: refused when
/// no day was recorded and some lines did not read; else the buckets of the days in order, their
/// total, their peak and the streaks.
pub open spec fn local_usage_result(
    daily: Seq<(i32, u64)>,
    parse_errors: u64,
    today: int,
    r: Result<TokenActivitySnapshot, String>,
) -> bool {
    &&& daily.len() == 0 && parse_errors > 0 ==> (r matches Err(e) && e@ == local_usage_error())
    &&& !(daily.len() == 0 && parse_errors > 0) ==> (r matches Ok(a) && {
        &&& a.source == TokenActivitySource::LocalJsonl
        &&& a.lifetime_tokens == Some(total_tokens(daily) as u64)
        &&& crate::text::opt_u64_int(a.peak_daily_tokens) == peak_tokens(daily)
        &&& a.longest_running_turn_sec is None
        &&& a.daily_buckets@.len() == daily.len()
        &&& forall|k: int|
            0 <= k < daily.len() ==> (#[trigger] a.daily_buckets@[k]).date@ == chrono_ymd_text(
                daily[k].0 as int,
            ) && a.daily_buckets@[k].tokens == daily[k].1
        &&& a.current_streak_days == Some(streaks(active_days(a.daily_buckets@), today).0 as u64)
        &&& a.longest_streak_days == Some(streaks(active_days(a.daily_buckets@), today).1 as u64)
    })
}

/// The token activity of the local session logs from the daily totals (ordered by day) and the
/// number of lines that did not read, on the day `today` (see [`local_usage_result`]).
pub fn local_usage_snapshot(daily: &Vec<(i32, u64)>, parse_errors: u64, today: i32) -> (r: Result<
    TokenActivitySnapshot,
    String,
>)
    requires
        total_tokens(daily@) <= u64::MAX,
        forall|k: int| 0 <= k < daily@.len() ==> valid_day((#[trigger] daily@[k]).0 as int),
    ensures
        local_usage_result(daily@, parse_errors, today as int, r),
{
    let mut buckets: Vec<TokenActivityBucket> = Vec::new();
    let mut lifetime: u64 = 0;
    let mut peak: Option<u64> = None;
    let mut i: usize = 0;
    while i < daily.len()
        invariant
            i <= daily.len(),
            total_tokens(daily@) <= u64::MAX,
            forall|k: int| 0 <= k < daily@.len() ==> valid_day((#[trigger] daily@[k]).0 as int),
            buckets@.len() == i,
            forall|k: int|
                0 <= k < i ==> (#[trigger] buckets@[k]).date@ == chrono_ymd_text(daily@[k].0 as int)
                    && buckets@[k].tokens == daily@[k].1,
            lifetime == total_tokens(daily@.take(i as int)),
            crate::text::opt_u64_int(peak) == peak_tokens(daily@.take(i as int)),
        decreases daily.len() - i,
    {
        proof {
            assert(daily@.take(i + 1).drop_last() =~= daily@.take(i as int));
            assert(daily@.take(i + 1).last() == daily@[i as int]);
            lemma_total_prefix(daily@, i + 1);
        }
        let (d, t) = daily[i];
        buckets.push(TokenActivityBucket { date: ymd_text(d), tokens: t });
        lifetime = lifetime + t;
        peak = match peak {
            Some(p) => if p >= t {
                Some(p)
            } else {
                Some(t)
            },
            None => Some(t),
        };
        i += 1;
    }
    assert(daily@.take(daily.len() as int) =~= daily@);
    let (current, longest) = calculate_streaks_for_today(&buckets, today);
    if daily.len() == 0 && parse_errors > 0 {
        return Err(String::from_str("本地 JSONL 存在解析错误，且没有可用 token_count 事件"));
    }
    Ok(
        TokenActivitySnapshot {
            source: TokenActivitySource::LocalJsonl,
            lifetime_tokens: Some(lifetime),
            peak_daily_tokens: peak,
            longest_running_turn_sec: None,
            current_streak_days: Some(current),
            longest_streak_days: Some(longest),
            daily_buckets: buckets,
        },
    )
}

} // verus!
