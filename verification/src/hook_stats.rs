//! Hook statistics: what is kept of each hook event, how the events of a day add up to its
//! statistics, and which event files and daily records are kept.
use vstd::prelude::*;

use crate::calendar::{
    chrono_parse_datetime_day, chrono_parse_ymd, chrono_rfc3339_valid, chrono_ymd_text,
    datetime_day, opt_day, parse_ymd, rfc3339_valid, valid_day, ymd_text,
};
use crate::json::{
    entries_insert, entries_lookup, entry_views, entries_set, find_key, group_json_views, key_index,
    lemma_key_index, lemma_lookup_insert_same, JsonData, JsonValue,
};
use crate::models::HookDayStats;
use crate::text::{
    lemma_text_lt_irreflexive, lemma_text_lt_total, lemma_text_lt_transitive, text_eq, text_less, text_lt,
    trim, trim_text,
};
use crate::token_usage::hook_stats_on;

verus! {

broadcast use group_json_views;

/// How many days of hook data are kept, today included.
pub const HOOK_RETENTION_DAYS: i32 = 224;

/// The text of the first of the members `names` that is text.
pub open spec fn first_text(v: JsonData, names: Seq<Seq<char>>) -> Option<Seq<char>>
    decreases names.len(),
{
    if names.len() == 0 {
        None
    } else {
        match v.field_text(names[0]) {
            Some(t) => Some(t),
            None => first_text(v, names.drop_first()),
        }
    }
}

/// The views of a list of names.
pub open spec fn names_view(names: Seq<&str>) -> Seq<Seq<char>> {
    names.map_values(|s: &str| s@)
}

/// The text of the first of the members `names` that is text.
pub fn string_field(value: &JsonValue, names: &Vec<&str>) -> (r: Option<String>)
    ensures
        match r {
            Some(s) => first_text(value@, names_view(names@)) == Some(s@),
            None => first_text(value@, names_view(names@)) is None,
        },
{
    let ghost nv = names_view(names@);
    let mut i: usize = 0;
    proof {
        assert(nv.skip(0) =~= nv);
    }
    while i < names.len()
        invariant
            i <= names.len(),
            nv == names_view(names@),
            nv.len() == names.len(),
            first_text(value@, nv) == first_text(value@, nv.skip(i as int)),
        decreases names.len() - i,
    {
        proof {
            assert(nv.skip(i as int).drop_first() =~= nv.skip(i + 1));
            assert(nv.skip(i as int)[0] == names@[i as int]@);
        }
        match value.field_str(names[i]) {
            Some(t) => {
                return Some(String::from_str(t));
            },
            None => {},
        }
        i += 1;
    }
    proof {
        assert(nv.skip(names.len() as int) =~= Seq::<Seq<char>>::empty());
    }
    None
}

/// The names under which an event names its session.
pub open spec fn session_names() -> Seq<Seq<char>> {
    seq!["session"@, "session_id"@, "sessionId"@]
}

/// The names under which an event names its turn.
pub open spec fn turn_names() -> Seq<Seq<char>> {
    seq!["turn"@, "turn_id"@, "turnId"@]
}

/// The names under which an event names its kind.
pub open spec fn event_names() -> Seq<Seq<char>> {
    seq!["hook_event_name"@, "event"@, "hook_event"@, "hookEvent"@]
}

/// The names under which an event names its tool call.
pub open spec fn tool_use_names() -> Seq<Seq<char>> {
    seq!["tool_use_id"@, "toolUseId"@]
}

/// The names under which an event names its tool.
pub open spec fn tool_name_names() -> Seq<Seq<char>> {
    seq!["tool_name"@, "tool"@, "toolName"@]
}

/// The names under which an event gives its time.
pub open spec fn time_names() -> Seq<Seq<char>> {
    seq!["timestamp"@, "time"@, "receivedAt"@]
}

fn session_field(value: &JsonValue) -> (r: Option<String>)
    ensures
        match r {
            Some(s) => first_text(value@, session_names()) == Some(s@),
            None => first_text(value@, session_names()) is None,
        },
{
    let names = vec!["session", "session_id", "sessionId"];
    assert(names_view(names@) =~= session_names());
    string_field(value, &names)
}

fn turn_field(value: &JsonValue) -> (r: Option<String>)
    ensures
        match r {
            Some(s) => first_text(value@, turn_names()) == Some(s@),
            None => first_text(value@, turn_names()) is None,
        },
{
    let names = vec!["turn", "turn_id", "turnId"];
    assert(names_view(names@) =~= turn_names());
    string_field(value, &names)
}

fn event_field(value: &JsonValue) -> (r: Option<String>)
    ensures
        match r {
            Some(s) => first_text(value@, event_names()) == Some(s@),
            None => first_text(value@, event_names()) is None,
        },
{
    let names = vec!["hook_event_name", "event", "hook_event", "hookEvent"];
    assert(names_view(names@) =~= event_names());
    string_field(value, &names)
}

/// The key that identifies a tool call: its tool-use id, or session, turn and tool name
/// joined by `|`.
pub open spec fn tool_call_key_spec(v: JsonData) -> Seq<char> {
    match first_text(v, tool_use_names()) {
        Some(id) => id,
        None => {
            let part = |o: Option<Seq<char>>|
                match o {
                    Some(t) => t,
                    None => Seq::<char>::empty(),
                };
            part(first_text(v, session_names())) + "|"@ + part(first_text(v, turn_names())) + "|"@
                + part(first_text(v, tool_name_names()))
        },
    }
}

fn text_or_empty(o: Option<String>) -> (r: String)
    ensures
        r@ == match o {
            Some(t) => t@,
            None => Seq::<char>::empty(),
        },
{
    match o {
        Some(t) => t,
        None => String::new(),
    }
}

/// The key that identifies a tool call (see [`tool_call_key_spec`]).
pub fn tool_call_key(value: &JsonValue) -> (r: String)
    ensures
        r@ == tool_call_key_spec(value@),
{
    let ids = vec!["tool_use_id", "toolUseId"];
    assert(names_view(ids@) =~= tool_use_names());
    match string_field(value, &ids) {
        Some(id) => id,
        None => {
            let tools = vec!["tool_name", "tool", "toolName"];
            assert(names_view(tools@) =~= tool_name_names());
            let s = text_or_empty(session_field(value));
            let t = text_or_empty(turn_field(value));
            let n = text_or_empty(string_field(value, &tools));
            s.concat("|").concat(t.as_str()).concat("|").concat(n.as_str())
        },
    }
}

/// The sessions, turns and tool calls seen on one day, and the day's statistics.
pub struct HookDayAccumulator {
    pub sessions: Vec<String>,
    pub turns: Vec<String>,
    pub tool_calls: Vec<String>,
    pub stats: HookDayStats,
}

/// The views of a list of texts.
pub open spec fn texts_view(v: Seq<String>) -> Seq<Seq<char>> {
    v.map_values(|s: String| s@)
}

/// A set of seen keys after seeing `key`: unchanged when it was seen, else with it added.
pub open spec fn seen_after(seen: Seq<Seq<char>>, key: Option<Seq<char>>) -> Seq<Seq<char>> {
    match key {
        Some(k) => if seen.contains(k) {
            seen
        } else {
            seen.push(k)
        },
        None => seen,
    }
}

/// Whether the counts of distinct sessions, turns and tool calls are the numbers of keys seen.
pub open spec fn accumulator_wf(a: HookDayAccumulator) -> bool {
    &&& a.stats.session_count == a.sessions@.len()
    &&& a.stats.turn_count == a.turns@.len()
    &&& a.stats.tool_call_count == a.tool_calls@.len()
}

/// Whether every count can still grow by one.
pub open spec fn accumulator_has_room(a: HookDayAccumulator) -> bool {
    &&& a.stats.session_count < u64::MAX
    &&& a.stats.prompt_count < u64::MAX
    &&& a.stats.turn_count < u64::MAX
    &&& a.stats.tool_call_count < u64::MAX
    &&& a.stats.permission_request_count < u64::MAX
    &&& a.stats.compact_count < u64::MAX
    &&& a.stats.subagent_count < u64::MAX
}

/// The kind of an event (empty when it names none).
pub open spec fn event_kind(v: JsonData) -> Seq<char> {
    match first_text(v, event_names()) {
        Some(e) => e,
        None => Seq::empty(),
    }
}

/// Whether an event starts or ends a tool call.
pub open spec fn is_tool_event(kind: Seq<char>) -> bool {
    kind == "PreToolUse"@ || kind == "PostToolUse"@
}

/// An empty accumulator.
pub fn new_accumulator() -> (r: HookDayAccumulator)
    ensures
        accumulator_wf(r),
        r.sessions@.len() == 0 && r.turns@.len() == 0 && r.tool_calls@.len() == 0,
        r.stats == (HookDayStats {
            session_count: 0,
            prompt_count: 0,
            turn_count: 0,
            tool_call_count: 0,
            permission_request_count: 0,
            compact_count: 0,
            subagent_count: 0,
        }),
{
    HookDayAccumulator {
        sessions: Vec::new(),
        turns: Vec::new(),
        tool_calls: Vec::new(),
        stats: HookDayStats {
            session_count: 0,
            prompt_count: 0,
            turn_count: 0,
            tool_call_count: 0,
            permission_request_count: 0,
            compact_count: 0,
            subagent_count: 0,
        },
    }
}

/// Adds `key` to the seen keys; true when it was not seen before.
fn insert_key(seen: &mut Vec<String>, key: String) -> (added: bool)
    ensures
        texts_view(final(seen)@) == seen_after(texts_view(old(seen)@), Some(key@)),
        added == !texts_view(old(seen)@).contains(key@),
        final(seen)@.len() == old(seen)@.len() + (if added { 1int } else { 0int }),
{
    let ghost sv = texts_view(seen@);
    let mut i: usize = 0;
    while i < seen.len()
        invariant
            i <= seen.len(),
            sv == texts_view(seen@),
            sv.len() == seen.len(),
            forall|k: int| 0 <= k < i ==> sv[k] != key@,
        decreases seen.len() - i,
    {
        assert(sv[i as int] == seen@[i as int]@);
        if text_eq(seen[i].as_str(), key.as_str()) {
            assert(sv.contains(key@));
            return false;
        }
        i += 1;
    }
    assert(!sv.contains(key@)) by {
        if sv.contains(key@) {
            let k = choose|k: int| 0 <= k < sv.len() && sv[k] == key@;
        }
    }
    let ghost before = seen@;
    seen.push(key);
    assert(texts_view(seen@) =~= texts_view(before).push(key@));
    true
}


/// Whether `after` is `before` with the event `v` added: a new session or turn is counted
/// once, the prompt, permission-request, compaction and sub-agent events are counted, and a
/// tool call is counted once over its start and end events.
pub open spec fn accumulated(before: HookDayAccumulator, v: JsonData, after: HookDayAccumulator) -> bool {
    &&& accumulator_wf(after)
    &&& texts_view(after.sessions@) == seen_after(
        texts_view(before.sessions@),
        first_text(v, session_names()),
    )
    &&& texts_view(after.turns@) == seen_after(texts_view(before.turns@), first_text(v, turn_names()))
    &&& texts_view(after.tool_calls@) == (if is_tool_event(event_kind(v)) {
        seen_after(texts_view(before.tool_calls@), Some(tool_call_key_spec(v)))
    } else {
        texts_view(before.tool_calls@)
    })
    &&& after.stats.prompt_count == before.stats.prompt_count + (if event_kind(v)
        == "UserPromptSubmit"@ {
        1int
    } else {
        0int
    })
    &&& after.stats.permission_request_count == before.stats.permission_request_count + (
    if event_kind(v) == "PermissionRequest"@ {
        1int
    } else {
        0int
    })
    &&& after.stats.compact_count == before.stats.compact_count + (if event_kind(v)
        == "PostCompact"@ {
        1int
    } else {
        0int
    })
    &&& after.stats.subagent_count == before.stats.subagent_count + (if event_kind(v)
        == "SubagentStart"@ {
        1int
    } else {
        0int
    })
}

/// Adds one event to the accumulator of its day (see [`accumulated`]).
pub fn accumulate_event(value: &JsonValue, acc: &mut HookDayAccumulator)
    requires
        accumulator_wf(*old(acc)),
        accumulator_has_room(*old(acc)),
    ensures
        accumulated(*old(acc), value@, *final(acc)),
{
    match session_field(value) {
        Some(s) => {
            if insert_key(&mut acc.sessions, s) {
                acc.stats.session_count = acc.stats.session_count + 1;
            }
        },
        None => {},
    }
    match turn_field(value) {
        Some(t) => {
            if insert_key(&mut acc.turns, t) {
                acc.stats.turn_count = acc.stats.turn_count + 1;
            }
        },
        None => {},
    }
    let event = text_or_empty(event_field(value));
    proof {
        reveal_strlit("UserPromptSubmit");
        reveal_strlit("PermissionRequest");
        reveal_strlit("PostCompact");
        reveal_strlit("SubagentStart");
        reveal_strlit("PreToolUse");
        reveal_strlit("PostToolUse");
        assert("PostCompact"@[4] != "PostToolUse"@[4]);
        let kinds = seq![
            "UserPromptSubmit"@,
            "PermissionRequest"@,
            "PostCompact"@,
            "SubagentStart"@,
            "PreToolUse"@,
            "PostToolUse"@,
        ];
        assert(kinds[0].len() == 16 && kinds[1].len() == 17 && kinds[2].len() == 11 && kinds[3].len()
            == 13 && kinds[4].len() == 10 && kinds[5].len() == 11);
        assert("UserPromptSubmit"@ != "PermissionRequest"@);
        assert("UserPromptSubmit"@ != "PostCompact"@);
        assert("UserPromptSubmit"@ != "SubagentStart"@);
        assert("UserPromptSubmit"@ != "PreToolUse"@);
        assert("UserPromptSubmit"@ != "PostToolUse"@);
        assert("PermissionRequest"@ != "PostCompact"@);
        assert("PermissionRequest"@ != "SubagentStart"@);
        assert("PermissionRequest"@ != "PreToolUse"@);
        assert("PermissionRequest"@ != "PostToolUse"@);
        assert("PostCompact"@ != "SubagentStart"@);
        assert("PostCompact"@ != "PreToolUse"@);
        assert("PostCompact"@ != "PostToolUse"@);
        assert("SubagentStart"@ != "PreToolUse"@);
        assert("SubagentStart"@ != "PostToolUse"@);
    }
    if text_eq(event.as_str(), "UserPromptSubmit") {
        acc.stats.prompt_count = acc.stats.prompt_count + 1;
    } else if text_eq(event.as_str(), "PermissionRequest") {
        acc.stats.permission_request_count = acc.stats.permission_request_count + 1;
    } else if text_eq(event.as_str(), "PostCompact") {
        acc.stats.compact_count = acc.stats.compact_count + 1;
    } else if text_eq(event.as_str(), "SubagentStart") {
        acc.stats.subagent_count = acc.stats.subagent_count + 1;
    } else if text_eq(event.as_str(), "PreToolUse") || text_eq(event.as_str(), "PostToolUse") {
        let key = tool_call_key(value);
        if insert_key(&mut acc.tool_calls, key) {
            acc.stats.tool_call_count = acc.stats.tool_call_count + 1;
        }
    }
}

/// The day of an event time: `local_day` (the day of the time in the local time zone, as
/// the caller read it) when it is an RFC 3339 date-and-time, else the day of a
/// `YYYY-MM-DD HH:MM:SS` text, else of a `YYYY-MM-DD` text.
pub open spec fn event_time_day(t: Seq<char>, local_day: Option<int>) -> Option<int> {
    if chrono_rfc3339_valid(t) {
        local_day
    } else {
        naive_event_day(t)
    }
}

/// The day of an event time (see [`event_time_day`]).
pub fn parse_hook_event_day(value: &str, local_day: Option<i32>) -> (r: Option<i32>)
    ensures
        opt_day(r) == event_time_day(value@, opt_day(local_day)),
        local_day matches Some(d) && valid_day(d as int) ==> (r matches Some(e) ==> valid_day(
            e as int,
        )),
        !chrono_rfc3339_valid(value@) ==> (r matches Some(e) ==> valid_day(e as int)),
{
    if rfc3339_valid(value) {
        local_day
    } else {
        match datetime_day(value) {
            Some(d) => Some(d),
            None => parse_ymd(value),
        }
    }
}

/// The day a `YYYY-MM-DD HH:MM:SS` or else a `YYYY-MM-DD` text reads as.
pub open spec fn naive_event_day(t: Seq<char>) -> Option<int> {
    match chrono_parse_datetime_day(t) {
        Some(d) => Some(d),
        None => chrono_parse_ymd(t),
    }
}

/// The time text of an event: the first of `timestamp`, `time` and `receivedAt` that is text.
pub fn event_time_text(value: &JsonValue) -> (r: Option<String>)
    ensures
        opt_text(r) == first_text(value@, time_names()),
{
    let names = vec!["timestamp", "time", "receivedAt"];
    assert(names_view(names@) =~= time_names());
    string_field(value, &names)
}

/// The `YYYY-MM-DD` day of the event `v`, or `fallback` when the event gives no time that
/// reads; `local_day` is the local day of its time where that is an RFC 3339 date-and-time.
pub open spec fn event_day_spec(
    v: JsonData,
    local_day: Option<int>,
    fallback: Option<Seq<char>>,
) -> Option<Seq<char>> {
    match first_text(v, time_names()) {
        None => fallback,
        Some(t) => match event_time_day(t, local_day) {
            Some(d) => Some(chrono_ymd_text(d)),
            None => fallback,
        },
    }
}

/// An optional text read as an optional sequence of characters.
pub open spec fn opt_text(o: Option<String>) -> Option<Seq<char>> {
    match o {
        Some(s) => Some(s@),
        None => None,
    }
}

/// Whether an optional day is one chrono can represent.
pub open spec fn opt_valid_day(o: Option<i32>) -> bool {
    match o {
        Some(d) => valid_day(d as int),
        None => true,
    }
}

/// The `YYYY-MM-DD` day of an event, from its time (see [`event_day_spec`]).
pub fn event_date(value: &JsonValue, local_day: Option<i32>) -> (r: Option<String>)
    requires
        opt_valid_day(local_day),
    ensures
        opt_text(r) == event_day_spec(value@, opt_day(local_day), None),
{
    match event_time_text(value) {
        Some(t) => match parse_hook_event_day(t.as_str(), local_day) {
            Some(d) => Some(ymd_text(d)),
            None => None,
        },
        None => None,
    }
}

/// The day under which an event of a file is counted: its own day, else the file's.
pub fn event_day_or(value: &JsonValue, local_day: Option<i32>, fallback: &Option<String>) -> (r:
    Option<String>)
    requires
        opt_valid_day(local_day),
    ensures
        opt_text(r) == event_day_spec(value@, opt_day(local_day), opt_text(*fallback)),
{
    match event_date(value, local_day) {
        Some(d) => Some(d),
        None => match fallback {
            Some(f) => Some(f.clone()),
            None => None,
        },
    }
}

/// The keys seen after seeing each of `keys` in turn.
pub open spec fn seen_all(keys: Seq<Option<Seq<char>>>) -> Seq<Seq<char>>
    decreases keys.len(),
{
    if keys.len() == 0 {
        Seq::empty()
    } else {
        seen_after(seen_all(keys.drop_last()), keys.last())
    }
}

/// The number of events of kind `k`.
pub open spec fn kind_count(events: Seq<JsonData>, k: Seq<char>) -> nat
    decreases events.len(),
{
    if events.len() == 0 {
        0
    } else {
        kind_count(events.drop_last(), k) + (if event_kind(events.last()) == k {
            1nat
        } else {
            0nat
        })
    }
}

/// The tool call an event starts or ends, if it is a tool event.
pub open spec fn tool_key_of(v: JsonData) -> Option<Seq<char>> {
    if is_tool_event(event_kind(v)) {
        Some(tool_call_key_spec(v))
    } else {
        None
    }
}

/// Whether `a` is the accumulator of the events `events` of one day, taken in order.
pub open spec fn day_accumulation(a: HookDayAccumulator, events: Seq<JsonData>) -> bool {
    &&& accumulator_wf(a)
    &&& texts_view(a.sessions@) == seen_all(
        events.map_values(|v: JsonData| first_text(v, session_names())),
    )
    &&& texts_view(a.turns@) == seen_all(events.map_values(|v: JsonData| first_text(v, turn_names())))
    &&& texts_view(a.tool_calls@) == seen_all(events.map_values(|v: JsonData| tool_key_of(v)))
    &&& a.stats.prompt_count == kind_count(events, "UserPromptSubmit"@)
    &&& a.stats.permission_request_count == kind_count(events, "PermissionRequest"@)
    &&& a.stats.compact_count == kind_count(events, "PostCompact"@)
    &&& a.stats.subagent_count == kind_count(events, "SubagentStart"@)
}

proof fn lemma_seen_all_len(keys: Seq<Option<Seq<char>>>)
    ensures
        seen_all(keys).len() <= keys.len(),
    decreases keys.len(),
{
    if keys.len() > 0 {
        lemma_seen_all_len(keys.drop_last());
    }
}

proof fn lemma_kind_count_len(events: Seq<JsonData>, k: Seq<char>)
    ensures
        kind_count(events, k) <= events.len(),
    decreases events.len(),
{
    if events.len() > 0 {
        lemma_kind_count_len(events.drop_last(), k);
    }
}

proof fn lemma_day_accumulation_step(
    a: HookDayAccumulator,
    events: Seq<JsonData>,
    v: JsonData,
    b: HookDayAccumulator,
)
    requires
        day_accumulation(a, events),
        accumulated(a, v, b),
    ensures
        day_accumulation(b, events.push(v)),
{
    let e2 = events.push(v);
    let fs = |v: JsonData| first_text(v, session_names());
    let ft = |v: JsonData| first_text(v, turn_names());
    let fk = |v: JsonData| tool_key_of(v);
    assert(e2.map_values(fs).drop_last() =~= events.map_values(fs));
    assert(e2.map_values(ft).drop_last() =~= events.map_values(ft));
    assert(e2.map_values(fk).drop_last() =~= events.map_values(fk));
    assert(e2.drop_last() =~= events);
    reveal_strlit("UserPromptSubmit");
    reveal_strlit("PermissionRequest");
    reveal_strlit("PostCompact");
    reveal_strlit("SubagentStart");
}

proof fn lemma_day_accumulation_bounds(a: HookDayAccumulator, events: Seq<JsonData>)
    requires
        day_accumulation(a, events),
    ensures
        a.stats.session_count <= events.len(),
        a.stats.turn_count <= events.len(),
        a.stats.tool_call_count <= events.len(),
        a.stats.prompt_count <= events.len(),
        a.stats.permission_request_count <= events.len(),
        a.stats.compact_count <= events.len(),
        a.stats.subagent_count <= events.len(),
{
    lemma_seen_all_len(events.map_values(|v: JsonData| first_text(v, session_names())));
    lemma_seen_all_len(events.map_values(|v: JsonData| first_text(v, turn_names())));
    lemma_seen_all_len(events.map_values(|v: JsonData| tool_key_of(v)));
    assert(texts_view(a.sessions@).len() == a.sessions@.len());
    assert(texts_view(a.turns@).len() == a.turns@.len());
    assert(texts_view(a.tool_calls@).len() == a.tool_calls@.len());
    lemma_kind_count_len(events, "UserPromptSubmit"@);
    lemma_kind_count_len(events, "PermissionRequest"@);
    lemma_kind_count_len(events, "PostCompact"@);
    lemma_kind_count_len(events, "SubagentStart"@);
}

/// The events, in order, whose day is `d`.
pub open spec fn day_events(
    events: Seq<JsonData>,
    days: Seq<Option<Seq<char>>>,
    d: Seq<char>,
) -> Seq<JsonData>
    decreases events.len(),
{
    if events.len() == 0 || days.len() == 0 {
        Seq::empty()
    } else {
        let p = day_events(events.drop_last(), days.drop_last(), d);
        if days.last() == Some(d) {
            p.push(events.last())
        } else {
            p
        }
    }
}

/// The views of a list of events.
pub open spec fn events_view(events: Seq<JsonValue>) -> Seq<JsonData> {
    events.map_values(|v: JsonValue| v@)
}

/// The views of a list of optional days.
pub open spec fn days_view(days: Seq<Option<String>>) -> Seq<Option<Seq<char>>> {
    days.map_values(|o: Option<String>| opt_text(o))
}

/// Whether `r` holds one accumulator per day of `days`, each day once, and each the
/// accumulator of the events of its day.
pub open spec fn grouped_by_day(
    r: Seq<(String, HookDayAccumulator)>,
    events: Seq<JsonData>,
    days: Seq<Option<Seq<char>>>,
) -> bool {
    &&& forall|j: int, k: int| 0 <= j < k < r.len() ==> r[j].0@ != r[k].0@
    &&& forall|j: int|
        0 <= j < r.len() ==> days.contains(Some(#[trigger] r[j].0@)) && day_accumulation(
            r[j].1,
            day_events(events, days, r[j].0@),
        )
    &&& forall|k: int|
        0 <= k < days.len() && days[k] is Some ==> exists|j: int|
            0 <= j < r.len() && #[trigger] r[j].0@ == days[k]->0
}

proof fn lemma_day_events_absent(events: Seq<JsonData>, days: Seq<Option<Seq<char>>>, d: Seq<char>)
    requires
        forall|k: int| 0 <= k < days.len() ==> days[k] != Some(d),
    ensures
        day_events(events, days, d) == Seq::<JsonData>::empty(),
    decreases events.len(),
{
    if events.len() > 0 && days.len() > 0 {
        assert(days.last() == days[days.len() - 1]);
        lemma_day_events_absent(events.drop_last(), days.drop_last(), d);
    }
}

proof fn lemma_day_events_len(events: Seq<JsonData>, days: Seq<Option<Seq<char>>>, d: Seq<char>)
    ensures
        day_events(events, days, d).len() <= events.len(),
    decreases events.len(),
{
    if events.len() > 0 && days.len() > 0 {
        lemma_day_events_len(events.drop_last(), days.drop_last(), d);
    }
}

/// Groups the events by their days and accumulates each day's events; an event without a day
/// is skipped.
pub fn accumulate_hook_events(events: &Vec<JsonValue>, days: &Vec<Option<String>>) -> (r: Vec<
    (String, HookDayAccumulator),
>)
    requires
        events.len() == days.len(),
    ensures
        grouped_by_day(r@, events_view(events@), days_view(days@)),
{
    let ghost ev = events_view(events@);
    let ghost dv = days_view(days@);
    let n = events.len();
    let mut accs: Vec<(String, HookDayAccumulator)> = Vec::new();
    let mut i: usize = 0;
    assert(dv.take(0) =~= Seq::<Option<Seq<char>>>::empty());
    while i < n
        invariant
            i <= n,
            n == events.len(),
            n == days.len(),
            ev == events_view(events@),
            dv == days_view(days@),
            ev.len() == n,
            dv.len() == n,
            grouped_by_day(accs@, ev.take(i as int), dv.take(i as int)),
        decreases n - i,
    {
        let ghost e0 = ev.take(i as int);
        let ghost d0 = dv.take(i as int);
        let ghost start = accs@;
        let ghost e1 = ev.take(i + 1);
        let ghost d1 = dv.take(i + 1);
        proof {
            assert(e1.drop_last() =~= e0);
            assert(d1.drop_last() =~= d0);
            assert(e1.last() == events@[i as int]@);
            assert(d1.last() == opt_text(days@[i as int]));
            assert(e1.len() == i + 1 && d1.len() == i + 1);
        }
        match &days[i] {
            None => {
                proof {
                    assert forall|d: Seq<char>| day_events(e1, d1, d) == day_events(e0, d0, d) by {}
                    assert forall|j: int| 0 <= j < accs@.len() implies d1.contains(
                        Some(#[trigger] accs@[j].0@),
                    ) by {
                        let k = choose|k: int| 0 <= k < d0.len() && d0[k] == Some(accs@[j].0@);
                        assert(d1[k] == d0[k]);
                    }
                    assert forall|k: int| 0 <= k < d1.len() && d1[k] is Some implies exists|j: int|
                        0 <= j < accs@.len() && #[trigger] accs@[j].0@ == d1[k]->0 by {
                        assert(d1[k] == d0[k]);
                    }
                }
            },
            Some(d) => {
                let ghost dd = d@;
                let mut j: usize = 0;
                let mut found = false;
                while j < accs.len() && !found
                    invariant
                        j <= accs.len(),
                        found ==> j < accs.len() && accs@[j as int].0@ == dd,
                        forall|k: int| 0 <= k < j ==> accs@[k].0@ != dd,
                        dd == d@,
                    decreases accs.len() - j, if found { 0int } else { 1int },
                {
                    if text_eq(accs[j].0.as_str(), d.as_str()) {
                        found = true;
                    } else {
                        j += 1;
                    }
                }
                if !found {
                    proof {
                        assert forall|k: int| 0 <= k < d0.len() implies d0[k] != Some(dd) by {
                            if d0[k] == Some(dd) {
                                let jj = choose|jj: int|
                                    0 <= jj < accs@.len() && #[trigger] accs@[jj].0@ == d0[k]->0;
                            }
                        }
                        lemma_day_events_absent(e0, d0, dd);
                        assert(day_events(e0, d0, dd) =~= Seq::<JsonData>::empty());
                        assert(texts_view(Seq::<String>::empty()) =~= seen_all(
                            Seq::<JsonData>::empty().map_values(
                                |v: JsonData| first_text(v, session_names()),
                            ),
                        ));
                        assert(texts_view(Seq::<String>::empty()) =~= seen_all(
                            Seq::<JsonData>::empty().map_values(
                                |v: JsonData| first_text(v, turn_names()),
                            ),
                        ));
                        assert(texts_view(Seq::<String>::empty()) =~= seen_all(
                            Seq::<JsonData>::empty().map_values(|v: JsonData| tool_key_of(v)),
                        ));
                    }
                    let fresh = new_accumulator();
                    proof {
                        assert(texts_view(fresh.sessions@) =~= Seq::<Seq<char>>::empty());
                        assert(texts_view(fresh.turns@) =~= Seq::<Seq<char>>::empty());
                        assert(texts_view(fresh.tool_calls@) =~= Seq::<Seq<char>>::empty());
                        assert(day_accumulation(fresh, day_events(e0, d0, dd)));
                    }
                    let ghost before_push = accs@;
                    accs.push((d.clone(), fresh));
                    proof {
                        assert forall|k: int| 0 <= k < before_push.len() implies accs@[k]
                            == before_push[k] by {}
                    }
                }
                let ghost mid = accs@;
                proof {
                    assert(forall|k: int| 0 <= k < start.len() ==> mid[k] == start[k]);
                    assert(mid.len() == start.len() || (mid.len() == start.len() + 1 && j
                        == start.len()));
                    assert(accs@[j as int].0@ == dd);
                    assert(day_accumulation(accs@[j as int].1, day_events(e0, d0, dd)));
                    lemma_day_events_len(e0, d0, dd);
                    lemma_day_accumulation_bounds(accs@[j as int].1, day_events(e0, d0, dd));
                }
                let mut entry = (String::new(), new_accumulator());
                accs.set_and_swap(j, &mut entry);
                accumulate_event(&events[i], &mut entry.1);
                let ghost after = entry.1;
                accs.set_and_swap(j, &mut entry);
                proof {
                    assert(accs@ == mid.update(j as int, (mid[j as int].0, after)));
                    assert(day_events(e1, d1, dd) == day_events(e0, d0, dd).push(e1.last()));
                    lemma_day_accumulation_step(
                        mid[j as int].1,
                        day_events(e0, d0, dd),
                        e1.last(),
                        after,
                    );
                    assert forall|jj: int, kk: int| 0 <= jj < kk < accs@.len() implies accs@[jj].0@
                        != accs@[kk].0@ by {
                        assert(accs@[jj].0 == mid[jj].0 && accs@[kk].0 == mid[kk].0);
                    }
                    assert forall|jj: int| 0 <= jj < accs@.len() implies d1.contains(
                        Some(#[trigger] accs@[jj].0@),
                    ) && day_accumulation(accs@[jj].1, day_events(e1, d1, accs@[jj].0@)) by {
                        assert(accs@[jj].0 == mid[jj].0);
                        if jj == j {
                            assert(d1[i as int] == Some(dd));
                        } else {
                            assert(mid[jj] == start[jj]);
                            assert(mid[jj].0@ != dd);
                            let k = choose|k: int| 0 <= k < d0.len() && d0[k] == Some(mid[jj].0@);
                            assert(d1[k] == d0[k]);
                        }
                    }
                    assert forall|k: int| 0 <= k < d1.len() && d1[k] is Some implies exists|jj: int|
                        0 <= jj < accs@.len() && #[trigger] accs@[jj].0@ == d1[k]->0 by {
                        if k == i {
                            assert(accs@[j as int].0@ == d1[k]->0);
                        } else {
                            assert(d1[k] == d0[k]);
                            let jj = choose|jj: int|
                                0 <= jj < start.len() && #[trigger] start[jj].0@ == d0[k]->0;
                            assert(mid[jj] == start[jj]);
                            assert(accs@[jj].0 == mid[jj].0);
                        }
                    }
                }

            },
        }
        i += 1;
    }
    proof {
        assert(ev.take(n as int) =~= ev);
        assert(dv.take(n as int) =~= dv);
    }
    accs
}

/// The days of the events of one event file: each event's own day, or the file's day
/// `fallback` when it gives no time that reads; `local_days[k]` is the local day of the time of
/// event `k` where that is an RFC 3339 date-and-time.
pub open spec fn file_event_days(
    events: Seq<JsonData>,
    local_days: Seq<Option<i32>>,
    fallback: Option<Seq<char>>,
) -> Seq<Option<Seq<char>>> {
    Seq::new(
        events.len(),
        |k: int| event_day_spec(events[k], opt_day(local_days[k]), fallback),
    )
}

/// The accumulators of the events of one event file, by day (see [`file_event_days`]).
pub fn scan_hook_event_lines(
    events: &Vec<JsonValue>,
    local_days: &Vec<Option<i32>>,
    fallback: &Option<String>,
) -> (r: Vec<(String, HookDayAccumulator)>)
    requires
        local_days.len() == events.len(),
        forall|k: int| 0 <= k < local_days.len() ==> opt_valid_day(#[trigger] local_days@[k]),
    ensures
        grouped_by_day(
            r@,
            events_view(events@),
            file_event_days(events_view(events@), local_days@, opt_text(*fallback)),
        ),
{
    let ghost want = file_event_days(events_view(events@), local_days@, opt_text(*fallback));
    let mut days: Vec<Option<String>> = Vec::new();
    let mut i: usize = 0;
    while i < events.len()
        invariant
            i <= events.len(),
            local_days.len() == events.len(),
            forall|k: int| 0 <= k < local_days.len() ==> opt_valid_day(#[trigger] local_days@[k]),
            want == file_event_days(events_view(events@), local_days@, opt_text(*fallback)),
            days.len() == i,
            forall|k: int| 0 <= k < i ==> #[trigger] days_view(days@)[k] == want[k],
        decreases events.len() - i,
    {
        let d = event_day_or(&events[i], local_days[i], fallback);
        let ghost before = days@;
        days.push(d);
        proof {
            assert forall|k: int| 0 <= k < i + 1 implies #[trigger] days_view(days@)[k]
                == want[k] by {
                if k < i {
                    assert(days@[k] == before[k]);
                    assert(days_view(before)[k] == want[k]);
                }
            }
        }
        i += 1;
    }
    let r = accumulate_hook_events(events, &days);
    proof {
        assert(days_view(days@) =~= want);
    }
    r
}

/// Records the statistics of each accumulated day, replacing the earlier record of that day.
pub fn merge_day_stats(daily: &mut Vec<(String, HookDayStats)>, accs: &Vec<(String, HookDayAccumulator)>)
    requires
        forall|j: int, k: int| 0 <= j < k < accs@.len() ==> accs@[j].0@ != accs@[k].0@,
    ensures
        forall|j: int|
            0 <= j < accs@.len() ==> hook_stats_on(final(daily)@, #[trigger] accs@[j].0@) == Some(
                accs@[j].1.stats,
            ),
        forall|other: Seq<char>|
            (forall|j: int| 0 <= j < accs@.len() ==> #[trigger] accs@[j].0@ != other)
                ==> hook_stats_on(final(daily)@, other) == hook_stats_on(old(daily)@, other),
        daily_sorted(old(daily)@) ==> daily_sorted(final(daily)@),
{
    let ghost s0 = daily@;
    let mut i: usize = 0;
    while i < accs.len()
        invariant
            i <= accs.len(),
            forall|j: int, k: int| 0 <= j < k < accs@.len() ==> accs@[j].0@ != accs@[k].0@,
            forall|j: int|
                0 <= j < i ==> hook_stats_on(daily@, #[trigger] accs@[j].0@) == Some(
                    accs@[j].1.stats,
                ),
            forall|other: Seq<char>|
                (forall|j: int| 0 <= j < i ==> #[trigger] accs@[j].0@ != other) ==> hook_stats_on(
                    daily@,
                    other,
                ) == hook_stats_on(s0, other),
            daily_sorted(s0) ==> daily_sorted(daily@),
        decreases accs.len() - i,
    {
        let ghost before = daily@;
        let key = accs[i].0.clone();
        set_daily_stats(daily, key, accs[i].1.stats);
        proof {
            assert forall|j: int| 0 <= j < i + 1 implies hook_stats_on(
                daily@,
                #[trigger] accs@[j].0@,
            ) == Some(accs@[j].1.stats) by {
                if j < i {
                    assert(accs@[j].0@ != accs@[i as int].0@);
                }
            }
            assert forall|other: Seq<char>|
                (forall|j: int| 0 <= j < i + 1 ==> #[trigger] accs@[j].0@ != other) implies hook_stats_on(
                daily@,
                other,
            ) == hook_stats_on(s0, other) by {
                assert(accs@[i as int].0@ != other);
                assert(hook_stats_on(daily@, other) == hook_stats_on(before, other));
            }
        }
        i += 1;
    }
}

/// The field copied into a stored event: the first of `names` that is text, under `target`.
pub open spec fn copied(
    e: Seq<(Seq<char>, JsonData)>,
    input: JsonData,
    names: Seq<Seq<char>>,
    target: Seq<char>,
) -> Seq<(Seq<char>, JsonData)> {
    match first_text(input, names) {
        Some(t) => entries_insert(e, target, JsonData::Str(t)),
        None => e,
    }
}

/// The names under which an input event gives its time.
pub open spec fn received_names() -> Seq<Seq<char>> {
    seq!["receivedAt"@, "timestamp"@, "time"@]
}

/// What is stored of a hook event: its kind, session, turn, tool-use id, tool name and time
/// (each the first of its alternative names that is text), with `now` as the time when it
/// gives none; nothing else. An input that is not an object stores an empty object.
pub open spec fn compacted_event(input: JsonData, now: Seq<char>) -> JsonData {
    match input {
        JsonData::Object(_) => {
            let e0 = Seq::<(Seq<char>, JsonData)>::empty();
            let e1 = copied(e0, input, event_names(), "hook_event_name"@);
            let e2 = copied(e1, input, session_names_stored(), "session_id"@);
            let e3 = copied(e2, input, turn_names_stored(), "turn_id"@);
            let e4 = copied(e3, input, tool_use_names(), "tool_use_id"@);
            let e5 = copied(e4, input, tool_name_names(), "tool_name"@);
            let e6 = copied(e5, input, received_names(), "receivedAt"@);
            JsonData::Object(
                if entries_lookup(e6, "receivedAt"@) is Some {
                    e6
                } else {
                    entries_insert(e6, "receivedAt"@, JsonData::Str(now))
                },
            )
        },
        _ => JsonData::Object(Seq::empty()),
    }
}

/// Whether `k` is one of the names a stored hook event keeps.
pub open spec fn is_stored_key(k: Seq<char>) -> bool {
    ||| k == "hook_event_name"@
    ||| k == "session_id"@
    ||| k == "turn_id"@
    ||| k == "tool_use_id"@
    ||| k == "tool_name"@
    ||| k == "receivedAt"@
}

/// Whether every key of `e` is a name a stored hook event keeps.
pub open spec fn keys_stored(e: Seq<(Seq<char>, JsonData)>) -> bool {
    forall|i: int| 0 <= i < e.len() ==> is_stored_key(#[trigger] e[i].0)
}

proof fn lemma_insert_keeps_stored(e: Seq<(Seq<char>, JsonData)>, k: Seq<char>, v: JsonData)
    requires
        keys_stored(e),
        is_stored_key(k),
    ensures
        keys_stored(entries_insert(e, k, v)),
{
    let u = entries_insert(e, k, v);
    lemma_key_index(e, k);
    assert forall|i: int| 0 <= i < u.len() implies is_stored_key(#[trigger] u[i].0) by {
        if key_index(e, k) >= 0 {
            if i != key_index(e, k) {
                assert(u[i] == e[i]);
            }
        } else if i < e.len() {
            assert(u[i] == e[i]);
        }
    }
}

proof fn lemma_copied_keeps_stored(
    e: Seq<(Seq<char>, JsonData)>,
    input: JsonData,
    names: Seq<Seq<char>>,
    target: Seq<char>,
)
    requires
        keys_stored(e),
        is_stored_key(target),
    ensures
        keys_stored(copied(e, input, names, target)),
{
    match first_text(input, names) {
        Some(t) => lemma_insert_keeps_stored(e, target, JsonData::Str(t)),
        None => {},
    }
}

/// A stored hook event keeps nothing but the kind, session, turn, tool-use id, tool name and
/// time of the input event, and always has a time.
pub proof fn lemma_stored_event_keeps_only_statistics_fields(input: JsonData, now: Seq<char>)
    ensures
        compacted_event(input, now) matches JsonData::Object(e) && keys_stored(e),
        input is Object ==> (compacted_event(input, now) matches JsonData::Object(e) && entries_lookup(
            e,
            "receivedAt"@,
        ) is Some),
{
    if input is Object {
        let e0 = Seq::<(Seq<char>, JsonData)>::empty();
        let e1 = copied(e0, input, event_names(), "hook_event_name"@);
        let e2 = copied(e1, input, session_names_stored(), "session_id"@);
        let e3 = copied(e2, input, turn_names_stored(), "turn_id"@);
        let e4 = copied(e3, input, tool_use_names(), "tool_use_id"@);
        let e5 = copied(e4, input, tool_name_names(), "tool_name"@);
        let e6 = copied(e5, input, received_names(), "receivedAt"@);
        lemma_copied_keeps_stored(e0, input, event_names(), "hook_event_name"@);
        lemma_copied_keeps_stored(e1, input, session_names_stored(), "session_id"@);
        lemma_copied_keeps_stored(e2, input, turn_names_stored(), "turn_id"@);
        lemma_copied_keeps_stored(e3, input, tool_use_names(), "tool_use_id"@);
        lemma_copied_keeps_stored(e4, input, tool_name_names(), "tool_name"@);
        lemma_copied_keeps_stored(e5, input, received_names(), "receivedAt"@);
        if entries_lookup(e6, "receivedAt"@) is None {
            lemma_insert_keeps_stored(e6, "receivedAt"@, JsonData::Str(now));
            lemma_lookup_insert_same(e6, "receivedAt"@, JsonData::Str(now));
        }
    }
}

fn copy_string_field(
    input: &JsonValue,
    names: &Vec<&str>,
    target_name: &str,
    target: &mut Vec<(String, JsonValue)>,
)
    ensures
        entry_views(final(target)@) == copied(
            entry_views(old(target)@),
            input@,
            names_view(names@),
            target_name@,
        ),
{
    match string_field(input, names) {
        Some(t) => entries_set(target, target_name, JsonValue::Str(t)),
        None => {},
    }
}

/// What is stored of a hook event (see [`compacted_event`]).
pub fn compact_hook_event(value: &JsonValue, now: &str) -> (r: JsonValue)
    ensures
        r@ == compacted_event(value@, now@),
{
    let mut compact: Vec<(String, JsonValue)> = Vec::new();
    if !value.is_object() {
        assert(entry_views(compact@) =~= Seq::empty());
        return JsonValue::Object(compact);
    }
    assert(entry_views(compact@) =~= Seq::empty());
    let n1 = vec!["hook_event_name", "event", "hook_event", "hookEvent"];
    assert(names_view(n1@) =~= event_names());
    copy_string_field(value, &n1, "hook_event_name", &mut compact);
    let n2 = vec!["session_id", "session", "sessionId"];
    assert(names_view(n2@) =~= session_names_stored());
    copy_string_field(value, &n2, "session_id", &mut compact);
    let n3 = vec!["turn_id", "turn", "turnId"];
    assert(names_view(n3@) =~= turn_names_stored());
    copy_string_field(value, &n3, "turn_id", &mut compact);
    let n4 = vec!["tool_use_id", "toolUseId"];
    assert(names_view(n4@) =~= tool_use_names());
    copy_string_field(value, &n4, "tool_use_id", &mut compact);
    let n5 = vec!["tool_name", "tool", "toolName"];
    assert(names_view(n5@) =~= tool_name_names());
    copy_string_field(value, &n5, "tool_name", &mut compact);
    let n6 = vec!["receivedAt", "timestamp", "time"];
    assert(names_view(n6@) =~= received_names());
    copy_string_field(value, &n6, "receivedAt", &mut compact);
    match find_key(&compact, "receivedAt") {
        Some(_) => {},
        None => {
            entries_set(&mut compact, "receivedAt", JsonValue::Str(String::from_str(now)));
        },
    }
    JsonValue::Object(compact)
}

/// The names, in the order the stored session is looked up, under which an input event names
/// its session.
pub open spec fn session_names_stored() -> Seq<Seq<char>> {
    seq!["session_id"@, "session"@, "sessionId"@]
}

/// The names, in the order the stored turn is looked up, under which an input event names its
/// turn.
pub open spec fn turn_names_stored() -> Seq<Seq<char>> {
    seq!["turn_id"@, "turn"@, "turnId"@]
}


/// A hook input as it is stored: an empty object for blank input, the object itself, another
/// JSON value under `payload`, or the trimmed text under `raw` when it is not JSON. `parsed` is
/// the JSON read from the trimmed input, if it reads.
pub open spec fn normalized_input(input: Seq<char>, parsed: Option<JsonData>) -> JsonData {
    if trim(input).len() == 0 {
        JsonData::Object(Seq::empty())
    } else {
        match parsed {
            Some(JsonData::Object(e)) => JsonData::Object(e),
            Some(v) => JsonData::Object(seq![("payload"@, v)]),
            None => JsonData::Object(seq![("raw"@, JsonData::Str(trim(input)))]),
        }
    }
}

/// A hook input as it is stored (see [`normalized_input`]).
pub fn normalize_hook_input(input: &str, parsed: Option<JsonValue>) -> (r: JsonValue)
    ensures
        r@ == normalized_input(
            input@,
            match parsed {
                Some(v) => Some(v@),
                None => None,
            },
        ),
{
    let trimmed = trim_text(input);
    let mut e: Vec<(String, JsonValue)> = Vec::new();
    if trimmed.unicode_len() == 0 {
        assert(entry_views(e@) =~= Seq::empty());
        return JsonValue::Object(e);
    }
    match parsed {
        Some(JsonValue::Object(o)) => JsonValue::Object(o),
        Some(v) => {
            e.push((String::from_str("payload"), v));
            assert(entry_views(e@) =~= seq![("payload"@, crate::json::json_view(e@[0].1))]);
            JsonValue::Object(e)
        },
        None => {
            e.push((String::from_str("raw"), JsonValue::Str(trimmed)));
            assert(entry_views(e@) =~= seq![("raw"@, JsonData::Str(trim(input@)))]);
            JsonValue::Object(e)
        },
    }
}

/// The first day kept: the retention window ends today.
pub open spec fn retention_start_spec(today: int) -> int {
    today - (HOOK_RETENTION_DAYS - 1)
}

/// The first day of hook data kept on day `today`.
pub fn retention_start(today: i32) -> (r: i32)
    requires
        today >= i32::MIN + 223,
    ensures
        r == retention_start_spec(today as int),
{
    today - 223
}

/// What becomes of an event file when the statistics are gathered.
#[derive(Debug, Clone, Copy, PartialEq, Eq, Structural)]
pub enum EventFileAction {
    /// Read on every scan: today's file, or one whose name is not a date.
    Active,
    /// Deleted: its day is outside the retention window.
    Expired,
    /// Merged into the daily statistics and then deleted: a past day inside the window.
    Completed,
}

/// What becomes of the event file of a day (`None` when its name is not a date).
pub open spec fn event_file_action(day: Option<int>, today: int, start: int) -> EventFileAction {
    match day {
        None => EventFileAction::Active,
        Some(d) => if d < start {
            EventFileAction::Expired
        } else if d < today {
            EventFileAction::Completed
        } else {
            EventFileAction::Active
        },
    }
}

/// What becomes of the event file named `stem` (without `.jsonl`).
pub fn classify_event_file(stem: &str, today: i32, start: i32) -> (r: EventFileAction)
    ensures
        r == event_file_action(chrono_parse_ymd(stem@), today as int, start as int),
{
    match parse_ymd(stem) {
        None => EventFileAction::Active,
        Some(d) => if d < start {
            EventFileAction::Expired
        } else if d < today {
            EventFileAction::Completed
        } else {
            EventFileAction::Active
        },
    }
}

/// The positions, in order, of the files whose action satisfies `wanted`.
pub open spec fn positions_where(
    acts: Seq<EventFileAction>,
    wanted: spec_fn(EventFileAction) -> bool,
) -> Seq<int>
    decreases acts.len(),
{
    if acts.len() == 0 {
        Seq::empty()
    } else {
        let p = positions_where(acts.drop_last(), wanted);
        if wanted(acts.last()) {
            p.push(acts.len() - 1)
        } else {
            p
        }
    }
}

/// The actions on event files named `stems` on day `today` with the window starting at `start`.
pub open spec fn file_actions(stems: Seq<String>, today: int, start: int) -> Seq<EventFileAction> {
    Seq::new(
        stems.len(),
        |k: int| event_file_action(chrono_parse_ymd(stems[k]@), today, start),
    )
}

/// What a scan does with the event files: which are merged into the daily statistics
/// (`completed`), which are read on every scan (`active`), which are deleted (`delete`, the
/// expired and the completed files), and whether the daily statistics file is rewritten (when
/// the retention dropped a record or a file was merged). The daily file is written before any
/// file is deleted, so that no merged event is lost when the write fails.
pub struct EventFilePlan {
    pub completed: Vec<usize>,
    pub active: Vec<usize>,
    pub delete: Vec<usize>,
    pub rewrite_daily: bool,
}

/// The positions as integers.
pub open spec fn positions_view(v: Seq<usize>) -> Seq<int> {
    v.map_values(|x: usize| x as int)
}

/// The plan for the event files named `stems` (see [`EventFilePlan`]).
pub fn plan_event_files(stems: &Vec<String>, today: i32, start: i32, daily_changed: bool) -> (r:
    EventFilePlan)
    ensures
        positions_view(r.completed@) == positions_where(
            file_actions(stems@, today as int, start as int),
            |a: EventFileAction| a == EventFileAction::Completed,
        ),
        positions_view(r.active@) == positions_where(
            file_actions(stems@, today as int, start as int),
            |a: EventFileAction| a == EventFileAction::Active,
        ),
        positions_view(r.delete@) == positions_where(
            file_actions(stems@, today as int, start as int),
            |a: EventFileAction| a != EventFileAction::Active,
        ),
        r.rewrite_daily == (daily_changed || r.completed@.len() > 0),
{
    let ghost acts = file_actions(stems@, today as int, start as int);
    let ghost is_completed = |a: EventFileAction| a == EventFileAction::Completed;
    let ghost is_active = |a: EventFileAction| a == EventFileAction::Active;
    let ghost is_gone = |a: EventFileAction| a != EventFileAction::Active;
    let mut completed: Vec<usize> = Vec::new();
    let mut active: Vec<usize> = Vec::new();
    let mut delete: Vec<usize> = Vec::new();
    let mut i: usize = 0;
    proof {
        assert(acts.take(0) =~= Seq::<EventFileAction>::empty());
        assert(positions_view(completed@) =~= Seq::<int>::empty());
        assert(positions_view(active@) =~= Seq::<int>::empty());
        assert(positions_view(delete@) =~= Seq::<int>::empty());
    }
    while i < stems.len()
        invariant
            i <= stems.len(),
            acts == file_actions(stems@, today as int, start as int),
            is_completed == (|a: EventFileAction| a == EventFileAction::Completed),
            is_active == (|a: EventFileAction| a == EventFileAction::Active),
            is_gone == (|a: EventFileAction| a != EventFileAction::Active),
            positions_view(completed@) == positions_where(acts.take(i as int), is_completed),
            positions_view(active@) == positions_where(acts.take(i as int), is_active),
            positions_view(delete@) == positions_where(acts.take(i as int), is_gone),
        decreases stems.len() - i,
    {
        let action = classify_event_file(stems[i].as_str(), today, start);
        proof {
            assert(acts.take(i + 1).drop_last() =~= acts.take(i as int));
            assert(acts.take(i + 1).last() == action);
            assert(acts.take(i + 1).len() - 1 == i);
        }
        let ghost c0 = completed@;
        let ghost a0 = active@;
        let ghost d0 = delete@;
        match action {
            EventFileAction::Completed => {
                completed.push(i);
                delete.push(i);
            },
            EventFileAction::Expired => {
                delete.push(i);
            },
            EventFileAction::Active => {
                active.push(i);
            },
        }
        proof {
            assert(positions_view(c0.push(i)) =~= positions_view(c0).push(i as int));
            assert(positions_view(a0.push(i)) =~= positions_view(a0).push(i as int));
            assert(positions_view(d0.push(i)) =~= positions_view(d0).push(i as int));
        }
        i += 1;
    }
    proof {
        assert(acts.take(stems.len() as int) =~= acts);
    }
    let rewrite_daily = daily_changed || completed.len() > 0;
    EventFilePlan { completed, active, delete, rewrite_daily }
}

/// Whether the daily record of `date` is kept: its date reads and is inside the window.
pub open spec fn daily_record_kept(date: Seq<char>, start: int) -> bool {
    match chrono_parse_ymd(date) {
        Some(d) => d >= start,
        None => false,
    }
}

/// The daily records that are kept, in order.
pub open spec fn kept_records(s: Seq<(String, HookDayStats)>, start: int) -> Seq<(String, HookDayStats)> {
    s.filter(|x: (String, HookDayStats)| daily_record_kept(x.0@, start))
}

/// Retention keeps exactly the daily records whose date reads and lies inside the window: each
/// record kept is inside it and came from the records, and each record inside it is kept.
pub proof fn lemma_retention_keeps_window(s: Seq<(String, HookDayStats)>, start: int)
    ensures
        forall|i: int|
            0 <= i < kept_records(s, start).len() ==> daily_record_kept(
                (#[trigger] kept_records(s, start)[i]).0@,
                start,
            ) && s.contains(kept_records(s, start)[i]),
        forall|i: int|
            0 <= i < s.len() && daily_record_kept(s[i].0@, start) ==> kept_records(
                s,
                start,
            ).contains(#[trigger] s[i]),
        kept_records(s, start).len() <= s.len(),
{
    let pred = |x: (String, HookDayStats)| daily_record_kept(x.0@, start);
    broadcast use vstd::seq_lib::group_filter_ensures;
    assert forall|i: int| 0 <= i < s.filter(pred).len() implies s.contains(
        #[trigger] s.filter(pred)[i],
    ) by {
        s.lemma_filter_contains_rev(pred, s.filter(pred)[i]);
    }
    s.lemma_filter_len(pred);
}

/// Drops the daily records outside the retention window; true when one was dropped.
pub fn retain_recent_daily_stats(daily: &mut Vec<(String, HookDayStats)>, start: i32) -> (changed: bool)
    ensures
        final(daily)@ == kept_records(old(daily)@, start as int),
        changed == (final(daily)@.len() != old(daily)@.len()),
        daily_sorted(old(daily)@) ==> daily_sorted(final(daily)@),
{
    let ghost s0 = daily@;
    let ghost pred = |x: (String, HookDayStats)| daily_record_kept(x.0@, start as int);
    let mut kept: Vec<(String, HookDayStats)> = Vec::new();
    let n = daily.len();
    let mut i: usize = 0;
    assert(kept@ =~= s0.take(0).filter(pred));
    while i < n
        invariant
            i <= n,
            n == s0.len(),
            daily@.len() == n,
            forall|k: int| i <= k < n ==> daily@[k] == s0[k],
            pred == (|x: (String, HookDayStats)| daily_record_kept(x.0@, start as int)),
            kept@ == s0.take(i as int).filter(pred),
            kept@.len() <= i,
            forall|m: int|
                #![trigger kept@[m]]
                0 <= m < kept@.len() ==> exists|k: int| 0 <= k < i && #[trigger] s0[k] == kept@[m],
            daily_sorted(s0) ==> daily_sorted(kept@),
        decreases n - i,
    {
        let mut x = (String::new(), HookDayStats {
            session_count: 0,
            prompt_count: 0,
            turn_count: 0,
            tool_call_count: 0,
            permission_request_count: 0,
            compact_count: 0,
            subagent_count: 0,
        });
        daily.set_and_swap(i, &mut x);
        proof {
            reveal(Seq::filter);
            assert(s0.take(i + 1).drop_last() =~= s0.take(i as int));
            assert(s0.take(i + 1).last() == s0[i as int]);
        }
        let keep = match parse_ymd(x.0.as_str()) {
            Some(d) => d >= start,
            None => false,
        };
        if keep {
            let ghost k0 = kept@;
            kept.push(x);
            proof {
                assert forall|m: int| #![trigger kept@[m]] 0 <= m < kept@.len() implies exists|k: int|
                    0 <= k < i + 1 && #[trigger] s0[k] == kept@[m] by {
                    if m < k0.len() {
                        let k = choose|k: int| 0 <= k < i && #[trigger] s0[k] == k0[m];
                        assert(s0[k] == kept@[m]);
                    } else {
                        assert(s0[i as int] == kept@[m]);
                    }
                }
                assert forall|p: int, q: int| daily_sorted(s0) && 0 <= p < q < kept@.len() implies text_lt(
                    #[trigger] kept@[p].0@,
                    #[trigger] kept@[q].0@,
                ) by {
                    if q < k0.len() {
                        assert(text_lt(k0[p].0@, k0[q].0@));
                    } else {
                        let k = choose|k: int| 0 <= k < i && #[trigger] s0[k] == k0[p];
                        assert(text_lt(s0[k].0@, s0[i as int].0@));
                    }
                }
            }
        }
        i += 1;
    }
    assert(s0.take(n as int) =~= s0);
    let changed = kept.len() != n;
    *daily = kept;
    changed
}

/// Whether the daily records are in strictly increasing order of their dates, as in a map
/// keyed by date.
pub open spec fn daily_sorted(s: Seq<(String, HookDayStats)>) -> bool {
    forall|i: int, j: int| 0 <= i < j < s.len() ==> text_lt(#[trigger] s[i].0@, #[trigger] s[j].0@)
}

/// Sets the statistics recorded for `date`, replacing any earlier record of that day; a new
/// day goes in date order.
pub fn set_daily_stats(daily: &mut Vec<(String, HookDayStats)>, date: String, stats: HookDayStats)
    ensures
        hook_stats_on(final(daily)@, date@) == Some(stats),
        forall|other: Seq<char>|
            other != date@ ==> hook_stats_on(final(daily)@, other) == hook_stats_on(
                old(daily)@,
                other,
            ),
        daily_sorted(old(daily)@) ==> daily_sorted(final(daily)@),
{
    let ghost s0 = daily@;
    let ghost dd = date;
    let mut i: usize = 0;
    while i < daily.len() && text_less(daily[i].0.as_str(), date.as_str())
        invariant
            i <= daily.len(),
            daily@ == s0,
            forall|k: int| 0 <= k < i ==> text_lt(#[trigger] s0[k].0@, date@),
        decreases daily.len() - i,
    {
        i += 1;
    }
    proof {
        lemma_text_lt_irreflexive(date@);
        assert forall|k: int| 0 <= k < i implies s0[k].0@ != date@ by {
            assert(text_lt(s0[k].0@, date@));
        }
    }
    if i < daily.len() && text_eq(daily[i].0.as_str(), date.as_str()) {
        daily.set(i, (date, stats));
        proof {
            lemma_hook_stats_on_update(s0, i as int, dd, stats);
            let u = daily@;
            assert forall|p: int, q: int| daily_sorted(s0) && 0 <= p < q < u.len() implies text_lt(
                #[trigger] u[p].0@,
                #[trigger] u[q].0@,
            ) by {
                assert(u[p].0@ == s0[p].0@);
                assert(u[q].0@ == s0[q].0@);
                assert(text_lt(s0[p].0@, s0[q].0@));
            }
        }
    } else {
        daily.insert(i, (date, stats));
        proof {
            lemma_hook_stats_on_insert(s0, i as int, dd, stats);
            let u = daily@;
            if i < s0.len() {
                lemma_text_lt_total(s0[i as int].0@, date@);
            }
            assert forall|p: int, q: int| daily_sorted(s0) && 0 <= p < q < u.len() implies text_lt(
                #[trigger] u[p].0@,
                #[trigger] u[q].0@,
            ) by {
                if q < i {
                    assert(text_lt(s0[p].0@, s0[q].0@));
                } else if q == i {
                    assert(text_lt(s0[p].0@, date@));
                } else if p < i {
                    assert(text_lt(s0[p].0@, s0[q - 1].0@));
                } else if p == i {
                    if q - 1 > i {
                        assert(text_lt(s0[i as int].0@, s0[q - 1].0@));
                        lemma_text_lt_transitive(date@, s0[i as int].0@, s0[q - 1].0@);
                    }
                } else {
                    assert(text_lt(s0[p - 1].0@, s0[q - 1].0@));
                }
            }
        }
    }
}

proof fn lemma_hook_stats_on_insert_other(
    s: Seq<(String, HookDayStats)>,
    i: int,
    dd: String,
    v: HookDayStats,
    other: Seq<char>,
)
    requires
        0 <= i <= s.len(),
        dd@ != other,
    ensures
        hook_stats_on(s.insert(i, (dd, v)), other) == hook_stats_on(s, other),
    decreases i,
{
    let u = s.insert(i, (dd, v));
    if i == 0 {
        assert(u.drop_first() =~= s);
    } else {
        assert(u[0] == s[0]);
        assert(u.drop_first() =~= s.drop_first().insert(i - 1, (dd, v)));
        lemma_hook_stats_on_insert_other(s.drop_first(), i - 1, dd, v, other);
    }
}

proof fn lemma_hook_stats_on_insert(s: Seq<(String, HookDayStats)>, i: int, dd: String, v: HookDayStats)
    requires
        0 <= i <= s.len(),
        forall|k: int| 0 <= k < i ==> s[k].0@ != dd@,
    ensures
        hook_stats_on(s.insert(i, (dd, v)), dd@) == Some(v),
        forall|other: Seq<char>|
            other != dd@ ==> hook_stats_on(s.insert(i, (dd, v)), other) == hook_stats_on(s, other),
{
    let u = s.insert(i, (dd, v));
    assert forall|k: int| 0 <= k < i implies u[k].0@ != dd@ by {
        assert(u[k] == s[k]);
    }
    lemma_hook_stats_on_prefix(u, i, dd@);
    assert(u.skip(i)[0] == (dd, v));
    assert forall|other: Seq<char>| other != dd@ implies hook_stats_on(u, other)
        == hook_stats_on(s, other) by {
        lemma_hook_stats_on_insert_other(s, i, dd, v, other);
    }
}

proof fn lemma_hook_stats_on_prefix(s: Seq<(String, HookDayStats)>, i: int, key: Seq<char>)
    requires
        0 <= i <= s.len(),
        forall|k: int| 0 <= k < i ==> s[k].0@ != key,
    ensures
        hook_stats_on(s, key) == hook_stats_on(s.skip(i), key),
    decreases i,
{
    if i > 0 {
        assert(s.drop_first().skip(i - 1) =~= s.skip(i));
        assert forall|k: int| 0 <= k < i - 1 implies s.drop_first()[k].0@ != key by {
            assert(s.drop_first()[k] == s[k + 1]);
        }
        lemma_hook_stats_on_prefix(s.drop_first(), i - 1, key);
    } else {
        assert(s.skip(0) =~= s);
    }
}

proof fn lemma_hook_stats_on_same_except(
    s: Seq<(String, HookDayStats)>,
    u: Seq<(String, HookDayStats)>,
    i: int,
    other: Seq<char>,
)
    requires
        s.len() == u.len(),
        0 <= i < s.len(),
        forall|k: int| 0 <= k < s.len() && k != i ==> u[k] == s[k],
        s[i].0@ != other,
        u[i].0@ != other,
    ensures
        hook_stats_on(u, other) == hook_stats_on(s, other),
    decreases s.len(),
{
    if i == 0 {
        assert(u.drop_first() =~= s.drop_first());
    } else {
        assert(u[0] == s[0]);
        if s[0].0@ != other {
            lemma_hook_stats_on_same_except(s.drop_first(), u.drop_first(), i - 1, other);
        }
    }
}

proof fn lemma_hook_stats_on_update(
    s: Seq<(String, HookDayStats)>,
    i: int,
    dd: String,
    v: HookDayStats,
)
    requires
        0 <= i < s.len(),
        s[i].0@ == dd@,
        forall|k: int| 0 <= k < i ==> s[k].0@ != dd@,
    ensures
        hook_stats_on(s.update(i, (dd, v)), dd@) == Some(v),
        forall|other: Seq<char>|
            other != dd@ ==> hook_stats_on(s.update(i, (dd, v)), other) == hook_stats_on(
                s,
                other,
            ),
{
    let u = s.update(i, (dd, v));
    assert forall|k: int| 0 <= k < i implies u[k].0@ != dd@ by {
        assert(u[k] == s[k]);
    }
    lemma_hook_stats_on_prefix(u, i, dd@);
    assert(u.skip(i)[0] == (dd, v));
    assert forall|other: Seq<char>| other != dd@ implies hook_stats_on(u, other)
        == hook_stats_on(s, other) by {
        lemma_hook_stats_on_same_except(s, u, i, other);
    }
}

proof fn lemma_hook_stats_on_push_other(
    s: Seq<(String, HookDayStats)>,
    dd: String,
    v: HookDayStats,
    other: Seq<char>,
)
    requires
        dd@ != other,
    ensures
        hook_stats_on(s.push((dd, v)), other) == hook_stats_on(s, other),
    decreases s.len(),
{
    if s.len() > 0 {
        assert(s.push((dd, v))[0] == s[0]);
        assert(s.push((dd, v)).drop_first() =~= s.drop_first().push((dd, v)));
        lemma_hook_stats_on_push_other(s.drop_first(), dd, v, other);
    } else {
        assert(s.push((dd, v)).drop_first() =~= Seq::<(String, HookDayStats)>::empty());
        reveal_with_fuel(hook_stats_on, 2);
    }
}

proof fn lemma_hook_stats_on_push(s: Seq<(String, HookDayStats)>, dd: String, v: HookDayStats)
    requires
        forall|k: int| 0 <= k < s.len() ==> s[k].0@ != dd@,
    ensures
        hook_stats_on(s.push((dd, v)), dd@) == Some(v),
        forall|other: Seq<char>|
            other != dd@ ==> hook_stats_on(s.push((dd, v)), other) == hook_stats_on(s, other),
{
    let u = s.push((dd, v));
    assert forall|k: int| 0 <= k < s.len() implies u[k].0@ != dd@ by {
        assert(u[k] == s[k]);
    }
    lemma_hook_stats_on_prefix(u, s.len() as int, dd@);
    assert(u.skip(s.len() as int)[0] == (dd, v));
    assert forall|other: Seq<char>| other != dd@ implies hook_stats_on(u, other)
        == hook_stats_on(s, other) by {
        lemma_hook_stats_on_push_other(s, dd, v, other);
    }
}

} // verus!
