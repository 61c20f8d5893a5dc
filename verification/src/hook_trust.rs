//! Reading the hook list that Codex reports (`hooks/list`): which hooks belong to this copy
//! of the application, whether they are enabled and trusted, and the trust entries the
//! application writes back.
use vstd::prelude::*;

use crate::hook_command::{
    command_matches_current_exe, command_matches_exe, normalized_path, normalized_path_text,
};
use crate::hooks_config::{config_has_codextray, event_count, hook_event_name, hook_events};
use crate::json::{
    entries_insert, entry_views, entries_set, group_json_views, json_view, json_views,
    lemma_entry_views, lemma_json_views, JsonData, JsonValue,
};
use crate::text::{char_lowercase, char_to_lowercase, lower_seq, lower_text, text_eq};

verus! {

broadcast use group_json_views;

/// The data entries of a `hooks/list` response (one per working directory).
pub open spec fn response_data(resp: JsonData) -> Option<Seq<JsonData>> {
    resp.field_or_self("result"@).field_items("data"@)
}

/// The hooks of one data entry.
pub open spec fn entry_hooks(entry: JsonData) -> Seq<JsonData> {
    match entry.field_items("hooks"@) {
        Some(h) => h,
        None => Seq::empty(),
    }
}

/// The hooks of the data entries, in order.
pub open spec fn hooks_of_entries(d: Seq<JsonData>) -> Seq<JsonData>
    decreases d.len(),
{
    if d.len() == 0 {
        Seq::empty()
    } else {
        hooks_of_entries(d.drop_last()) + entry_hooks(d.last())
    }
}

/// Every hook the response reports, in order.
pub open spec fn metadata_items(resp: JsonData) -> Seq<JsonData> {
    match response_data(resp) {
        Some(d) => hooks_of_entries(d),
        None => Seq::empty(),
    }
}

/// Every hook the response reports, in order.
pub fn hook_metadata_items(response: &JsonValue) -> (r: Vec<JsonValue>)
    ensures
        json_views(r@) == metadata_items(response@),
{
    let mut out: Vec<JsonValue> = Vec::new();
    proof {
        assert(json_views(out@) =~= Seq::empty());
    }
    let base = match response.get("result") {
        Some(b) => b,
        None => response,
    };
    let data = match base.get("data") {
        Some(d) => match d.as_array() {
            Some(a) => a,
            None => {
                return out;
            },
        },
        None => {
            return out;
        },
    };
    let ghost dv = json_views(data@);
    proof {
        lemma_json_views(data@);
        assert(dv.take(0) =~= Seq::empty());
    }
    let mut i: usize = 0;
    while i < data.len()
        invariant
            i <= data.len(),
            dv == json_views(data@),
            dv.len() == data.len(),
            Some(dv) == response_data(response@),
            forall|k: int| 0 <= k < data.len() ==> #[trigger] dv[k] == json_view(data@[k]),
            json_views(out@) == hooks_of_entries(dv.take(i as int)),
        decreases data.len() - i,
    {
        let ghost before = json_views(out@);
        let ghost hv = entry_hooks(dv[i as int]);
        match data[i].get("hooks") {
            Some(h) => match h.as_array() {
                Some(hooks) => {
                    proof {
                        lemma_json_views(hooks@);
                        assert(hv == json_views(hooks@));
                        assert(before + hv.take(0) =~= before);
                    }
                    let mut t: usize = 0;
                    while t < hooks.len()
                        invariant
                            t <= hooks.len(),
                            hv == json_views(hooks@),
                            hv.len() == hooks.len(),
                            forall|k: int| 0 <= k < hooks.len() ==> #[trigger] hv[k] == json_view(hooks@[k]),
                            json_views(out@) == before + hv.take(t as int),
                        decreases hooks.len() - t,
                    {
                        let c = hooks[t].deep_copy();
                        let ghost prev = out@;
                        out.push(c);
                        proof {
                            assert(out@.drop_last() =~= prev);
                            assert(before + hv.take(t + 1) =~= (before + hv.take(t as int)).push(hv[t as int]));
                        }
                        t += 1;
                    }
                    proof {
                        assert(hv.take(hooks.len() as int) =~= hv);
                    }
                },
                None => {
                    assert(before + hv =~= before);
                },
            },
            None => {
                assert(before + hv =~= before);
            },
        }
        proof {
            assert(dv.take(i + 1).drop_last() =~= dv.take(i as int));
            assert(dv.take(i + 1).last() == dv[i as int]);
        }
        i += 1;
    }
    proof {
        assert(dv.take(data.len() as int) =~= dv);
    }
    out
}

/// Whether `c` is dropped when event names are compared.
pub open spec fn is_event_separator(c: char) -> bool {
    c == '_' || c == '-' || c == ' '
}

/// An event name as it is compared: without `_`, `-` and spaces, in Unicode lower case.
pub open spec fn normalized_event_name(s: Seq<char>) -> Seq<char>
    decreases s.len(),
{
    if s.len() == 0 {
        Seq::empty()
    } else {
        let p = normalized_event_name(s.drop_last());
        if is_event_separator(s.last()) {
            p
        } else {
            p + char_lowercase(s.last())
        }
    }
}

/// An event name as it is compared (see [`normalized_event_name`]).
pub fn normalized_event_name_text(value: &str) -> (r: String)
    ensures
        r@ == normalized_event_name(value@),
{
    let n = value.unicode_len();
    let mut out = String::new();
    let mut i: usize = 0;
    while i < n
        invariant
            n == value@.len(),
            i <= n,
            out@ == normalized_event_name(value@.take(i as int)),
        decreases n - i,
    {
        let c = value.get_char(i);
        proof {
            assert(value@.take(i + 1).drop_last() =~= value@.take(i as int));
            assert(value@.take(i + 1).last() == c);
        }
        if !(c == '_' || c == '-' || c == ' ') {
            let l = char_to_lowercase(c);
            out.append(l.as_str());
        }
        i += 1;
    }
    proof {
        assert(value@.take(n as int) =~= value@);
    }
    out
}

/// Whether a reported hook is for `event`, comparing normalised names.
pub open spec fn hook_event_matches(h: JsonData, event: Seq<char>) -> bool {
    match h.field_text("eventName"@) {
        Some(v) => normalized_event_name(v) == normalized_event_name(event),
        None => false,
    }
}

/// Whether a reported hook comes from the hook file at `hooks_path`.
pub open spec fn hook_source_matches(h: JsonData, hooks_path: Seq<char>) -> bool {
    match h.field_text("sourcePath"@) {
        Some(s) => normalized_path(s) == normalized_path(hooks_path),
        None => false,
    }
}

/// Whether Codex reports a hook as untrusted or modified since it was trusted.
pub open spec fn hook_needs_trust_update(h: JsonData) -> bool {
    match h.field_text("trustStatus"@) {
        Some(t) => lower_seq(t) == "untrusted"@ || lower_seq(t) == "modified"@,
        None => false,
    }
}

/// Whether a reported hook runs the hook command of `exe`.
pub open spec fn hook_command_matches(h: JsonData, exe: Seq<char>) -> bool {
    match h.field_text("command"@) {
        Some(c) => command_matches_exe(c, exe),
        None => false,
    }
}

/// Whether a reported hook is one this copy of the application installed: its command and
/// its source file.
pub open spec fn hook_is_managed(h: JsonData, exe: Seq<char>, hooks_path: Seq<char>) -> bool {
    hook_command_matches(h, exe) && hook_source_matches(h, hooks_path)
}

/// Whether a reported hook is for `event`.
pub fn hook_event_matches_exec(h: &JsonValue, event: &str) -> (r: bool)
    ensures
        r == hook_event_matches(h@, event@),
{
    match h.field_str("eventName") {
        Some(v) => {
            let a = normalized_event_name_text(v);
            let b = normalized_event_name_text(event);
            text_eq(a.as_str(), b.as_str())
        },
        None => false,
    }
}

/// Whether a reported hook comes from the hook file at `hooks_path`.
pub fn hook_source_matches_exec(h: &JsonValue, hooks_path: &str) -> (r: bool)
    ensures
        r == hook_source_matches(h@, hooks_path@),
{
    match h.field_str("sourcePath") {
        Some(s) => {
            let a = normalized_path_text(s);
            let b = normalized_path_text(hooks_path);
            text_eq(a.as_str(), b.as_str())
        },
        None => false,
    }
}

/// Whether Codex reports a hook as untrusted or modified.
pub fn hook_needs_trust_update_exec(h: &JsonValue) -> (r: bool)
    ensures
        r == hook_needs_trust_update(h@),
{
    match h.field_str("trustStatus") {
        Some(t) => {
            let l = lower_text(t);
            text_eq(l.as_str(), "untrusted") || text_eq(l.as_str(), "modified")
        },
        None => false,
    }
}

/// Whether a reported hook runs the hook command of `exe`.
pub fn hook_command_matches_exec(h: &JsonValue, exe: &str) -> (r: bool)
    ensures
        r == hook_command_matches(h@, exe@),
{
    match h.field_str("command") {
        Some(c) => command_matches_current_exe(c, exe),
        None => false,
    }
}

/// Whether a reported hook was installed by this copy of the application.
pub fn hook_is_managed_codextray(h: &JsonValue, exe: &str, hooks_path: &str) -> (r: bool)
    ensures
        r == hook_is_managed(h@, exe@, hooks_path@),
{
    hook_command_matches_exec(h, exe) && hook_source_matches_exec(h, hooks_path)
}

/// Whether a hook is a candidate for `event`: the event and the command of `exe` match.
pub open spec fn event_candidate(h: JsonData, event: Seq<char>, exe: Seq<char>) -> bool {
    hook_event_matches(h, event) && hook_command_matches(h, exe)
}

/// The index of the first candidate for `event` from the hook file at `hooks_path`, at or
/// after `i`, or -1.
pub open spec fn first_sourced_candidate(
    hs: Seq<JsonData>,
    event: Seq<char>,
    exe: Seq<char>,
    hooks_path: Seq<char>,
    i: int,
) -> int
    decreases hs.len() - i,
{
    if i < 0 || i >= hs.len() {
        -1
    } else if event_candidate(hs[i], event, exe) && hook_source_matches(hs[i], hooks_path) {
        i
    } else {
        first_sourced_candidate(hs, event, exe, hooks_path, i + 1)
    }
}

/// The index of the first candidate for `event` at or after `i`, or -1.
pub open spec fn first_candidate(hs: Seq<JsonData>, event: Seq<char>, exe: Seq<char>, i: int) -> int
    decreases hs.len() - i,
{
    if i < 0 || i >= hs.len() {
        -1
    } else if event_candidate(hs[i], event, exe) {
        i
    } else {
        first_candidate(hs, event, exe, i + 1)
    }
}

/// The hook that stands for `event`: the first candidate from the global hook file, else the
/// first candidate from anywhere; -1 when there is none.
pub open spec fn matching_hook_index(
    hs: Seq<JsonData>,
    event: Seq<char>,
    exe: Seq<char>,
    hooks_path: Seq<char>,
) -> int {
    let a = first_sourced_candidate(hs, event, exe, hooks_path, 0);
    if a >= 0 {
        a
    } else {
        first_candidate(hs, event, exe, 0)
    }
}

proof fn lemma_first_sourced_range(
    hs: Seq<JsonData>,
    event: Seq<char>,
    exe: Seq<char>,
    hooks_path: Seq<char>,
    i: int,
)
    requires
        0 <= i,
    ensures
        -1 <= first_sourced_candidate(hs, event, exe, hooks_path, i) < hs.len(),
    decreases hs.len() - i,
{
    if i < hs.len() {
        lemma_first_sourced_range(hs, event, exe, hooks_path, i + 1);
    }
}

proof fn lemma_first_candidate_range(hs: Seq<JsonData>, event: Seq<char>, exe: Seq<char>, i: int)
    requires
        0 <= i,
    ensures
        -1 <= first_candidate(hs, event, exe, i) < hs.len(),
    decreases hs.len() - i,
{
    if i < hs.len() {
        lemma_first_candidate_range(hs, event, exe, i + 1);
    }
}

/// The index of the hook that stands for `event` among the reported hooks.
pub fn matching_hook_for_event(hooks: &Vec<JsonValue>, event: &str, exe: &str, hooks_path: &str) -> (r:
    Option<usize>)
    ensures
        match r {
            Some(i) => i < hooks.len() && i as int == matching_hook_index(
                json_views(hooks@),
                event@,
                exe@,
                hooks_path@,
            ),
            None => matching_hook_index(json_views(hooks@), event@, exe@, hooks_path@) == -1,
        },
{
    let ghost hv = json_views(hooks@);
    proof {
        lemma_json_views(hooks@);
        lemma_first_sourced_range(hv, event@, exe@, hooks_path@, 0);
        lemma_first_candidate_range(hv, event@, exe@, 0);
    }
    let mut i: usize = 0;
    while i < hooks.len()
        invariant
            i <= hooks.len(),
            hv == json_views(hooks@),
            hv.len() == hooks.len(),
            forall|k: int| 0 <= k < hooks.len() ==> #[trigger] hv[k] == json_view(hooks@[k]),
            first_sourced_candidate(hv, event@, exe@, hooks_path@, 0) == first_sourced_candidate(
                hv,
                event@,
                exe@,
                hooks_path@,
                i as int,
            ),
        decreases hooks.len() - i,
    {
        if hook_event_matches_exec(&hooks[i], event) && hook_command_matches_exec(&hooks[i], exe)
            && hook_source_matches_exec(&hooks[i], hooks_path) {
            return Some(i);
        }
        i += 1;
    }
    let mut j: usize = 0;
    while j < hooks.len()
        invariant
            j <= hooks.len(),
            hv == json_views(hooks@),
            hv.len() == hooks.len(),
            forall|k: int| 0 <= k < hooks.len() ==> #[trigger] hv[k] == json_view(hooks@[k]),
            first_sourced_candidate(hv, event@, exe@, hooks_path@, 0) == -1,
            first_candidate(hv, event@, exe@, 0) == first_candidate(hv, event@, exe@, j as int),
        decreases hooks.len() - j,
    {
        if hook_event_matches_exec(&hooks[j], event) && hook_command_matches_exec(&hooks[j], exe) {
            return Some(j);
        }
        j += 1;
    }
    None
}

/// The errors one data entry reports.
pub open spec fn entry_errors(entry: JsonData) -> Seq<JsonData> {
    match entry.field_items("errors"@) {
        Some(e) => e,
        None => Seq::empty(),
    }
}

/// The message for the first hooked event, from `i` on, whose hook is missing, disabled,
/// untrusted or from another file; none when all are in order.
pub open spec fn event_problem(hs: Seq<JsonData>, exe: Seq<char>, hooks_path: Seq<char>, i: int) -> Option<
    Seq<char>,
>
    decreases event_count() - i,
{
    if i < 0 || i >= event_count() {
        None
    } else {
        let m = matching_hook_index(hs, hook_events()[i], exe, hooks_path);
        if m < 0 {
            Some("CodexTray Hook 已不完整"@)
        } else if hs[m].field_bool("enabled"@) == Some(false) {
            Some("CodexTray Hook 已被 Codex 禁用"@)
        } else if hook_needs_trust_update(hs[m]) {
            Some("CodexTray Hook 未被信任"@)
        } else if !hook_source_matches(hs[m], hooks_path) {
            Some("CodexTray Hook 来源不是全局 hooks.json"@)
        } else {
            event_problem(hs, exe, hooks_path, i + 1)
        }
    }
}

/// Why the hooks Codex reports do not show this copy's hooks as active, or none when they
/// do: no data, configuration errors, or the first hooked event whose hook is missing,
/// disabled, untrusted or from another file.
pub open spec fn validation_message(resp: JsonData, exe: Seq<char>, hooks_path: Seq<char>) -> Option<
    Seq<char>,
> {
    match response_data(resp) {
        None => Some("Codex 没有返回 Hook 状态"@),
        Some(d) => if d.len() == 0 {
            Some("Codex 没有返回 Hook 状态"@)
        } else if exists|k: int| 0 <= k < d.len() && #[trigger] entry_errors(d[k]).len() > 0 {
            Some("Codex 返回 Hook 配置错误"@)
        } else {
            event_problem(metadata_items(resp), exe, hooks_path, 0)
        },
    }
}

fn some_text(s: &str) -> (r: Option<String>)
    ensures
        r matches Some(x) && x@ == s@,
{
    Some(String::from_str(s))
}

/// Why the reported hooks do not show the hooks of `exe` from `hooks_path` as active, or none.
pub fn hook_validation_message(response: &JsonValue, exe: &str, hooks_path: &str) -> (r: Option<String>)
    ensures
        match r {
            Some(m) => validation_message(response@, exe@, hooks_path@) == Some(m@),
            None => validation_message(response@, exe@, hooks_path@) is None,
        },
{
    let base = match response.get("result") {
        Some(b) => b,
        None => response,
    };
    let data = match base.get("data") {
        Some(d) => match d.as_array() {
            Some(a) => a,
            None => {
                return some_text("Codex 没有返回 Hook 状态");
            },
        },
        None => {
            return some_text("Codex 没有返回 Hook 状态");
        },
    };
    if data.len() == 0 {
        return some_text("Codex 没有返回 Hook 状态");
    }
    let ghost dv = json_views(data@);
    proof {
        lemma_json_views(data@);
        assert(response_data(response@) == Some(dv));
    }
    let mut i: usize = 0;
    while i < data.len()
        invariant
            i <= data.len(),
            response_data(response@) == Some(dv),
            dv == json_views(data@),
            dv.len() == data.len(),
            forall|k: int| 0 <= k < data.len() ==> #[trigger] dv[k] == json_view(data@[k]),
            forall|k: int| 0 <= k < i ==> #[trigger] entry_errors(dv[k]).len() == 0,
        decreases data.len() - i,
    {
        let has_errors = match data[i].get("errors") {
            Some(e) => match e.as_array() {
                Some(a) => a.len() > 0,
                None => false,
            },
            None => false,
        };
        if has_errors {
            proof {
                assert(entry_errors(dv[i as int]).len() > 0);
            }
            return some_text("Codex 返回 Hook 配置错误");
        }
        i += 1;
    }
    let hooks = hook_metadata_items(response);
    let ghost hv = json_views(hooks@);
    proof {
        lemma_json_views(hooks@);
    }
    let mut e: usize = 0;
    proof {
        assert(validation_message(response@, exe@, hooks_path@) == event_problem(hv, exe@, hooks_path@, 0));
    }
    while e < 10
        invariant
            e <= 10,
            validation_message(response@, exe@, hooks_path@) == event_problem(hv, exe@, hooks_path@, 0),
            hv == json_views(hooks@),
            hv.len() == hooks.len(),
            forall|k: int| 0 <= k < hooks.len() ==> #[trigger] hv[k] == json_view(hooks@[k]),
            hv == metadata_items(response@),
            event_problem(hv, exe@, hooks_path@, 0) == event_problem(hv, exe@, hooks_path@, e as int),
        decreases 10 - e,
    {
        let event = hook_event_name(e);
        match matching_hook_for_event(&hooks, event, exe, hooks_path) {
            None => {
                return some_text("CodexTray Hook 已不完整");
            },
            Some(m) => {
                let hook = &hooks[m];
                let disabled = match hook.get("enabled") {
                    Some(v) => v.as_bool() == Some(false),
                    None => false,
                };
                if disabled {
                    return some_text("CodexTray Hook 已被 Codex 禁用");
                }
                if hook_needs_trust_update_exec(hook) {
                    return some_text("CodexTray Hook 未被信任");
                }
                if !hook_source_matches_exec(hook, hooks_path) {
                    return some_text("CodexTray Hook 来源不是全局 hooks.json");
                }
            },
        }
        e += 1;
    }
    None
}

/// The trust entries (key, current hash) that the managed hooks needing trust ask for, in
/// order; hooks without a key or hash are skipped.
pub open spec fn trust_updates(hs: Seq<JsonData>, exe: Seq<char>, hooks_path: Seq<char>) -> Seq<
    (Seq<char>, Seq<char>),
>
    decreases hs.len(),
{
    if hs.len() == 0 {
        Seq::empty()
    } else {
        let prev = trust_updates(hs.drop_last(), exe, hooks_path);
        let h = hs.last();
        if hook_is_managed(h, exe, hooks_path) && hook_needs_trust_update(h) {
            match (h.field_text("key"@), h.field_text("currentHash"@)) {
                (Some(k), Some(c)) => if k.len() > 0 && c.len() > 0 {
                    prev.push((k, c))
                } else {
                    prev
                },
                _ => prev,
            }
        } else {
            prev
        }
    }
}

/// The views of a list of text pairs.
pub open spec fn pair_views(v: Seq<(String, String)>) -> Seq<(Seq<char>, Seq<char>)> {
    v.map_values(|p: (String, String)| (p.0@, p.1@))
}

/// The trust entries that the managed hooks of the response need.
pub fn hook_trust_entries_needing_update(response: &JsonValue, exe: &str, hooks_path: &str) -> (r:
    Vec<(String, String)>)
    ensures
        pair_views(r@) == trust_updates(metadata_items(response@), exe@, hooks_path@),
{
    let hooks = hook_metadata_items(response);
    let ghost hv = json_views(hooks@);
    proof {
        lemma_json_views(hooks@);
        assert(pair_views(Seq::<(String, String)>::empty()) =~= trust_updates(hv.take(0), exe@, hooks_path@));
    }
    let mut out: Vec<(String, String)> = Vec::new();
    let mut i: usize = 0;
    while i < hooks.len()
        invariant
            i <= hooks.len(),
            hv == json_views(hooks@),
            hv.len() == hooks.len(),
            forall|k: int| 0 <= k < hooks.len() ==> #[trigger] hv[k] == json_view(hooks@[k]),
            pair_views(out@) == trust_updates(hv.take(i as int), exe@, hooks_path@),
        decreases hooks.len() - i,
    {
        let hook = &hooks[i];
        proof {
            assert(hv.take(i + 1).drop_last() =~= hv.take(i as int));
            assert(hv.take(i + 1).last() == hv[i as int]);
        }
        if hook_is_managed_codextray(hook, exe, hooks_path) && hook_needs_trust_update_exec(hook) {
            match (hook.field_str("key"), hook.field_str("currentHash")) {
                (Some(k), Some(c)) => {
                    if k.unicode_len() > 0 && c.unicode_len() > 0 {
                        let ghost prev = out@;
                        out.push((String::from_str(k), String::from_str(c)));
                        assert(pair_views(out@) =~= pair_views(prev).push((k@, c@)));
                    }
                },
                _ => {},
            }
        }
        i += 1;
    }
    proof {
        assert(hv.take(hooks.len() as int) =~= hv);
    }
    out
}

/// The trust keys of the managed hooks, in order; empty keys are skipped.
pub open spec fn managed_keys(hs: Seq<JsonData>, exe: Seq<char>, hooks_path: Seq<char>) -> Seq<
    Seq<char>,
>
    decreases hs.len(),
{
    if hs.len() == 0 {
        Seq::empty()
    } else {
        let prev = managed_keys(hs.drop_last(), exe, hooks_path);
        let h = hs.last();
        if hook_is_managed(h, exe, hooks_path) {
            match h.field_text("key"@) {
                Some(k) => if k.len() > 0 {
                    prev.push(k)
                } else {
                    prev
                },
                None => prev,
            }
        } else {
            prev
        }
    }
}

/// The views of a list of texts.
pub open spec fn text_views(v: Seq<String>) -> Seq<Seq<char>> {
    v.map_values(|s: String| s@)
}

/// The trust keys of the hooks this copy of the application installed.
pub fn managed_hook_trust_keys(response: &JsonValue, exe: &str, hooks_path: &str) -> (r: Vec<String>)
    ensures
        text_views(r@) == managed_keys(metadata_items(response@), exe@, hooks_path@),
{
    let hooks = hook_metadata_items(response);
    let ghost hv = json_views(hooks@);
    proof {
        lemma_json_views(hooks@);
        assert(text_views(Seq::<String>::empty()) =~= managed_keys(hv.take(0), exe@, hooks_path@));
    }
    let mut out: Vec<String> = Vec::new();
    let mut i: usize = 0;
    while i < hooks.len()
        invariant
            i <= hooks.len(),
            hv == json_views(hooks@),
            hv.len() == hooks.len(),
            forall|k: int| 0 <= k < hooks.len() ==> #[trigger] hv[k] == json_view(hooks@[k]),
            text_views(out@) == managed_keys(hv.take(i as int), exe@, hooks_path@),
        decreases hooks.len() - i,
    {
        let hook = &hooks[i];
        proof {
            assert(hv.take(i + 1).drop_last() =~= hv.take(i as int));
            assert(hv.take(i + 1).last() == hv[i as int]);
        }
        if hook_is_managed_codextray(hook, exe, hooks_path) {
            match hook.field_str("key") {
                Some(k) => {
                    if k.unicode_len() > 0 {
                        let ghost prev = out@;
                        out.push(String::from_str(k));
                        assert(text_views(out@) =~= text_views(prev).push(k@));
                    }
                },
                None => {},
            }
        }
        i += 1;
    }
    proof {
        assert(hv.take(hooks.len() as int) =~= hv);
    }
    out
}

/// The trust state stored in the Codex configuration: `hooks.state.<key>.trusted_hash` for
/// each key, in order; entries without a hash are skipped.
pub open spec fn trust_state_entries(resp: JsonData) -> Seq<(Seq<char>, Seq<char>)> {
    let state = match resp.field_or_self("result"@).field("config"@) {
        Some(c) => match c.field("hooks"@) {
            Some(h) => match h.field("state"@) {
                Some(JsonData::Object(e)) => e,
                _ => Seq::empty(),
            },
            None => Seq::empty(),
        },
        None => Seq::empty(),
    };
    trusted_hashes(state)
}

/// The entries with a `trusted_hash` text, as (key, hash) pairs in order.
pub open spec fn trusted_hashes(e: Seq<(Seq<char>, JsonData)>) -> Seq<(Seq<char>, Seq<char>)>
    decreases e.len(),
{
    if e.len() == 0 {
        Seq::empty()
    } else {
        let prev = trusted_hashes(e.drop_last());
        match e.last().1.field_text("trusted_hash"@) {
            Some(h) => prev.push((e.last().0, h)),
            None => prev,
        }
    }
}

/// The trust state stored in the Codex configuration read through the app-server.
pub fn hook_trust_state(response: &JsonValue) -> (r: Vec<(String, String)>)
    ensures
        pair_views(r@) == trust_state_entries(response@),
{
    let mut out: Vec<(String, String)> = Vec::new();
    proof {
        assert(pair_views(out@) =~= Seq::empty());
        assert(trusted_hashes(Seq::empty()) =~= Seq::empty());
    }
    let base = match response.get("result") {
        Some(b) => b,
        None => response,
    };
    let state = match base.get("config") {
        Some(c) => match c.get("hooks") {
            Some(h) => match h.get("state") {
                Some(s) => match s.as_object() {
                    Some(e) => e,
                    None => {
                        return out;
                    },
                },
                None => {
                    return out;
                },
            },
            None => {
                return out;
            },
        },
        None => {
            return out;
        },
    };
    let ghost ev = entry_views(state@);
    proof {
        lemma_entry_views(state@);
    }
    let mut i: usize = 0;
    while i < state.len()
        invariant
            i <= state.len(),
            ev == entry_views(state@),
            ev.len() == state.len(),
            forall|k: int| 0 <= k < state.len() ==> #[trigger] ev[k] == (state@[k].0@, json_view(state@[k].1)),
            pair_views(out@) == trusted_hashes(ev.take(i as int)),
        decreases state.len() - i,
    {
        proof {
            assert(ev.take(i + 1).drop_last() =~= ev.take(i as int));
            assert(ev.take(i + 1).last() == ev[i as int]);
        }
        match state[i].1.field_str("trusted_hash") {
            Some(h) => {
                let ghost prev = out@;
                out.push((state[i].0.clone(), String::from_str(h)));
                assert(pair_views(out@) =~= pair_views(prev).push((state@[i as int].0@, h@)));
            },
            None => {},
        }
        i += 1;
    }
    proof {
        assert(ev.take(state.len() as int) =~= ev);
    }
    out
}

/// The trust entries without those whose key is one of `keys`.
pub open spec fn without_keys(entries: Seq<(Seq<char>, Seq<char>)>, keys: Seq<Seq<char>>) -> Seq<
    (Seq<char>, Seq<char>),
> {
    entries.filter(|p: (Seq<char>, Seq<char>)| !keys.contains(p.0))
}

/// The trust entries without those whose key is one of `keys`.
pub fn remove_trust_keys(entries: Vec<(String, String)>, keys: &Vec<String>) -> (r: Vec<(String, String)>)
    ensures
        pair_views(r@) == without_keys(pair_views(entries@), text_views(keys@)),
{
    let ghost pv = pair_views(entries@);
    let ghost kv = text_views(keys@);
    let ghost pred = |p: (Seq<char>, Seq<char>)| !kv.contains(p.0);
    let mut out: Vec<(String, String)> = Vec::new();
    let mut i: usize = 0;
    proof {
        assert(pair_views(out@) =~= pv.take(0).filter(pred));
    }
    while i < entries.len()
        invariant
            i <= entries.len(),
            pv == pair_views(entries@),
            kv == text_views(keys@),
            pred == (|p: (Seq<char>, Seq<char>)| !kv.contains(p.0)),
            pair_views(out@) == pv.take(i as int).filter(pred),
        decreases entries.len() - i,
    {
        let mut found = false;
        let mut j: usize = 0;
        while j < keys.len()
            invariant
                j <= keys.len(),
                i < entries.len(),
                kv == text_views(keys@),
                found <==> exists|m: int| 0 <= m < j && kv[m] == entries@[i as int].0@,
            decreases keys.len() - j,
        {
            assert(kv[j as int] == keys@[j as int]@);
            if text_eq(keys[j].as_str(), entries[i].0.as_str()) {
                found = true;
            }
            j += 1;
        }
        proof {
            reveal(Seq::filter);
            assert(pv.take(i + 1).drop_last() =~= pv.take(i as int));
            assert(pv.take(i + 1).last() == pv[i as int]);
            assert(pv[i as int] == (entries@[i as int].0@, entries@[i as int].1@));
            if found {
                let m = choose|m: int| 0 <= m < keys.len() && kv[m] == entries@[i as int].0@;
                assert(kv.contains(pv[i as int].0));
            } else {
                assert(!kv.contains(pv[i as int].0)) by {
                    if kv.contains(pv[i as int].0) {
                        let m = choose|m: int| 0 <= m < kv.len() && kv[m] == pv[i as int].0;
                        assert(kv[m] == entries@[i as int].0@);
                    }
                }
            }
        }
        if !found {
            let ghost prev = out@;
            out.push((entries[i].0.clone(), entries[i].1.clone()));
            assert(pair_views(out@) =~= pair_views(prev).push(pv[i as int]));
        }
        i += 1;
    }
    proof {
        assert(pv.take(entries.len() as int) =~= pv);
    }
    out
}

/// The trust state object `{ key: { "trusted_hash": hash } }` for the entries; a later entry
/// with the same key replaces an earlier one.
pub open spec fn trust_state_object(entries: Seq<(Seq<char>, Seq<char>)>) -> Seq<(Seq<char>, JsonData)>
    decreases entries.len(),
{
    if entries.len() == 0 {
        Seq::empty()
    } else {
        entries_insert(
            trust_state_object(entries.drop_last()),
            entries.last().0,
            JsonData::Object(seq![("trusted_hash"@, JsonData::Str(entries.last().1))]),
        )
    }
}

/// The trust state value written back to the Codex configuration.
pub fn hook_trust_state_value(entries: &Vec<(String, String)>) -> (r: JsonValue)
    ensures
        r@ == JsonData::Object(trust_state_object(pair_views(entries@))),
{
    let ghost pv = pair_views(entries@);
    let mut root: Vec<(String, JsonValue)> = Vec::new();
    proof {
        assert(entry_views(root@) =~= Seq::empty());
        assert(trust_state_object(pv.take(0)) =~= Seq::empty());
    }
    let mut i: usize = 0;
    while i < entries.len()
        invariant
            i <= entries.len(),
            pv == pair_views(entries@),
            entry_views(root@) == trust_state_object(pv.take(i as int)),
        decreases entries.len() - i,
    {
        let mut entry: Vec<(String, JsonValue)> = Vec::new();
        entry.push((String::from_str("trusted_hash"), JsonValue::Str(entries[i].1.clone())));
        proof {
            assert(entry_views(entry@) =~= seq![("trusted_hash"@, JsonData::Str(entries@[i as int].1@))]);
            assert(pv.take(i + 1).drop_last() =~= pv.take(i as int));
            assert(pv.take(i + 1).last() == pv[i as int]);
        }
        entries_set(&mut root, entries[i].0.as_str(), JsonValue::Object(entry));
        i += 1;
    }
    proof {
        assert(pv.take(entries.len() as int) =~= pv);
    }
    JsonValue::Object(root)
}


/// The configuration edit that writes the hook trust state with the given merge strategy
/// (`upsert` or `replace`).
pub open spec fn trust_state_edit_data(value: JsonData, merge_strategy: Seq<char>) -> JsonData {
    JsonData::Object(
        seq![
            ("keyPath"@, JsonData::Str("hooks.state"@)),
            ("value"@, value),
            ("mergeStrategy"@, JsonData::Str(merge_strategy)),
        ],
    )
}

/// The configuration edit that writes the hook trust state.
pub fn trust_state_edit(value: JsonValue, merge_strategy: &str) -> (r: JsonValue)
    ensures
        r@ == trust_state_edit_data(value@, merge_strategy@),
{
    let mut e: Vec<(String, JsonValue)> = Vec::new();
    e.push((String::from_str("keyPath"), JsonValue::Str(String::from_str("hooks.state"))));
    e.push((String::from_str("value"), value));
    e.push((String::from_str("mergeStrategy"), JsonValue::Str(String::from_str(merge_strategy))));
    assert(entry_views(e@) =~= seq![
        ("keyPath"@, JsonData::Str("hooks.state"@)),
        ("value"@, json_view(e@[1].1)),
        ("mergeStrategy"@, JsonData::Str(merge_strategy@)),
    ]);
    JsonValue::Object(e)
}

/// Where checking the hooks of the application stopped.
pub enum HookCheck {
    /// The path of the running executable is unknown.
    NoExecutable,
    /// The hook file could not be read or parsed.
    ConfigUnreadable(String),
    /// The hook file holds no hook of this executable.
    NotInstalled,
    /// The hooks are written but the Codex CLI could not be started to check them.
    ProbeFailed(String),
    /// Codex reports the hooks as not active, for this reason.
    Invalid(String),
    /// Codex reports the hooks as installed and trusted.
    Active,
}

/// What the settings window shows about the hooks, for the hook file `source`.
pub open spec fn hook_status_message(check: HookCheck) -> Seq<char> {
    match check {
        HookCheck::NoExecutable => "无法解析当前程序路径"@,
        HookCheck::ConfigUnreadable(e) => e@,
        HookCheck::NotInstalled => "未启用 Hook 采集"@,
        HookCheck::ProbeFailed(e) => "Hook 已写入，但无法验证："@ + e@,
        HookCheck::Invalid(e) => "Hook 未生效："@ + e@,
        HookCheck::Active => "Hook 已配置并受信任，等待 Codex 事件"@,
    }
}

/// The hook status shown for the hook file `source` after a check.
pub fn hook_status_report(source: &str, check: HookCheck) -> (r: crate::models::HookStatus)
    ensures
        r.enabled == (check is Active),
        r.source@ == source@,
        r.message@ == hook_status_message(check),
{
    let enabled = match &check {
        HookCheck::Active => true,
        _ => false,
    };
    let message = match check {
        HookCheck::NoExecutable => String::from_str("无法解析当前程序路径"),
        HookCheck::ConfigUnreadable(e) => e,
        HookCheck::NotInstalled => String::from_str("未启用 Hook 采集"),
        HookCheck::ProbeFailed(e) => String::from_str("Hook 已写入，但无法验证：").concat(e.as_str()),
        HookCheck::Invalid(e) => String::from_str("Hook 未生效：").concat(e.as_str()),
        HookCheck::Active => String::from_str("Hook 已配置并受信任，等待 Codex 事件"),
    };
    crate::models::HookStatus { enabled, source: String::from_str(source), message }
}

/// Refuses to install hooks while the Codex configuration turns hooks off.
pub fn ensure_hooks_enabled(config_response: &JsonValue) -> (r: Result<(), String>)
    ensures
        crate::settings::hooks_disabled_in(config_response@) ==> (r matches Err(e) && e@
            == "Codex 配置已禁用 Hook，请先移除 [features].hooks = false"@),
        !crate::settings::hooks_disabled_in(config_response@) ==> r is Ok,
{
    if crate::settings::codex_hooks_globally_disabled(config_response) {
        Err(String::from_str("Codex 配置已禁用 Hook，请先移除 [features].hooks = false"))
    } else {
        Ok(())
    }
}

/// How far the hook check gets without asking Codex: the executable path is unknown, the hook
/// file (`config`, or why it could not be read) could not be read, or it holds no hook of the
/// executable; none when Codex must be asked.
pub fn hook_check_before_probe(exe: Option<&str>, config: &Result<JsonValue, String>) -> (r: Option<
    HookCheck,
>)
    ensures
        exe is None ==> r matches Some(HookCheck::NoExecutable),
        exe is Some ==> match config {
            Err(e) => r matches Some(HookCheck::ConfigUnreadable(m)) && m@ == e@,
            Ok(c) => if config_has_codextray(c@, exe->0@) {
                r is None
            } else {
                r matches Some(HookCheck::NotInstalled)
            },
        },
{
    let x = match exe {
        None => {
            return Some(HookCheck::NoExecutable);
        },
        Some(x) => x,
    };
    match config {
        Err(e) => Some(HookCheck::ConfigUnreadable(e.clone())),
        Ok(c) => if crate::hooks_config::hooks_config_has_codextray(c, x) {
            None
        } else {
            Some(HookCheck::NotInstalled)
        },
    }
}

/// The hook check once Codex was asked: `listing` is the hook listing (or why listing failed),
/// or why the CLI could not be started. The check ends where the CLI could not be started, the
/// listing failed, or Codex reports why the hooks are not active; else they are active.
pub fn hook_check_after_probe(
    listing: Result<Result<JsonValue, String>, String>,
    exe: &str,
    hooks_path: &str,
) -> (r: HookCheck)
    ensures
        match listing {
            Err(e) => r matches HookCheck::ProbeFailed(m) && m@ == e@,
            Ok(Err(e)) => r matches HookCheck::Invalid(m) && m@ == e@,
            Ok(Ok(v)) => match validation_message(v@, exe@, hooks_path@) {
                Some(text) => r matches HookCheck::Invalid(m) && m@ == text,
                None => r matches HookCheck::Active,
            },
        },
{
    match listing {
        Err(e) => HookCheck::ProbeFailed(e),
        Ok(Err(e)) => HookCheck::Invalid(e),
        Ok(Ok(response)) => match hook_validation_message(&response, exe, hooks_path) {
            Some(m) => HookCheck::Invalid(m),
            None => HookCheck::Active,
        },
    }
}

} // verus!
