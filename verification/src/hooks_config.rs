//! Editing the Codex hook configuration (`hooks.json`): finding, installing and removing the
//! hook entries of the application, and moving hooks of the old top-level layout into the
//! grouped layout Codex reads.
use vstd::prelude::*;

use crate::hook_command::{
    command_is_any_codextray, command_mentions_current_exe, command_mentions_hook_wrapper,
    hook_command, hook_script_name, is_any_codextray_command, lemma_built_command_recognised,
    mentions_exe, mentions_hook_wrapper, normalized_path, quote_free,
};
use crate::text::seq_contains;
use crate::json::{
    lemma_insert_unchanged, lemma_lookup_insert_other, lemma_lookup_insert_same, entries_insert, entries_lookup, entries_remove, entries_set, entries_take, entry_views,
    find_key, group_json_views, json_view, json_views, key_index, lemma_entry_views,
    lemma_json_views, lemma_key_index, JsonData, JsonNumber, JsonValue, NumberData,
};

verus! {

broadcast use group_json_views;

/// The number of Codex lifecycle events the application hooks into.
pub open spec fn event_count() -> int {
    10
}

/// The Codex lifecycle events the application hooks into, in order.
pub open spec fn hook_events() -> Seq<Seq<char>> {
    seq![
        "PermissionRequest"@,
        "PostCompact"@,
        "PostToolUse"@,
        "PreCompact"@,
        "PreToolUse"@,
        "SessionStart"@,
        "Stop"@,
        "SubagentStart"@,
        "SubagentStop"@,
        "UserPromptSubmit"@,
    ]
}

/// The name of the `i`-th hooked event.
pub fn hook_event_name(i: usize) -> (r: &'static str)
    requires
        i < 10,
    ensures
        r@ == hook_events()[i as int],
{
    match i {
        0 => "PermissionRequest",
        1 => "PostCompact",
        2 => "PostToolUse",
        3 => "PreCompact",
        4 => "PreToolUse",
        5 => "SessionStart",
        6 => "Stop",
        7 => "SubagentStart",
        8 => "SubagentStop",
        _ => "UserPromptSubmit",
    }
}

/// Whether a hook entry runs the hook command of the executable `exe`.
pub open spec fn is_codextray_hook_entry(h: JsonData, exe: Seq<char>) -> bool {
    match h.field_text("command"@) {
        Some(c) => mentions_exe(c, exe) && mentions_hook_wrapper(c),
        None => false,
    }
}

/// Whether a hook entry runs a hook command of any copy of the application.
pub open spec fn is_any_codextray_hook_entry(h: JsonData) -> bool {
    match h.field_text("command"@) {
        Some(c) => is_any_codextray_command(c),
        None => false,
    }
}

/// Whether one of the hook entries runs the hook command of `exe`.
pub open spec fn any_codextray_entry(hs: Seq<JsonData>, exe: Seq<char>) -> bool {
    exists|k: int| 0 <= k < hs.len() && is_codextray_hook_entry(#[trigger] hs[k], exe)
}

/// Whether a group of hooks holds an entry that runs the hook command of `exe`.
pub open spec fn group_has_codextray_hook(g: JsonData, exe: Seq<char>) -> bool {
    match g.field_items("hooks"@) {
        Some(hs) => any_codextray_entry(hs, exe),
        None => false,
    }
}

/// Whether one of the groups holds an entry that runs the hook command of `exe`.
pub open spec fn groups_have_codextray(gs: Seq<JsonData>, exe: Seq<char>) -> bool {
    exists|k: int| 0 <= k < gs.len() && group_has_codextray_hook(#[trigger] gs[k], exe)
}

/// Whether the hooked event `i` of a grouped hook table holds the hook command of `exe`.
pub open spec fn nested_event_has_codextray(
    nested: Seq<(Seq<char>, JsonData)>,
    i: int,
    exe: Seq<char>,
) -> bool {
    match entries_lookup(nested, hook_events()[i]) {
        Some(v) => match v.items() {
            Some(gs) => groups_have_codextray(gs, exe),
            None => false,
        },
        None => false,
    }
}

/// Whether the hooked event `i` of the old top-level layout holds the hook command of `exe`.
pub open spec fn top_event_has_codextray(
    root: Seq<(Seq<char>, JsonData)>,
    i: int,
    exe: Seq<char>,
) -> bool {
    match entries_lookup(root, hook_events()[i]) {
        Some(v) => match v.items() {
            Some(hs) => any_codextray_entry(hs, exe),
            None => false,
        },
        None => false,
    }
}

/// Whether a grouped hook table holds the hook command of `exe` for some hooked event.
pub open spec fn nested_hooks_have_codextray(nested: Seq<(Seq<char>, JsonData)>, exe: Seq<char>) -> bool {
    exists|i: int| 0 <= i < event_count() && nested_event_has_codextray(nested, i, exe)
}

/// Whether the configuration holds the hook command of `exe` for some hooked event, in either
/// layout.
pub open spec fn config_has_codextray(config: JsonData, exe: Seq<char>) -> bool {
    match config {
        JsonData::Object(root) => {
            ||| exists|i: int| 0 <= i < event_count() && top_event_has_codextray(root, i, exe)
            ||| match entries_lookup(root, "hooks"@) {
                Some(JsonData::Object(nested)) => nested_hooks_have_codextray(nested, exe),
                _ => false,
            }
        },
        _ => false,
    }
}

/// Whether a hook entry runs the hook command of `exe`.
pub fn is_codextray_hook_entry_exec(h: &JsonValue, exe: &str) -> (r: bool)
    ensures
        r == is_codextray_hook_entry(h@, exe@),
{
    match h.field_str("command") {
        Some(c) => command_mentions_current_exe(c, exe) && command_mentions_hook_wrapper(c),
        None => false,
    }
}

/// Whether a hook entry runs a hook command of any copy of the application.
pub fn is_any_codextray_hook_entry_exec(h: &JsonValue) -> (r: bool)
    ensures
        r == is_any_codextray_hook_entry(h@),
{
    match h.field_str("command") {
        Some(c) => command_is_any_codextray(c),
        None => false,
    }
}

/// Whether one of the hook entries runs the hook command of `exe`.
pub fn any_codextray_entry_exec(hs: &Vec<JsonValue>, exe: &str) -> (r: bool)
    ensures
        r == any_codextray_entry(json_views(hs@), exe@),
{
    proof {
        lemma_json_views(hs@);
    }
    let mut i: usize = 0;
    while i < hs.len()
        invariant
            i <= hs.len(),
            json_views(hs@).len() == hs.len(),
            forall|k: int| 0 <= k < hs.len() ==> #[trigger] json_views(hs@)[k] == json_view(hs@[k]),
            forall|k: int| 0 <= k < i ==> !is_codextray_hook_entry(#[trigger] json_views(hs@)[k], exe@),
        decreases hs.len() - i,
    {
        if is_codextray_hook_entry_exec(&hs[i], exe) {
            assert(is_codextray_hook_entry(json_views(hs@)[i as int], exe@));
            return true;
        }
        i += 1;
    }
    false
}

/// Whether a group of hooks holds an entry that runs the hook command of `exe`.
pub fn group_has_codextray_hook_exec(g: &JsonValue, exe: &str) -> (r: bool)
    ensures
        r == group_has_codextray_hook(g@, exe@),
{
    match g.get("hooks") {
        Some(v) => match v.as_array() {
            Some(hs) => any_codextray_entry_exec(hs, exe),
            None => false,
        },
        None => false,
    }
}

/// Whether one of the groups holds an entry that runs the hook command of `exe`.
pub fn groups_have_codextray_exec(gs: &Vec<JsonValue>, exe: &str) -> (r: bool)
    ensures
        r == groups_have_codextray(json_views(gs@), exe@),
{
    proof {
        lemma_json_views(gs@);
    }
    let mut i: usize = 0;
    while i < gs.len()
        invariant
            i <= gs.len(),
            json_views(gs@).len() == gs.len(),
            forall|k: int| 0 <= k < gs.len() ==> #[trigger] json_views(gs@)[k] == json_view(gs@[k]),
            forall|k: int| 0 <= k < i ==> !group_has_codextray_hook(#[trigger] json_views(gs@)[k], exe@),
        decreases gs.len() - i,
    {
        if group_has_codextray_hook_exec(&gs[i], exe) {
            assert(group_has_codextray_hook(json_views(gs@)[i as int], exe@));
            return true;
        }
        i += 1;
    }
    false
}

/// Whether a grouped hook table holds the hook command of `exe` for some hooked event.
pub fn nested_hooks_have_codextray_exec(nested: &JsonValue, exe: &str) -> (r: bool)
    requires
        nested@ is Object,
    ensures
        r == nested_hooks_have_codextray(nested@->Object_0, exe@),
{
    let mut i: usize = 0;
    while i < 10
        invariant
            nested@ is Object,
            i <= 10,
            forall|k: int| 0 <= k < i ==> !nested_event_has_codextray(nested@->Object_0, k, exe@),
        decreases 10 - i,
    {
        let found = match nested.get(hook_event_name(i)) {
            Some(v) => match v.as_array() {
                Some(gs) => groups_have_codextray_exec(gs, exe),
                None => false,
            },
            None => false,
        };
        if found {
            assert(nested_event_has_codextray(nested@->Object_0, i as int, exe@));
            return true;
        }
        i += 1;
    }
    false
}

/// Whether the configuration holds the hook command of the executable `exe` for some hooked
/// event, in either layout.
pub fn hooks_config_has_codextray(config: &JsonValue, exe: &str) -> (r: bool)
    ensures
        r == config_has_codextray(config@, exe@),
{
    if !config.is_object() {
        return false;
    }
    let mut i: usize = 0;
    while i < 10
        invariant
            config@ is Object,
            i <= 10,
            forall|k: int| 0 <= k < i ==> !top_event_has_codextray(config@->Object_0, k, exe@),
        decreases 10 - i,
    {
        let found = match config.get(hook_event_name(i)) {
            Some(v) => match v.as_array() {
                Some(hs) => any_codextray_entry_exec(hs, exe),
                None => false,
            },
            None => false,
        };
        if found {
            assert(top_event_has_codextray(config@->Object_0, i as int, exe@));
            return true;
        }
        i += 1;
    }
    match config.get("hooks") {
        Some(nested) => {
            if nested.is_object() {
                nested_hooks_have_codextray_exec(nested, exe)
            } else {
                false
            }
        },
        None => false,
    }
}

pub proof fn lemma_json_views_push(s: Seq<JsonValue>, x: JsonValue)
    ensures
        json_views(s.push(x)) == json_views(s).push(json_view(x)),
{
    assert(s.push(x).drop_last() =~= s);
}

pub proof fn lemma_take_step<A>(s: Seq<A>, i: int)
    requires
        0 <= i < s.len(),
    ensures
        s.take(i + 1).drop_last() == s.take(i),
        s.take(i + 1).last() == s[i],
        s.take(i + 1).len() > 0,
{
    assert(s.take(i + 1).drop_last() =~= s.take(i));
}

/// The value of member `idx` of the entries, moved out; the entry keeps its key and holds
/// `null` until it is put back.
pub fn take_member_value(entries: &mut Vec<(String, JsonValue)>, idx: usize) -> (r: JsonValue)
    requires
        idx < old(entries).len(),
    ensures
        r@ == json_view(old(entries)@[idx as int].1),
        final(entries)@.len() == old(entries)@.len(),
        final(entries)@[idx as int].0 == old(entries)@[idx as int].0,
        forall|j: int| 0 <= j < old(entries)@.len() && j != idx ==> final(entries)@[j] == old(entries)@[j],
{
    let mut pair = (String::new(), JsonValue::Null);
    entries.set_and_swap(idx, &mut pair);
    let (k, v) = pair;
    entries.set(idx, (k, JsonValue::Null));
    v
}

/// Puts `value` back as the value of member `idx`, keeping its key.
pub fn put_member_value(entries: &mut Vec<(String, JsonValue)>, idx: usize, value: JsonValue)
    requires
        idx < old(entries).len(),
    ensures
        final(entries)@.len() == old(entries)@.len(),
        final(entries)@[idx as int].0 == old(entries)@[idx as int].0,
        json_view(final(entries)@[idx as int].1) == value@,
        forall|j: int| 0 <= j < old(entries)@.len() && j != idx ==> final(entries)@[j] == old(entries)@[j],
{
    let mut pair = (String::new(), JsonValue::Null);
    entries.set_and_swap(idx, &mut pair);
    let (k, _) = pair;
    entries.set(idx, (k, value));
}

/// The hook entries that do not run a hook command of the application, in order.
pub open spec fn without_codextray_entries(hs: Seq<JsonData>) -> Seq<JsonData>
    decreases hs.len(),
{
    if hs.len() == 0 {
        hs
    } else {
        let rest = without_codextray_entries(hs.drop_last());
        if is_any_codextray_hook_entry(hs.last()) {
            rest
        } else {
            rest.push(hs.last())
        }
    }
}

/// A group with the hook entries of the application removed from its `hooks` array.
pub open spec fn strip_group(g: JsonData) -> JsonData {
    match g {
        JsonData::Object(e) => match entries_lookup(e, "hooks"@) {
            Some(JsonData::Array(hs)) => JsonData::Object(
                entries_insert(e, "hooks"@, JsonData::Array(without_codextray_entries(hs))),
            ),
            _ => g,
        },
        _ => g,
    }
}

/// Whether a group is kept: it has no `hooks` array or a non-empty one.
pub open spec fn group_kept(g: JsonData) -> bool {
    match g.field_items("hooks"@) {
        Some(hs) => hs.len() > 0,
        None => true,
    }
}

/// The groups that are kept, in order.
pub open spec fn keep_groups(gs: Seq<JsonData>) -> Seq<JsonData>
    decreases gs.len(),
{
    if gs.len() == 0 {
        gs
    } else {
        let rest = keep_groups(gs.drop_last());
        if group_kept(gs.last()) {
            rest.push(gs.last())
        } else {
            rest
        }
    }
}

/// The groups with the hook entries of the application removed, and the groups left empty
/// dropped.
pub open spec fn strip_groups(gs: Seq<JsonData>) -> Seq<JsonData> {
    keep_groups(gs.map_values(|g: JsonData| strip_group(g)))
}

/// The top-level event arrays of the first `k` hooked events without the hook entries of the
/// application.
pub open spec fn strip_top_level(root: Seq<(Seq<char>, JsonData)>, k: int) -> Seq<(Seq<char>, JsonData)>
    decreases k,
{
    if k <= 0 {
        root
    } else {
        let r = strip_top_level(root, k - 1);
        let ev = hook_events()[k - 1];
        match entries_lookup(r, ev) {
            Some(JsonData::Array(hs)) => entries_insert(r, ev, JsonData::Array(without_codextray_entries(hs))),
            _ => r,
        }
    }
}

/// The grouped event arrays of the first `k` hooked events without the hook entries of the
/// application.
pub open spec fn strip_nested(nested: Seq<(Seq<char>, JsonData)>, k: int) -> Seq<(Seq<char>, JsonData)>
    decreases k,
{
    if k <= 0 {
        nested
    } else {
        let r = strip_nested(nested, k - 1);
        let ev = hook_events()[k - 1];
        match entries_lookup(r, ev) {
            Some(JsonData::Array(gs)) => entries_insert(r, ev, JsonData::Array(strip_groups(gs))),
            _ => r,
        }
    }
}

/// The configuration without any hook entry of the application, in either layout; other
/// hooks, groups and members stay as they were.
pub open spec fn removed_codextray_hooks(config: JsonData) -> JsonData {
    match config {
        JsonData::Object(root) => {
            let r1 = strip_top_level(root, event_count());
            match entries_lookup(r1, "hooks"@) {
                Some(JsonData::Object(n)) => JsonData::Object(
                    entries_insert(r1, "hooks"@, JsonData::Object(strip_nested(n, event_count()))),
                ),
                _ => JsonData::Object(r1),
            }
        },
        _ => config,
    }
}

/// The hook entries that do not run a hook command of the application.
pub fn without_codextray_exec(hs: Vec<JsonValue>) -> (r: Vec<JsonValue>)
    ensures
        json_views(r@) == without_codextray_entries(json_views(hs@)),
{
    let mut hs = hs;
    let ghost orig = hs@;
    let ghost t = json_views(orig);
    proof {
        lemma_json_views(orig);
    }
    let mut out: Vec<JsonValue> = Vec::new();
    let mut i: usize = 0;
    while i < hs.len()
        invariant
            hs@.len() == orig.len(),
            t == json_views(orig),
            t.len() == orig.len(),
            forall|k: int| 0 <= k < orig.len() ==> #[trigger] t[k] == json_view(orig[k]),
            i <= hs.len(),
            forall|k: int| i <= k < orig.len() ==> hs@[k] == orig[k],
            json_views(out@) == without_codextray_entries(t.take(i as int)),
        decreases hs.len() - i,
    {
        let mut x = JsonValue::Null;
        hs.set_and_swap(i, &mut x);
        proof {
            lemma_take_step(t, i as int);
        }
        if !is_any_codextray_hook_entry_exec(&x) {
            proof {
                lemma_json_views_push(out@, x);
            }
            out.push(x);
        }
        i += 1;
    }
    assert(t.take(orig.len() as int) =~= t);
    out
}

/// A group with the hook entries of the application removed (see [`strip_group`]).
pub fn strip_group_exec(g: JsonValue) -> (r: JsonValue)
    ensures
        r@ == strip_group(g@),
{
    match g {
        JsonValue::Object(e) => {
            let mut e = e;
            let ghost e0 = entry_views(e@);
            match find_key(&e, "hooks") {
                Some(idx) => {
                    proof {
                        lemma_key_index(e0, "hooks"@);
                        lemma_entry_views(e@);
                    }
                    let ghost orig = e@;
                    let v = take_member_value(&mut e, idx);
                    let nv = match v {
                        JsonValue::Array(hs) => JsonValue::Array(without_codextray_exec(hs)),
                        other => other,
                    };
                    put_member_value(&mut e, idx, nv);
                    proof {
                        lemma_entry_views(e@);
                        let expect = match e0[idx as int].1 {
                            JsonData::Array(hs) => JsonData::Array(without_codextray_entries(hs)),
                            other => other,
                        };
                        assert(nv@ == expect);
                        assert(entry_views(e@) =~= e0.update(idx as int, ("hooks"@, expect)));
                        match e0[idx as int].1 {
                            JsonData::Array(hs) => {},
                            _ => {
                                assert(e0.update(idx as int, ("hooks"@, expect)) =~= e0);
                            },
                        }
                    }
                    JsonValue::Object(e)
                },
                None => JsonValue::Object(e),
            }
        },
        other => other,
    }
}

/// Whether a group is kept (see [`group_kept`]).
pub fn group_kept_exec(g: &JsonValue) -> (r: bool)
    ensures
        r == group_kept(g@),
{
    match g.get("hooks") {
        Some(v) => match v.as_array() {
            Some(hs) => hs.len() > 0,
            None => true,
        },
        None => true,
    }
}

/// The groups with the hook entries of the application removed (see [`strip_groups`]).
pub fn strip_groups_exec(gs: Vec<JsonValue>) -> (r: Vec<JsonValue>)
    ensures
        json_views(r@) == strip_groups(json_views(gs@)),
{
    let mut gs = gs;
    let ghost orig = gs@;
    let ghost t = json_views(orig);
    let ghost m = t.map_values(|g: JsonData| strip_group(g));
    proof {
        lemma_json_views(orig);
    }
    let mut out: Vec<JsonValue> = Vec::new();
    let mut i: usize = 0;
    while i < gs.len()
        invariant
            gs@.len() == orig.len(),
            t == json_views(orig),
            t.len() == orig.len(),
            m == t.map_values(|g: JsonData| strip_group(g)),
            forall|k: int| 0 <= k < orig.len() ==> #[trigger] t[k] == json_view(orig[k]),
            i <= gs.len(),
            forall|k: int| i <= k < orig.len() ==> gs@[k] == orig[k],
            json_views(out@) == keep_groups(m.take(i as int)),
        decreases gs.len() - i,
    {
        let mut x = JsonValue::Null;
        gs.set_and_swap(i, &mut x);
        proof {
            lemma_take_step(m, i as int);
        }
        let y = strip_group_exec(x);
        if group_kept_exec(&y) {
            proof {
                lemma_json_views_push(out@, y);
            }
            out.push(y);
        }
        i += 1;
    }
    assert(m.take(orig.len() as int) =~= m);
    out
}

/// The top-level event arrays without the hook entries of the application.
fn strip_top_level_exec(root: &mut Vec<(String, JsonValue)>)
    ensures
        entry_views(final(root)@) == strip_top_level(entry_views(old(root)@), event_count()),
{
    let ghost r0 = entry_views(root@);
    let mut i: usize = 0;
    while i < 10
        invariant
            i <= 10,
            entry_views(root@) == strip_top_level(r0, i as int),
        decreases 10 - i,
    {
        let ev = hook_event_name(i);
        let ghost cur = entry_views(root@);
        match find_key(root, ev) {
            Some(idx) => {
                proof {
                    lemma_key_index(cur, ev@);
                    lemma_entry_views(root@);
                }
                let ghost orig = root@;
                let v = take_member_value(root, idx);
                let nv = match v {
                    JsonValue::Array(hs) => JsonValue::Array(without_codextray_exec(hs)),
                    other => other,
                };
                put_member_value(root, idx, nv);
                proof {
                    lemma_entry_views(root@);
                    let expect = match cur[idx as int].1 {
                        JsonData::Array(hs) => JsonData::Array(without_codextray_entries(hs)),
                        other => other,
                    };
                    assert(nv@ == expect);
                    assert(entry_views(root@) =~= cur.update(idx as int, (ev@, expect)));
                    match cur[idx as int].1 {
                        JsonData::Array(hs) => {},
                        _ => {
                            assert(cur.update(idx as int, (ev@, expect)) =~= cur);
                        },
                    }
                }
            },
            None => {},
        }
        i += 1;
    }
}

/// The grouped event arrays without the hook entries of the application.
fn strip_nested_exec(nested: &mut Vec<(String, JsonValue)>)
    ensures
        entry_views(final(nested)@) == strip_nested(entry_views(old(nested)@), event_count()),
{
    let ghost r0 = entry_views(nested@);
    let mut i: usize = 0;
    while i < 10
        invariant
            i <= 10,
            entry_views(nested@) == strip_nested(r0, i as int),
        decreases 10 - i,
    {
        let ev = hook_event_name(i);
        let ghost cur = entry_views(nested@);
        match find_key(nested, ev) {
            Some(idx) => {
                proof {
                    lemma_key_index(cur, ev@);
                    lemma_entry_views(nested@);
                }
                let v = take_member_value(nested, idx);
                let nv = match v {
                    JsonValue::Array(gs) => JsonValue::Array(strip_groups_exec(gs)),
                    other => other,
                };
                put_member_value(nested, idx, nv);
                proof {
                    lemma_entry_views(nested@);
                    let expect = match cur[idx as int].1 {
                        JsonData::Array(gs) => JsonData::Array(strip_groups(gs)),
                        other => other,
                    };
                    assert(nv@ == expect);
                    assert(entry_views(nested@) =~= cur.update(idx as int, (ev@, expect)));
                    match cur[idx as int].1 {
                        JsonData::Array(gs) => {},
                        _ => {
                            assert(cur.update(idx as int, (ev@, expect)) =~= cur);
                        },
                    }
                }
            },
            None => {},
        }
        i += 1;
    }
}

/// Removes every hook entry of the application, in either layout, leaving the other hooks,
/// groups and members of the configuration as they were; groups left empty are dropped.
pub fn remove_all_codextray_hooks(config: &mut JsonValue)
    ensures
        final(config)@ == removed_codextray_hooks(old(config)@),
{
    let mut cur = JsonValue::Null;
    std::mem::swap(&mut cur, config);
    let result = match cur {
        JsonValue::Object(root) => {
            let mut root = root;
            strip_top_level_exec(&mut root);
            let ghost r1 = entry_views(root@);
            match find_key(&root, "hooks") {
                Some(idx) => {
                    proof {
                        lemma_key_index(r1, "hooks"@);
                        lemma_entry_views(root@);
                    }
                    let v = take_member_value(&mut root, idx);
                    let nv = match v {
                        JsonValue::Object(n) => {
                            let mut n = n;
                            strip_nested_exec(&mut n);
                            JsonValue::Object(n)
                        },
                        other => other,
                    };
                    put_member_value(&mut root, idx, nv);
                    proof {
                        lemma_entry_views(root@);
                        let expect = match r1[idx as int].1 {
                            JsonData::Object(n) => JsonData::Object(strip_nested(n, event_count())),
                            other => other,
                        };
                        assert(nv@ == expect);
                        assert(entry_views(root@) =~= r1.update(idx as int, ("hooks"@, expect)));
                        match r1[idx as int].1 {
                            JsonData::Object(n) => {},
                            _ => {
                                assert(r1.update(idx as int, ("hooks"@, expect)) =~= r1);
                            },
                        }
                    }
                    JsonValue::Object(root)
                },
                None => JsonValue::Object(root),
            }
        },
        other => other,
    };
    *config = result;
}


/// The entries of the configuration's root object; a configuration that is not an object
/// is replaced by an empty one.
pub open spec fn config_entries(config: JsonData) -> Seq<(Seq<char>, JsonData)> {
    match config {
        JsonData::Object(e) => e,
        _ => Seq::empty(),
    }
}

/// The entries of the object held by member `key`; empty where the member is missing or not
/// an object.
pub open spec fn object_member(e: Seq<(Seq<char>, JsonData)>, key: Seq<char>) -> Seq<
    (Seq<char>, JsonData),
> {
    match entries_lookup(e, key) {
        Some(JsonData::Object(n)) => n,
        _ => Seq::empty(),
    }
}

/// The elements of the array held by member `key`; empty where the member is missing or not
/// an array.
pub open spec fn array_member(e: Seq<(Seq<char>, JsonData)>, key: Seq<char>) -> Seq<JsonData> {
    match entries_lookup(e, key) {
        Some(JsonData::Array(a)) => a,
        _ => Seq::empty(),
    }
}

/// The hook entry that runs `command`, with the type and the timeout Codex expects.
pub open spec fn hook_entry_data(command: Seq<char>) -> JsonData {
    JsonData::Object(
        seq![
            ("type"@, JsonData::Str("command"@)),
            ("command"@, JsonData::Str(command)),
            ("timeout"@, JsonData::Number(NumberData::Int(5))),
        ],
    )
}

/// A group holding the single hook entry `entry`.
pub open spec fn hook_group_data(entry: JsonData) -> JsonData {
    JsonData::Object(seq![("hooks"@, JsonData::Array(seq![entry]))])
}

/// The grouped hook table after installing `command` for the first `k` hooked events: an
/// event whose groups already hold the hook of `exe` is left alone, any other gets a new
/// group with the hook entry (a value that is not an array is replaced).
pub open spec fn install_events(
    n: Seq<(Seq<char>, JsonData)>,
    exe: Seq<char>,
    command: Seq<char>,
    k: int,
) -> Seq<(Seq<char>, JsonData)>
    decreases k,
{
    if k <= 0 {
        n
    } else {
        let r = install_events(n, exe, command, k - 1);
        let ev = hook_events()[k - 1];
        let gs = array_member(r, ev);
        entries_insert(
            r,
            ev,
            JsonData::Array(
                if groups_have_codextray(gs, exe) {
                    gs
                } else {
                    gs.push(hook_group_data(hook_entry_data(command)))
                },
            ),
        )
    }
}

/// The configuration with the hook `command` of `exe` installed for every hooked event.
pub open spec fn installed_hooks(config: JsonData, exe: Seq<char>, command: Seq<char>) -> JsonData {
    let root = config_entries(config);
    JsonData::Object(
        entries_insert(
            root,
            "hooks"@,
            JsonData::Object(install_events(object_member(root, "hooks"@), exe, command, event_count())),
        ),
    )
}

/// The root entries of the configuration, moved out of it.
fn take_config_entries(config: &mut JsonValue) -> (r: Vec<(String, JsonValue)>)
    ensures
        entry_views(r@) == config_entries(old(config)@),
{
    let mut cur = JsonValue::Null;
    std::mem::swap(&mut cur, config);
    match cur {
        JsonValue::Object(e) => e,
        _ => {
            let e: Vec<(String, JsonValue)> = Vec::new();
            assert(entry_views(e@) =~= Seq::empty());
            e
        },
    }
}

/// A copy of the entries of the object held by member `key`.
pub fn object_member_copy(entries: &Vec<(String, JsonValue)>, key: &str) -> (r: Vec<(String, JsonValue)>)
    ensures
        entry_views(r@) == object_member(entry_views(entries@), key@),
{
    let ghost e = entry_views(entries@);
    match find_key(entries, key) {
        Some(i) => {
            proof {
                lemma_key_index(e, key@);
                lemma_entry_views(entries@);
            }
            let c = entries[i].1.deep_copy();
            match c {
                JsonValue::Object(n) => n,
                _ => {
                    let n: Vec<(String, JsonValue)> = Vec::new();
                    assert(entry_views(n@) =~= Seq::empty());
                    n
                },
            }
        },
        None => {
            let n: Vec<(String, JsonValue)> = Vec::new();
            assert(entry_views(n@) =~= Seq::empty());
            n
        },
    }
}

/// A copy of the elements of the array held by member `key`.
pub fn array_member_copy(entries: &Vec<(String, JsonValue)>, key: &str) -> (r: Vec<JsonValue>)
    ensures
        json_views(r@) == array_member(entry_views(entries@), key@),
{
    let ghost e = entry_views(entries@);
    match find_key(entries, key) {
        Some(i) => {
            proof {
                lemma_key_index(e, key@);
                lemma_entry_views(entries@);
            }
            let c = entries[i].1.deep_copy();
            match c {
                JsonValue::Array(a) => a,
                _ => {
                    let a: Vec<JsonValue> = Vec::new();
                    assert(json_views(a@) =~= Seq::empty());
                    a
                },
            }
        },
        None => {
            let a: Vec<JsonValue> = Vec::new();
            assert(json_views(a@) =~= Seq::empty());
            a
        },
    }
}

/// The hook entry that runs `command`.
pub fn codextray_hook_entry(command: &str) -> (r: JsonValue)
    ensures
        r@ == hook_entry_data(command@),
{
    let mut e: Vec<(String, JsonValue)> = Vec::new();
    e.push((String::from_str("type"), JsonValue::Str(String::from_str("command"))));
    e.push((String::from_str("command"), JsonValue::Str(String::from_str(command))));
    e.push((String::from_str("timeout"), JsonValue::Number(JsonNumber::PosInt(5))));
    assert(entry_views(e@) =~= seq![
        ("type"@, JsonData::Str("command"@)),
        ("command"@, JsonData::Str(command@)),
        ("timeout"@, JsonData::Number(NumberData::Int(5))),
    ]);
    JsonValue::Object(e)
}

/// A group holding the single hook entry `entry`.
pub fn hook_group(entry: JsonValue) -> (r: JsonValue)
    ensures
        r@ == hook_group_data(entry@),
{
    let mut hs: Vec<JsonValue> = Vec::new();
    hs.push(entry);
    assert(json_views(hs@) =~= seq![json_view(hs@[0])]);
    let mut e: Vec<(String, JsonValue)> = Vec::new();
    e.push((String::from_str("hooks"), JsonValue::Array(hs)));
    assert(entry_views(e@) =~= seq![("hooks"@, JsonData::Array(json_views(hs@)))]);
    JsonValue::Object(e)
}

/// Installs the hook `command` of the executable `exe` for every hooked event, in the
/// grouped layout; events that already run the hook of `exe` are left alone, and hooks of
/// other programs are kept.
pub fn install_codextray_hooks(config: &mut JsonValue, exe: &str, command: &str)
    ensures
        final(config)@ == installed_hooks(old(config)@, exe@, command@),
{
    let mut root = take_config_entries(config);
    let mut nested = object_member_copy(&root, "hooks");
    let ghost n0 = entry_views(nested@);
    let mut i: usize = 0;
    while i < 10
        invariant
            i <= 10,
            entry_views(nested@) == install_events(n0, exe@, command@, i as int),
        decreases 10 - i,
    {
        let ev = hook_event_name(i);
        let mut groups = array_member_copy(&nested, ev);
        if !groups_have_codextray_exec(&groups, exe) {
            let g = hook_group(codextray_hook_entry(command));
            proof {
                lemma_json_views_push(groups@, g);
            }
            groups.push(g);
        }
        entries_set(&mut nested, ev, JsonValue::Array(groups));
        i += 1;
    }
    entries_set(&mut root, "hooks", JsonValue::Object(nested));
    *config = JsonValue::Object(root);
}

/// The root entries without the old top-level arrays of the first `k` hooked events.
pub open spec fn without_legacy(root: Seq<(Seq<char>, JsonData)>, k: int) -> Seq<
    (Seq<char>, JsonData),
>
    decreases k,
{
    if k <= 0 {
        root
    } else {
        entries_remove(without_legacy(root, k - 1), hook_events()[k - 1])
    }
}

/// The values of the first `k` hooked events found at the top level, with their event names,
/// in event order.
pub open spec fn legacy_values(root: Seq<(Seq<char>, JsonData)>, k: int) -> Seq<
    (Seq<char>, JsonData),
>
    decreases k,
{
    if k <= 0 {
        Seq::empty()
    } else {
        let prev = legacy_values(root, k - 1);
        let ev = hook_events()[k - 1];
        match entries_lookup(without_legacy(root, k - 1), ev) {
            Some(v) => prev.push((ev, v)),
            None => prev,
        }
    }
}

/// An entry of the old layout as a group: a group stays as it is, a bare hook is wrapped.
pub open spec fn as_group(e: JsonData) -> JsonData {
    if e.field_items("hooks"@) is Some {
        e
    } else {
        hook_group_data(e)
    }
}

/// The grouped hook table with the old top-level event arrays appended to its events; a
/// value that is not an array is dropped.
pub open spec fn migrate_legacy(
    n: Seq<(Seq<char>, JsonData)>,
    legacy: Seq<(Seq<char>, JsonData)>,
) -> Seq<(Seq<char>, JsonData)>
    decreases legacy.len(),
{
    if legacy.len() == 0 {
        n
    } else {
        let prev = migrate_legacy(n, legacy.drop_last());
        let ev = legacy.last().0;
        match legacy.last().1 {
            JsonData::Array(es) => entries_insert(
                prev,
                ev,
                JsonData::Array(array_member(prev, ev) + es.map_values(|x: JsonData| as_group(x))),
            ),
            _ => prev,
        }
    }
}

/// The configuration with the hooks of the old top-level layout moved into the grouped
/// `hooks` table Codex reads.
pub open spec fn normalized_hooks(config: JsonData) -> JsonData {
    let root = config_entries(config);
    let r = without_legacy(root, event_count());
    let legacy = legacy_values(root, event_count());
    if legacy.len() == 0 {
        JsonData::Object(r)
    } else {
        JsonData::Object(
            entries_insert(
                r,
                "hooks"@,
                JsonData::Object(migrate_legacy(object_member(r, "hooks"@), legacy)),
            ),
        )
    }
}

/// Whether `key` is the name of a hooked event.
pub open spec fn is_event_key(key: Seq<char>) -> bool {
    exists|x: int| 0 <= x < event_count() && hook_events()[x] == key
}

/// Whether no hooked event name is the key of two entries (as in any parsed JSON object,
/// whose keys are all distinct).
pub open spec fn event_keys_once(e: Seq<(Seq<char>, JsonData)>) -> bool {
    forall|i: int, j: int| 0 <= i < j < e.len() && is_event_key(e[i].0) ==> e[i].0 != e[j].0
}

/// Whether no entry has the name of one of the first `k` hooked events as its key.
pub open spec fn no_event_keys(e: Seq<(Seq<char>, JsonData)>, k: int) -> bool {
    forall|j: int, i: int| 0 <= j < e.len() && 0 <= i < k ==> e[j].0 != hook_events()[i]
}

proof fn lemma_without_legacy_clean(root: Seq<(Seq<char>, JsonData)>, k: int)
    requires
        event_keys_once(root),
        0 <= k <= event_count(),
    ensures
        event_keys_once(without_legacy(root, k)),
        no_event_keys(without_legacy(root, k), k),
    decreases k,
{
    if k > 0 {
        lemma_without_legacy_clean(root, k - 1);
        let r = without_legacy(root, k - 1);
        let ev = hook_events()[k - 1];
        lemma_key_index(r, ev);
        let idx = key_index(r, ev);
        if idx >= 0 {
            let u = r.remove(idx);
            assert forall|i: int, j: int| 0 <= i < j < u.len() && is_event_key(u[i].0) implies u[i].0
                != u[j].0 by {
                let ri = if i < idx { i } else { i + 1 };
                let rj = if j < idx { j } else { j + 1 };
                assert(u[i] == r[ri] && u[j] == r[rj]);
            }
            assert(is_event_key(ev)) by {
                assert(hook_events()[k - 1] == ev);
            }
            assert forall|j: int, i: int| 0 <= j < u.len() && 0 <= i < k implies u[j].0
                != hook_events()[i] by {
                let rj = if j < idx { j } else { j + 1 };
                assert(u[j] == r[rj]);
                if i == k - 1 {
                    assert(r[idx].0 == ev);
                    if rj > idx {
                        assert(r[idx].0 != r[rj].0);
                    }
                }
            }
        }
    }
}

proof fn lemma_without_legacy_unchanged(e: Seq<(Seq<char>, JsonData)>, k: int)
    requires
        no_event_keys(e, event_count()),
        0 <= k <= event_count(),
    ensures
        without_legacy(e, k) == e,
        legacy_values(e, k).len() == 0,
    decreases k,
{
    if k > 0 {
        lemma_without_legacy_unchanged(e, k - 1);
        lemma_key_index(e, hook_events()[k - 1]);
        if key_index(e, hook_events()[k - 1]) >= 0 {
            let idx = key_index(e, hook_events()[k - 1]);
            assert(e[idx].0 != hook_events()[k - 1]);
        }
    }
}

/// Moving the hooks of the old layout is done once: normalizing a normalized configuration
/// changes nothing, for every configuration in which no hooked event name is the key of two
/// top-level entries (every parsed JSON object). Where an event name is the key of two entries,
/// one call moves the first of them and a second call the other.
pub proof fn lemma_normalize_idempotent(config: JsonData)
    requires
        event_keys_once(config_entries(config)),
    ensures
        normalized_hooks(normalized_hooks(config)) == normalized_hooks(config),
{
    let root = config_entries(config);
    lemma_without_legacy_clean(root, event_count());
    let r = without_legacy(root, event_count());
    let legacy = legacy_values(root, event_count());
    let out = normalized_hooks(config);
    let e = config_entries(out);
    if legacy.len() != 0 {
        let v = JsonData::Object(migrate_legacy(object_member(r, "hooks"@), legacy));
        lemma_key_index(r, "hooks"@);
        assert forall|j: int, i: int| 0 <= j < e.len() && 0 <= i < event_count() implies e[j].0
            != hook_events()[i] by {
            lemma_hook_events_distinct(i, i);
            if j < r.len() && j != key_index(r, "hooks"@) {
                assert(e[j] == r[j]);
            }
        }
    }
    assert(no_event_keys(e, event_count()));
    lemma_without_legacy_unchanged(e, event_count());
}

/// An entry of the old layout as a group (see [`as_group`]).
fn as_group_exec(e: &JsonValue) -> (r: JsonValue)
    ensures
        r@ == as_group(e@),
{
    let is_group = match e.get("hooks") {
        Some(h) => h.is_array(),
        None => false,
    };
    if is_group {
        e.deep_copy()
    } else {
        hook_group(e.deep_copy())
    }
}

/// Moves hooks written in the old top-level layout into the grouped `hooks` table, keeping
/// their order after the groups already there; a configuration that is not an object becomes
/// an empty one.
pub fn normalize_hooks_config(config: &mut JsonValue)
    ensures
        final(config)@ == normalized_hooks(old(config)@),
{
    let mut root = take_config_entries(config);
    let ghost root0 = entry_views(root@);
    let mut legacy: Vec<(String, JsonValue)> = Vec::new();
    let mut i: usize = 0;
    proof {
        assert(entry_views(legacy@) =~= Seq::empty());
    }
    while i < 10
        invariant
            i <= 10,
            entry_views(root@) == without_legacy(root0, i as int),
            entry_views(legacy@) == legacy_values(root0, i as int),
        decreases 10 - i,
    {
        let ev = hook_event_name(i);
        let ghost before = entry_views(legacy@);
        match entries_take(&mut root, ev) {
            Some(v) => {
                legacy.push((String::from_str(ev), v));
                assert(entry_views(legacy@) =~= before.push((ev@, v@)));
            },
            None => {},
        }
        i += 1;
    }
    if legacy.len() == 0 {
        *config = JsonValue::Object(root);
        return;
    }
    let ghost lv = entry_views(legacy@);
    let ghost orig = legacy@;
    let mut nested = object_member_copy(&root, "hooks");
    let ghost n0 = entry_views(nested@);
    let mut j: usize = 0;
    proof {
        lemma_entry_views(orig);
        assert(lv.take(0) =~= Seq::empty());
    }
    while j < legacy.len()
        invariant
            j <= legacy.len(),
            legacy@.len() == orig.len(),
            lv == entry_views(orig),
            lv.len() == orig.len(),
            forall|k: int| 0 <= k < orig.len() ==> #[trigger] lv[k] == (orig[k].0@, json_view(orig[k].1)),
            forall|k: int| j <= k < orig.len() ==> legacy@[k] == orig[k],
            entry_views(nested@) == migrate_legacy(n0, lv.take(j as int)),
        decreases legacy.len() - j,
    {
        let key = legacy[j].0.clone();
        let v = take_member_value(&mut legacy, j);
        proof {
            assert(lv.take(j + 1).drop_last() =~= lv.take(j as int));
            assert(lv.take(j + 1).last() == lv[j as int]);
        }
        match v {
            JsonValue::Array(es) => {
                let ghost ev = json_views(es@);
                let mut groups = array_member_copy(&nested, key.as_str());
                let ghost g0 = json_views(groups@);
                let mut t: usize = 0;
                proof {
                    lemma_json_views(es@);
                    assert(ev.take(0).map_values(|x: JsonData| as_group(x)) =~= Seq::empty());
                    assert(g0 + Seq::<JsonData>::empty() =~= g0);
                }
                while t < es.len()
                    invariant
                        t <= es.len(),
                        ev == json_views(es@),
                        ev.len() == es.len(),
                        forall|k: int| 0 <= k < es.len() ==> #[trigger] ev[k] == json_view(es@[k]),
                        json_views(groups@) == g0 + ev.take(t as int).map_values(
                            |x: JsonData| as_group(x),
                        ),
                    decreases es.len() - t,
                {
                    let g = as_group_exec(&es[t]);
                    let ghost before = json_views(groups@);
                    proof {
                        lemma_json_views_push(groups@, g);
                    }
                    groups.push(g);
                    proof {
                        assert(ev.take(t + 1).map_values(|x: JsonData| as_group(x)) =~= ev.take(
                            t as int,
                        ).map_values(|x: JsonData| as_group(x)).push(as_group(ev[t as int])));
                        assert(json_views(groups@) =~= g0 + ev.take(t + 1).map_values(
                            |x: JsonData| as_group(x),
                        ));
                    }
                    t += 1;
                }
                proof {
                    assert(ev.take(es.len() as int) =~= ev);
                }
                entries_set(&mut nested, key.as_str(), JsonValue::Array(groups));
            },
            _ => {},
        }
        j += 1;
    }
    proof {
        assert(lv.take(orig.len() as int) =~= lv);
    }
    entries_set(&mut root, "hooks", JsonValue::Object(nested));
    *config = JsonValue::Object(root);
}


/// The hooked events are ten different names, none of them `hooks`.
pub proof fn lemma_hook_events_distinct(i: int, j: int)
    requires
        0 <= i < event_count(),
        0 <= j < event_count(),
    ensures
        i != j ==> hook_events()[i] != hook_events()[j],
        hook_events()[i] != "hooks"@,
{
    reveal_strlit("PermissionRequest");
    reveal_strlit("PostCompact");
    reveal_strlit("PostToolUse");
    reveal_strlit("PreCompact");
    reveal_strlit("PreToolUse");
    reveal_strlit("SessionStart");
    reveal_strlit("Stop");
    reveal_strlit("SubagentStart");
    reveal_strlit("SubagentStop");
    reveal_strlit("UserPromptSubmit");
    reveal_strlit("hooks");
    let e = hook_events();
    assert(e[0] == "PermissionRequest"@ && e[1] == "PostCompact"@ && e[2] == "PostToolUse"@
        && e[3] == "PreCompact"@ && e[4] == "PreToolUse"@ && e[5] == "SessionStart"@ && e[6]
        == "Stop"@ && e[7] == "SubagentStart"@ && e[8] == "SubagentStop"@ && e[9]
        == "UserPromptSubmit"@);
    assert(e[0].len() == 17 && e[1].len() == 11 && e[2].len() == 11 && e[3].len() == 10
        && e[4].len() == 10 && e[5].len() == 12 && e[6].len() == 4 && e[7].len() == 13
        && e[8].len() == 12 && e[9].len() == 16);
    assert(e[1][4] != e[2][4]);
    assert(e[3][3] != e[4][3]);
    assert(e[5][1] != e[8][1]);
    assert(i == 0 || i == 1 || i == 2 || i == 3 || i == 4 || i == 5 || i == 6 || i == 7 || i
        == 8 || i == 9);
    assert(j == 0 || j == 1 || j == 2 || j == 3 || j == 4 || j == 5 || j == 6 || j == 7 || j
        == 8 || j == 9);
}

/// The hook entry of a command reads back that command.
pub proof fn lemma_hook_entry_command(command: Seq<char>)
    ensures
        hook_entry_data(command).field_text("command"@) == Some(command),
{
    reveal_strlit("type");
    reveal_strlit("command");
    reveal_strlit("timeout");
    reveal_with_fuel(key_index, 4);
}

/// A group made of one hook entry holds that entry.
pub proof fn lemma_hook_group_items(entry: JsonData)
    ensures
        hook_group_data(entry).field_items("hooks"@) == Some(seq![entry]),
{
    let e = Seq::<(Seq<char>, JsonData)>::empty();
    assert(seq![("hooks"@, JsonData::Array(seq![entry]))] =~= e.push(("hooks"@, JsonData::Array(seq![entry]))));
    lemma_lookup_insert_same(e, "hooks"@, JsonData::Array(seq![entry]));
}

/// Whether `command` is a hook command of `exe` as the configuration check recognises it.
pub open spec fn recognised_command(command: Seq<char>, exe: Seq<char>) -> bool {
    mentions_exe(command, exe) && mentions_hook_wrapper(command)
}

proof fn lemma_install_events_present(
    n: Seq<(Seq<char>, JsonData)>,
    exe: Seq<char>,
    command: Seq<char>,
    k: int,
)
    requires
        0 <= k <= event_count(),
        recognised_command(command, exe),
    ensures
        forall|i: int| 0 <= i < k ==> nested_event_has_codextray(install_events(n, exe, command, k), i, exe),
    decreases k,
{
    if k > 0 {
        lemma_install_events_present(n, exe, command, k - 1);
        let r = install_events(n, exe, command, k - 1);
        let ev = hook_events()[k - 1];
        let gs = array_member(r, ev);
        let x = if groups_have_codextray(gs, exe) {
            gs
        } else {
            gs.push(hook_group_data(hook_entry_data(command)))
        };
        let out = install_events(n, exe, command, k);
        assert(out == entries_insert(r, ev, JsonData::Array(x)));
        lemma_lookup_insert_same(r, ev, JsonData::Array(x));
        assert forall|i: int| 0 <= i < k implies nested_event_has_codextray(out, i, exe) by {
            if i < k - 1 {
                lemma_hook_events_distinct(i, k - 1);
                lemma_lookup_insert_other(r, ev, JsonData::Array(x), hook_events()[i]);
                assert(nested_event_has_codextray(r, i, exe));
                assert(entries_lookup(out, hook_events()[i]) == entries_lookup(r, hook_events()[i]));
            } else if groups_have_codextray(gs, exe) {
                assert(entries_lookup(out, hook_events()[i]) == Some(JsonData::Array(x)));
                assert(x == gs);
            } else {
                let g = hook_group_data(hook_entry_data(command));
                lemma_hook_group_items(hook_entry_data(command));
                lemma_hook_entry_command(command);
                assert(is_codextray_hook_entry(hook_entry_data(command), exe));
                assert(seq![hook_entry_data(command)][0] == hook_entry_data(command));
                assert(any_codextray_entry(seq![hook_entry_data(command)], exe));
                assert(group_has_codextray_hook(g, exe));
                assert(x[gs.len() as int] == g);
                assert(groups_have_codextray(x, exe));
            }
        }
    }
}

/// After installing a recognised hook command of `exe`, every hooked event of the grouped
/// table runs it, so the configuration reports the hook as present.
pub proof fn lemma_installed_hooks_present(config: JsonData, exe: Seq<char>, command: Seq<char>)
    requires
        recognised_command(command, exe),
    ensures
        config_has_codextray(installed_hooks(config, exe, command), exe),
        forall|i: int| 0 <= i < event_count() ==> nested_event_has_codextray(
            object_member(config_entries(installed_hooks(config, exe, command)), "hooks"@),
            i,
            exe,
        ),
{
    let root = config_entries(config);
    let n = install_events(object_member(root, "hooks"@), exe, command, event_count());
    lemma_install_events_present(object_member(root, "hooks"@), exe, command, event_count());
    lemma_lookup_insert_same(root, "hooks"@, JsonData::Object(n));
    assert(nested_event_has_codextray(n, 0, exe));
    assert(nested_hooks_have_codextray(n, exe));
}

proof fn lemma_install_events_unchanged(
    n: Seq<(Seq<char>, JsonData)>,
    exe: Seq<char>,
    command: Seq<char>,
    k: int,
)
    requires
        0 <= k <= event_count(),
        forall|i: int| 0 <= i < event_count() ==> nested_event_has_codextray(n, i, exe),
    ensures
        install_events(n, exe, command, k) == n,
    decreases k,
{
    if k > 0 {
        lemma_install_events_unchanged(n, exe, command, k - 1);
        let ev = hook_events()[k - 1];
        assert(nested_event_has_codextray(n, k - 1, exe));
        let gs = array_member(n, ev);
        assert(groups_have_codextray(gs, exe));
        lemma_insert_unchanged(n, ev, JsonData::Array(gs));
    }
}

/// Installing the hook a second time changes nothing.
pub proof fn lemma_install_idempotent(config: JsonData, exe: Seq<char>, command: Seq<char>)
    requires
        recognised_command(command, exe),
    ensures
        installed_hooks(installed_hooks(config, exe, command), exe, command) == installed_hooks(
            config,
            exe,
            command,
        ),
{
    lemma_installed_hooks_present(config, exe, command);
    let once = installed_hooks(config, exe, command);
    let root1 = config_entries(once);
    let n1 = object_member(root1, "hooks"@);
    lemma_install_events_unchanged(n1, exe, command, event_count());
    let root = config_entries(config);
    let n = install_events(object_member(root, "hooks"@), exe, command, event_count());
    lemma_lookup_insert_same(root, "hooks"@, JsonData::Object(n));
    lemma_insert_unchanged(root1, "hooks"@, JsonData::Object(n1));
}

/// Installing the hook command that the library builds for an executable and a receiver
/// script twice gives the configuration that installing it once gives, for every
/// configuration, when neither path holds a quote character and the script is the receiver
/// script.
pub proof fn lemma_install_built_command_idempotent(
    config: JsonData,
    script: Seq<char>,
    exe: Seq<char>,
    windows: bool,
)
    requires
        quote_free(script),
        quote_free(exe),
        seq_contains(normalized_path(script), hook_script_name()),
    ensures
        installed_hooks(
            installed_hooks(config, exe, hook_command(script, exe, windows)),
            exe,
            hook_command(script, exe, windows),
        ) == installed_hooks(config, exe, hook_command(script, exe, windows)),
{
    lemma_built_command_recognised(script, exe, windows);
    lemma_install_idempotent(config, exe, hook_command(script, exe, windows));
}

/// Whether no entry of `hs` is a hook entry of any copy of the application.
pub open spec fn no_codextray_entry(hs: Seq<JsonData>) -> bool {
    forall|k: int| 0 <= k < hs.len() ==> !is_any_codextray_hook_entry(#[trigger] hs[k])
}

proof fn lemma_without_clean(hs: Seq<JsonData>)
    ensures
        no_codextray_entry(without_codextray_entries(hs)),
    decreases hs.len(),
{
    if hs.len() > 0 {
        lemma_without_clean(hs.drop_last());
    }
}

proof fn lemma_clean_no_exe_entry(hs: Seq<JsonData>, exe: Seq<char>)
    requires
        no_codextray_entry(hs),
    ensures
        !any_codextray_entry(hs, exe),
{
    assert forall|k: int| 0 <= k < hs.len() implies !is_codextray_hook_entry(#[trigger] hs[k], exe) by {
        assert(!is_any_codextray_hook_entry(hs[k]));
    }
}

proof fn lemma_strip_group_clean(g: JsonData, exe: Seq<char>)
    ensures
        !group_has_codextray_hook(strip_group(g), exe),
{
    match g {
        JsonData::Object(e) => match entries_lookup(e, "hooks"@) {
            Some(JsonData::Array(hs)) => {
                let w = without_codextray_entries(hs);
                lemma_lookup_insert_same(e, "hooks"@, JsonData::Array(w));
                lemma_without_clean(hs);
                lemma_clean_no_exe_entry(w, exe);
            },
            _ => {},
        },
        _ => {},
    }
}

/// Whether no group of `gs` holds the hook of `exe`.
pub open spec fn no_group_with(gs: Seq<JsonData>, exe: Seq<char>) -> bool {
    forall|k: int| 0 <= k < gs.len() ==> !group_has_codextray_hook(#[trigger] gs[k], exe)
}

proof fn lemma_keep_groups_clean(gs: Seq<JsonData>, exe: Seq<char>)
    requires
        no_group_with(gs, exe),
    ensures
        no_group_with(keep_groups(gs), exe),
    decreases gs.len(),
{
    if gs.len() > 0 {
        assert(no_group_with(gs.drop_last(), exe)) by {
            assert forall|k: int| 0 <= k < gs.drop_last().len() implies !group_has_codextray_hook(
                #[trigger] gs.drop_last()[k],
                exe,
            ) by {
                assert(gs.drop_last()[k] == gs[k]);
            }
        }
        lemma_keep_groups_clean(gs.drop_last(), exe);
        assert(!group_has_codextray_hook(gs[gs.len() - 1], exe));
    }
}

proof fn lemma_strip_groups_clean(gs: Seq<JsonData>, exe: Seq<char>)
    ensures
        !groups_have_codextray(strip_groups(gs), exe),
{
    let m = gs.map_values(|g: JsonData| strip_group(g));
    assert forall|k: int| 0 <= k < m.len() implies !group_has_codextray_hook(#[trigger] m[k], exe) by {
        lemma_strip_group_clean(gs[k], exe);
    }
    lemma_keep_groups_clean(m, exe);
}

/// Whether a top-level value holds no hook entry of the application.
pub open spec fn top_value_clean(v: Option<JsonData>) -> bool {
    match v {
        Some(JsonData::Array(hs)) => no_codextray_entry(hs),
        _ => true,
    }
}

proof fn lemma_strip_top_level_clean(root: Seq<(Seq<char>, JsonData)>, k: int)
    requires
        0 <= k <= event_count(),
    ensures
        forall|i: int|
            0 <= i < k ==> top_value_clean(
                #[trigger] entries_lookup(strip_top_level(root, k), hook_events()[i]),
            ),
        entries_lookup(strip_top_level(root, k), "hooks"@) == entries_lookup(root, "hooks"@),
    decreases k,
{
    if k > 0 {
        lemma_strip_top_level_clean(root, k - 1);
        let r = strip_top_level(root, k - 1);
        let ev = hook_events()[k - 1];
        lemma_hook_events_distinct(k - 1, k - 1);
        match entries_lookup(r, ev) {
            Some(JsonData::Array(hs)) => {
                let v = JsonData::Array(without_codextray_entries(hs));
                lemma_lookup_insert_same(r, ev, v);
                lemma_lookup_insert_other(r, ev, v, "hooks"@);
                lemma_without_clean(hs);
                assert forall|i: int| 0 <= i < k implies top_value_clean(
                    #[trigger] entries_lookup(strip_top_level(root, k), hook_events()[i]),
                ) by {
                    if i < k - 1 {
                        lemma_hook_events_distinct(i, k - 1);
                        lemma_lookup_insert_other(r, ev, v, hook_events()[i]);
                    }
                }
            },
            _ => {},
        }
    }
}

proof fn lemma_strip_nested_clean(n: Seq<(Seq<char>, JsonData)>, exe: Seq<char>, k: int)
    requires
        0 <= k <= event_count(),
    ensures
        forall|i: int| 0 <= i < k ==> !nested_event_has_codextray(strip_nested(n, k), i, exe),
    decreases k,
{
    if k > 0 {
        lemma_strip_nested_clean(n, exe, k - 1);
        let r = strip_nested(n, k - 1);
        let ev = hook_events()[k - 1];
        match entries_lookup(r, ev) {
            Some(JsonData::Array(gs)) => {
                let v = JsonData::Array(strip_groups(gs));
                lemma_lookup_insert_same(r, ev, v);
                lemma_strip_groups_clean(gs, exe);
                assert forall|i: int| 0 <= i < k implies !nested_event_has_codextray(
                    strip_nested(n, k),
                    i,
                    exe,
                ) by {
                    if i < k - 1 {
                        lemma_hook_events_distinct(i, k - 1);
                        lemma_lookup_insert_other(r, ev, v, hook_events()[i]);
                        assert(!nested_event_has_codextray(r, i, exe));
                    } else {
                        assert(entries_lookup(strip_nested(n, k), hook_events()[i]) == Some(v));
                    }
                }
            },
            _ => {},
        }
    }
}

/// After removing the hooks of the application, the configuration holds the hook of no
/// executable, in either layout.
pub proof fn lemma_removed_hooks_absent(config: JsonData, exe: Seq<char>)
    ensures
        !config_has_codextray(removed_codextray_hooks(config), exe),
{
    match config {
        JsonData::Object(root) => {
            let r1 = strip_top_level(root, event_count());
            lemma_strip_top_level_clean(root, event_count());
            let out = removed_codextray_hooks(config);
            let e = config_entries(out);
            assert forall|i: int| 0 <= i < event_count() implies !top_event_has_codextray(e, i, exe) by {
                assert(top_value_clean(entries_lookup(r1, hook_events()[i])));
                match entries_lookup(r1, "hooks"@) {
                    Some(JsonData::Object(n)) => {
                        lemma_hook_events_distinct(i, i);
                        lemma_lookup_insert_other(
                            r1,
                            "hooks"@,
                            JsonData::Object(strip_nested(n, event_count())),
                            hook_events()[i],
                        );
                    },
                    _ => {},
                }
                match entries_lookup(e, hook_events()[i]) {
                    Some(JsonData::Array(hs)) => lemma_clean_no_exe_entry(hs, exe),
                    _ => {},
                }
            }
            match entries_lookup(r1, "hooks"@) {
                Some(JsonData::Object(n)) => {
                    let sn = strip_nested(n, event_count());
                    lemma_lookup_insert_same(r1, "hooks"@, JsonData::Object(sn));
                    lemma_strip_nested_clean(n, exe, event_count());
                },
                _ => {},
            }
        },
        _ => {},
    }
}


/// The configuration after switching the hooks of `exe` on (with `command`) or off: the old
/// layout is migrated, every hook of the application is removed, and when switching on the
/// current hook is installed.
pub open spec fn toggled_hooks(config: JsonData, enabled: bool, exe: Seq<char>, command: Seq<char>) -> JsonData {
    let cleaned = removed_codextray_hooks(normalized_hooks(config));
    if enabled {
        installed_hooks(cleaned, exe, command)
    } else {
        cleaned
    }
}

/// Switches the hooks of the executable `exe` on or off in the configuration.
pub fn apply_hook_toggle(config: &mut JsonValue, enabled: bool, exe: &str, command: &str)
    ensures
        final(config)@ == toggled_hooks(old(config)@, enabled, exe@, command@),
{
    normalize_hooks_config(config);
    remove_all_codextray_hooks(config);
    if enabled {
        install_codextray_hooks(config, exe, command);
    }
}

proof fn lemma_strip_top_level_other(root: Seq<(Seq<char>, JsonData)>, k: int, key: Seq<char>)
    requires
        k <= event_count(),
        forall|i: int| 0 <= i < event_count() ==> hook_events()[i] != key,
    ensures
        entries_lookup(strip_top_level(root, k), key) == entries_lookup(root, key),
    decreases k,
{
    if k > 0 {
        lemma_strip_top_level_other(root, k - 1, key);
        let r = strip_top_level(root, k - 1);
        let ev = hook_events()[k - 1];
        match entries_lookup(r, ev) {
            Some(JsonData::Array(hs)) => {
                lemma_lookup_insert_other(r, ev, JsonData::Array(without_codextray_entries(hs)), key);
            },
            _ => {},
        }
    }
}

/// Removing the hooks of the application leaves every member of the configuration other than
/// `hooks` and the hooked event names as it was.
pub proof fn lemma_removal_keeps_other_members(config: JsonData, key: Seq<char>)
    requires
        config is Object,
        key != "hooks"@,
        forall|i: int| 0 <= i < event_count() ==> hook_events()[i] != key,
    ensures
        entries_lookup(config_entries(removed_codextray_hooks(config)), key) == entries_lookup(
            config_entries(config),
            key,
        ),
{
    let root = config_entries(config);
    let r1 = strip_top_level(root, event_count());
    lemma_strip_top_level_other(root, event_count(), key);
    match entries_lookup(r1, "hooks"@) {
        Some(JsonData::Object(n)) => {
            lemma_lookup_insert_other(r1, "hooks"@, JsonData::Object(strip_nested(n, event_count())), key);
        },
        _ => {},
    }
}

/// Of a list of hook entries, removal keeps exactly those that do not run a hook command of
/// the application, in their order.
pub proof fn lemma_removal_keeps_other_entries(hs: Seq<JsonData>)
    ensures
        without_codextray_entries(hs) == hs.filter(|h: JsonData| !is_any_codextray_hook_entry(h)),
    decreases hs.len(),
{
    reveal(Seq::filter);
    if hs.len() > 0 {
        lemma_removal_keeps_other_entries(hs.drop_last());
    }
}

/// Switching the hooks on leaves the configuration running the hook of `exe`; switching them
/// off leaves it running the hook of no executable.
pub proof fn lemma_toggle_result(config: JsonData, enabled: bool, exe: Seq<char>, command: Seq<char>, other: Seq<char>)
    requires
        enabled ==> recognised_command(command, exe),
    ensures
        enabled ==> config_has_codextray(toggled_hooks(config, enabled, exe, command), exe),
        !enabled ==> !config_has_codextray(toggled_hooks(config, enabled, exe, command), other),
{
    let cleaned = removed_codextray_hooks(normalized_hooks(config));
    if enabled {
        lemma_installed_hooks_present(cleaned, exe, command);
    } else {
        lemma_removed_hooks_absent(normalized_hooks(config), other);
    }
}

} // verus!
