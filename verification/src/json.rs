//! The JSON documents the library reads and edits: responses of the Codex app-server, hook
//! configuration files, hook events and usage records.
//!
//! A document is held in [`JsonValue`]; its mathematical model is [`JsonData`] (`v@`). An object
//! is a sequence of entries; looking a key up finds its first entry, as a map with unique keys
//! does.
use vstd::prelude::*;

use crate::text::{text_eq, opt_u64_int};

verus! {

/// A JSON number as a parser holds it: a non-negative integer, a negative integer, or another
/// number as a decimal mantissa and a power of ten (`Float(m, e)` is `m * 10^e`; every finite
/// `f64` is one, by its shortest digits).
#[derive(Debug, Clone, PartialEq)]
pub enum JsonNumber {
    PosInt(u64),
    NegInt(i64),
    Float(i64, i32),
}

/// A JSON document.
#[derive(Debug, PartialEq)]
pub enum JsonValue {
    Null,
    Bool(bool),
    Number(JsonNumber),
    Str(String),
    Array(Vec<JsonValue>),
    Object(Vec<(String, JsonValue)>),
}

/// The model of a JSON number.
pub enum NumberData {
    Int(int),
    Decimal(int, int),
}

/// The model of a JSON document.
pub enum JsonData {
    Null,
    Bool(bool),
    Number(NumberData),
    Str(Seq<char>),
    Array(Seq<JsonData>),
    Object(Seq<(Seq<char>, JsonData)>),
}

pub open spec fn number_view(n: JsonNumber) -> NumberData {
    match n {
        JsonNumber::PosInt(u) => NumberData::Int(u as int),
        JsonNumber::NegInt(i) => NumberData::Int(i as int),
        JsonNumber::Float(m, e) => NumberData::Decimal(m as int, e as int),
    }
}

pub open spec fn json_view(j: JsonValue) -> JsonData
    decreases j,
{
    match j {
        JsonValue::Null => JsonData::Null,
        JsonValue::Bool(b) => JsonData::Bool(b),
        JsonValue::Number(n) => JsonData::Number(number_view(n)),
        JsonValue::Str(s) => JsonData::Str(s@),
        JsonValue::Array(v) => JsonData::Array(json_views(v@)),
        JsonValue::Object(v) => JsonData::Object(entry_views(v@)),
    }
}

/// The models of a sequence of documents.
pub open spec fn json_views(s: Seq<JsonValue>) -> Seq<JsonData>
    decreases s,
{
    if s.len() == 0 {
        Seq::empty()
    } else {
        json_views(s.drop_last()).push(json_view(s.last()))
    }
}

/// The models of a sequence of object entries.
pub open spec fn entry_views(s: Seq<(String, JsonValue)>) -> Seq<(Seq<char>, JsonData)>
    decreases s,
{
    if s.len() == 0 {
        Seq::empty()
    } else {
        entry_views(s.drop_last()).push((s.last().0@, json_view(s.last().1)))
    }
}

impl View for JsonValue {
    type V = JsonData;

    open spec fn view(&self) -> JsonData {
        json_view(*self)
    }
}

pub broadcast proof fn lemma_json_views(s: Seq<JsonValue>)
    ensures
        #[trigger] json_views(s).len() == s.len(),
        forall|i: int| 0 <= i < s.len() ==> #[trigger] json_views(s)[i] == json_view(s[i]),
    decreases s.len(),
{
    if s.len() > 0 {
        lemma_json_views(s.drop_last());
        assert forall|i: int| 0 <= i < s.len() implies #[trigger] json_views(s)[i] == json_view(
            s[i],
        ) by {
            if i < s.len() - 1 {
                assert(s.drop_last()[i] == s[i]);
            }
        }
    }
}

pub broadcast proof fn lemma_entry_views(s: Seq<(String, JsonValue)>)
    ensures
        #[trigger] entry_views(s).len() == s.len(),
        forall|i: int|
            0 <= i < s.len() ==> #[trigger] entry_views(s)[i] == (s[i].0@, json_view(s[i].1)),
    decreases s.len(),
{
    if s.len() > 0 {
        lemma_entry_views(s.drop_last());
        assert forall|i: int| 0 <= i < s.len() implies #[trigger] entry_views(s)[i] == (
            s[i].0@,
            json_view(s[i].1),
        ) by {
            if i < s.len() - 1 {
                assert(s.drop_last()[i] == s[i]);
            }
        }
    }
}

pub broadcast group group_json_views {
    lemma_json_views,
    lemma_entry_views,
}

/// The index of the first entry of `e` whose key is `key`, or -1.
pub open spec fn key_index(e: Seq<(Seq<char>, JsonData)>, key: Seq<char>) -> int
    decreases e.len(),
{
    if e.len() == 0 {
        -1
    } else {
        let r = key_index(e.drop_last(), key);
        if r >= 0 {
            r
        } else if e.last().0 == key {
            e.len() - 1
        } else {
            -1
        }
    }
}

pub proof fn lemma_key_index(e: Seq<(Seq<char>, JsonData)>, key: Seq<char>)
    ensures
        ({
            let r = key_index(e, key);
            ||| (r == -1 && forall|j: int| 0 <= j < e.len() ==> (#[trigger] e[j]).0 != key)
            ||| (0 <= r < e.len() && e[r].0 == key && forall|j: int|
                0 <= j < r ==> (#[trigger] e[j]).0 != key)
        }),
    decreases e.len(),
{
    if e.len() > 0 {
        lemma_key_index(e.drop_last(), key);
        let r = key_index(e.drop_last(), key);
        if r >= 0 {
            assert(e.drop_last()[r] == e[r]);
            assert forall|j: int| 0 <= j < r implies (#[trigger] e[j]).0 != key by {
                assert(e.drop_last()[j] == e[j]);
            }
        } else {
            assert forall|j: int| 0 <= j < e.len() - 1 implies (#[trigger] e[j]).0 != key by {
                assert(e.drop_last()[j] == e[j]);
            }
        }
    }
}

/// The value of the first entry of `e` with key `key`.
pub open spec fn entries_lookup(e: Seq<(Seq<char>, JsonData)>, key: Seq<char>) -> Option<
    JsonData,
> {
    let r = key_index(e, key);
    if r >= 0 {
        Some(e[r].1)
    } else {
        None
    }
}

/// `e` with the value of key `key` set to `v`: the first entry with that key is replaced, or
/// a new entry is appended (what inserting into a map does).
pub open spec fn entries_insert(
    e: Seq<(Seq<char>, JsonData)>,
    key: Seq<char>,
    v: JsonData,
) -> Seq<(Seq<char>, JsonData)> {
    let r = key_index(e, key);
    if r >= 0 {
        e.update(r, (key, v))
    } else {
        e.push((key, v))
    }
}

/// `e` without the first entry whose key is `key`.
pub open spec fn entries_remove(e: Seq<(Seq<char>, JsonData)>, key: Seq<char>) -> Seq<
    (Seq<char>, JsonData),
> {
    let r = key_index(e, key);
    if r >= 0 {
        e.remove(r)
    } else {
        e
    }
}

impl JsonData {
    /// The value of member `key` of an object (`Value::get`).
    pub open spec fn field(self, key: Seq<char>) -> Option<JsonData> {
        match self {
            JsonData::Object(e) => entries_lookup(e, key),
            _ => None,
        }
    }

    /// The text of a string (`Value::as_str`).
    pub open spec fn text(self) -> Option<Seq<char>> {
        match self {
            JsonData::Str(s) => Some(s),
            _ => None,
        }
    }

    /// The value of a boolean (`Value::as_bool`).
    pub open spec fn boolean(self) -> Option<bool> {
        match self {
            JsonData::Bool(b) => Some(b),
            _ => None,
        }
    }

    /// The elements of an array (`Value::as_array`).
    pub open spec fn items(self) -> Option<Seq<JsonData>> {
        match self {
            JsonData::Array(a) => Some(a),
            _ => None,
        }
    }

    /// The entries of an object (`Value::as_object`).
    pub open spec fn entries(self) -> Option<Seq<(Seq<char>, JsonData)>> {
        match self {
            JsonData::Object(e) => Some(e),
            _ => None,
        }
    }

    /// The value of an integer in the range of `u64` (`Value::as_u64`).
    pub open spec fn unsigned(self) -> Option<int> {
        match self {
            JsonData::Number(NumberData::Int(i)) => if 0 <= i <= u64::MAX {
                Some(i)
            } else {
                None
            },
            _ => None,
        }
    }

    /// The value of an integer in the range of `i64` (`Value::as_i64`).
    pub open spec fn signed(self) -> Option<int> {
        match self {
            JsonData::Number(NumberData::Int(i)) => if i64::MIN <= i <= i64::MAX {
                Some(i)
            } else {
                None
            },
            _ => None,
        }
    }

    pub open spec fn is_null(self) -> bool {
        self is Null
    }

    /// The number a document holds (what `Value::as_f64` reads, as an exact number).
    pub open spec fn number(self) -> Option<NumberData> {
        match self {
            JsonData::Number(n) => Some(n),
            _ => None,
        }
    }

    /// The text of member `key`, when that member is a string.
    pub open spec fn field_text(self, key: Seq<char>) -> Option<Seq<char>> {
        match self.field(key) {
            Some(v) => v.text(),
            None => None,
        }
    }

    /// The elements of member `key`, when that member is an array.
    pub open spec fn field_items(self, key: Seq<char>) -> Option<Seq<JsonData>> {
        match self.field(key) {
            Some(v) => v.items(),
            None => None,
        }
    }

    /// The boolean of member `key`, when that member is a boolean.
    pub open spec fn field_bool(self, key: Seq<char>) -> Option<bool> {
        match self.field(key) {
            Some(v) => v.boolean(),
            None => None,
        }
    }

    /// Member `key` of an object, or the document itself when it has no such member
    /// (`value.get(key).unwrap_or(value)`).
    pub open spec fn field_or_self(self, key: Seq<char>) -> JsonData {
        match self.field(key) {
            Some(v) => v,
            None => self,
        }
    }
}

/// The model of an optional reference to a document.
pub open spec fn ref_view(r: Option<&JsonValue>) -> Option<JsonData> {
    match r {
        Some(v) => Some(json_view(*v)),
        None => None,
    }
}

/// The model of an optional text.
pub open spec fn str_view(r: Option<&str>) -> Option<Seq<char>> {
    match r {
        Some(s) => Some(s@),
        None => None,
    }
}

/// The index of the first entry of `entries` whose key is `key`.
pub fn find_key(entries: &Vec<(String, JsonValue)>, key: &str) -> (r: Option<usize>)
    ensures
        match r {
            Some(i) => i < entries.len() && key_index(entry_views(entries@), key@) == i as int,
            None => key_index(entry_views(entries@), key@) == -1,
        },
{
    broadcast use group_json_views;

    let ghost e = entry_views(entries@);
    proof {
        lemma_entry_views(entries@);
    }
    let mut i: usize = 0;
    while i < entries.len()
        invariant
            e == entry_views(entries@),
            e.len() == entries.len(),
            forall|j: int| 0 <= j < e.len() ==> #[trigger] e[j] == (entries@[j].0@, json_view(entries@[j].1)),
            i <= entries.len(),
            forall|j: int| 0 <= j < i ==> (#[trigger] e[j]).0 != key@,
        decreases entries.len() - i,
    {
        if text_eq(entries[i].0.as_str(), key) {
            proof {
                lemma_key_index(e, key@);
                let r = key_index(e, key@);
                assert(e[i as int].0 == key@);
                if r != i as int {
                    if r == -1 {
                        assert(e[i as int].0 != key@);
                    } else if r < i {
                        assert(e[r].0 != key@);
                    } else {
                        assert(e[i as int].0 != key@);
                    }
                }
            }
            return Some(i);
        }
        assert(e[i as int].0 != key@);
        i += 1;
    }
    proof {
        lemma_key_index(e, key@);
        let r = key_index(e, key@);
        if r >= 0 {
            assert(e[r].0 != key@);
        }
    }
    None
}

impl JsonValue {
    /// Member `key` of an object (`Value::get`).
    pub fn get(&self, key: &str) -> (r: Option<&JsonValue>)
        ensures
            ref_view(r) == self@.field(key@),
    {
        broadcast use group_json_views;

        match self {
            JsonValue::Object(entries) => match find_key(entries, key) {
                Some(i) => Some(&entries[i].1),
                None => None,
            },
            _ => None,
        }
    }

    /// The text of a string (`Value::as_str`).
    pub fn as_str(&self) -> (r: Option<&str>)
        ensures
            str_view(r) == self@.text(),
    {
        match self {
            JsonValue::Str(s) => Some(s.as_str()),
            _ => None,
        }
    }

    /// The value of a boolean (`Value::as_bool`).
    pub fn as_bool(&self) -> (r: Option<bool>)
        ensures
            r == self@.boolean(),
    {
        match self {
            JsonValue::Bool(b) => Some(*b),
            _ => None,
        }
    }

    /// The elements of an array (`Value::as_array`).
    pub fn as_array(&self) -> (r: Option<&Vec<JsonValue>>)
        ensures
            match r {
                Some(v) => self@.items() == Some(json_views(v@)),
                None => self@.items() is None,
            },
    {
        match self {
            JsonValue::Array(v) => Some(v),
            _ => None,
        }
    }

    /// The entries of an object (`Value::as_object`).
    pub fn as_object(&self) -> (r: Option<&Vec<(String, JsonValue)>>)
        ensures
            match r {
                Some(v) => self@.entries() == Some(entry_views(v@)),
                None => self@.entries() is None,
            },
    {
        match self {
            JsonValue::Object(v) => Some(v),
            _ => None,
        }
    }

    /// The value of an integer in the range of `u64` (`Value::as_u64`).
    pub fn as_u64(&self) -> (r: Option<u64>)
        ensures
            opt_u64_int(r) == self@.unsigned(),
    {
        match self {
            JsonValue::Number(JsonNumber::PosInt(u)) => Some(*u),
            JsonValue::Number(JsonNumber::NegInt(i)) => {
                if *i >= 0 {
                    Some(*i as u64)
                } else {
                    None
                }
            },
            _ => None,
        }
    }

    /// The value of an integer in the range of `i64` (`Value::as_i64`).
    pub fn as_i64(&self) -> (r: Option<i64>)
        ensures
            crate::text::opt_i64_int(r) == self@.signed(),
    {
        match self {
            JsonValue::Number(JsonNumber::PosInt(u)) => {
                if *u <= 9223372036854775807 {
                    Some(*u as i64)
                } else {
                    None
                }
            },
            JsonValue::Number(JsonNumber::NegInt(i)) => Some(*i),
            _ => None,
        }
    }

    /// The number the document holds, if it is one.
    pub fn as_number(&self) -> (r: Option<&JsonNumber>)
        ensures
            match r {
                Some(n) => self@.number() == Some(number_view(*n)),
                None => self@.number() is None,
            },
    {
        match self {
            JsonValue::Number(n) => Some(n),
            _ => None,
        }
    }

    pub fn is_null(&self) -> (r: bool)
        ensures
            r == self@.is_null(),
    {
        match self {
            JsonValue::Null => true,
            _ => false,
        }
    }

    pub fn is_object(&self) -> (r: bool)
        ensures
            r == self@ is Object,
    {
        match self {
            JsonValue::Object(_) => true,
            _ => false,
        }
    }

    pub fn is_array(&self) -> (r: bool)
        ensures
            r == self@ is Array,
    {
        match self {
            JsonValue::Array(_) => true,
            _ => false,
        }
    }

    /// The text of member `key`, when that member is a string.
    pub fn field_str(&self, key: &str) -> (r: Option<&str>)
        ensures
            str_view(r) == self@.field_text(key@),
    {
        match self.get(key) {
            Some(v) => v.as_str(),
            None => None,
        }
    }

    /// A string document holding `s`.
    pub fn text(s: &str) -> (r: JsonValue)
        ensures
            r@ == JsonData::Str(s@),
    {
        JsonValue::Str(String::from_str(s))
    }

    /// A copy of the document.
    pub fn deep_copy(&self) -> (r: JsonValue)
        ensures
            r@ == self@,
        decreases self,
    {
        broadcast use group_json_views;

        match self {
            JsonValue::Null => JsonValue::Null,
            JsonValue::Bool(b) => JsonValue::Bool(*b),
            JsonValue::Number(JsonNumber::PosInt(u)) => JsonValue::Number(JsonNumber::PosInt(*u)),
            JsonValue::Number(JsonNumber::NegInt(i)) => JsonValue::Number(JsonNumber::NegInt(*i)),
            JsonValue::Number(JsonNumber::Float(m, e)) => JsonValue::Number(
                JsonNumber::Float(*m, *e),
            ),
            JsonValue::Str(s) => JsonValue::Str(s.clone()),
            JsonValue::Array(v) => {
                let mut out: Vec<JsonValue> = Vec::new();
                let mut i: usize = 0;
                while i < v.len()
                    invariant
                        i <= v.len(),
                        *self == JsonValue::Array(*v),
                        out@.len() == i,
                        forall|k: int| 0 <= k < i ==> json_view(#[trigger] out@[k]) == json_view(v@[k]),
                    decreases v.len() - i,
                {
                    proof {
                        assert(decreases_to!(*self => self->Array_0));
                        assert(decreases_to!(self->Array_0 => self->Array_0@));
                        assert(decreases_to!(self->Array_0@ => self->Array_0@[i as int]));
                    }
                    let c = v[i].deep_copy();
                    out.push(c);
                    i += 1;
                }
                proof {
                    lemma_json_views(out@);
                    lemma_json_views(v@);
                    assert(json_views(out@) =~= json_views(v@));
                }
                JsonValue::Array(out)
            },
            JsonValue::Object(v) => {
                let mut out: Vec<(String, JsonValue)> = Vec::new();
                let mut i: usize = 0;
                while i < v.len()
                    invariant
                        i <= v.len(),
                        *self == JsonValue::Object(*v),
                        out@.len() == i,
                        forall|k: int| 0 <= k < i ==> (#[trigger] out@[k]).0@ == v@[k].0@ && json_view(out@[k].1) == json_view(v@[k].1),
                    decreases v.len() - i,
                {
                    proof {
                        assert(decreases_to!(*self => self->Object_0));
                        assert(decreases_to!(self->Object_0 => self->Object_0@));
                        assert(decreases_to!(self->Object_0@ => self->Object_0@[i as int]));
                        assert(decreases_to!(self->Object_0@[i as int] => self->Object_0@[i as int].1));
                    }
                    let k = v[i].0.clone();
                    let c = v[i].1.deep_copy();
                    out.push((k, c));
                    i += 1;
                }
                proof {
                    lemma_entry_views(out@);
                    lemma_entry_views(v@);
                    assert(entry_views(out@) =~= entry_views(v@));
                }
                JsonValue::Object(out)
            },
        }
    }
}

/// Sets member `key` of the entries to `value` (inserting into a map).
pub fn entries_set(entries: &mut Vec<(String, JsonValue)>, key: &str, value: JsonValue)
    ensures
        entry_views(final(entries)@) == entries_insert(entry_views(old(entries)@), key@, value@),
{
    broadcast use group_json_views;

    let ghost e = entry_views(entries@);
    match find_key(entries, key) {
        Some(i) => {
            entries.set(i, (String::from_str(key), value));
            assert(entry_views(entries@) =~= e.update(i as int, (key@, value@)));
        },
        None => {
            entries.push((String::from_str(key), value));
            assert(entry_views(entries@) =~= e.push((key@, value@)));
        },
    }
}

/// Removes member `key` from the entries and returns its value (removing from a map).
pub fn entries_take(entries: &mut Vec<(String, JsonValue)>, key: &str) -> (r: Option<JsonValue>)
    ensures
        entry_views(final(entries)@) == entries_remove(entry_views(old(entries)@), key@),
        ref_view(match r {
            Some(v) => Some(&v),
            None => None,
        }) == entries_lookup(entry_views(old(entries)@), key@),
{
    broadcast use group_json_views;

    let ghost e = entry_views(entries@);
    match find_key(entries, key) {
        Some(i) => {
            let (_, v) = entries.remove(i);
            assert(entry_views(entries@) =~= e.remove(i as int));
            Some(v)
        },
        None => None,
    }
}


/// Whether two entry sequences have the same keys at the same positions.
pub open spec fn same_keys(a: Seq<(Seq<char>, JsonData)>, b: Seq<(Seq<char>, JsonData)>) -> bool {
    a.len() == b.len() && forall|i: int| 0 <= i < a.len() ==> (#[trigger] a[i]).0 == b[i].0
}

/// Looking a key up depends only on the keys of the entries.
pub proof fn lemma_key_index_same_keys(
    a: Seq<(Seq<char>, JsonData)>,
    b: Seq<(Seq<char>, JsonData)>,
    key: Seq<char>,
)
    requires
        same_keys(a, b),
    ensures
        key_index(a, key) == key_index(b, key),
    decreases a.len(),
{
    if a.len() > 0 {
        assert(same_keys(a.drop_last(), b.drop_last())) by {
            assert forall|i: int| 0 <= i < a.drop_last().len() implies (#[trigger] a.drop_last()[i]).0
                == b.drop_last()[i].0 by {
                assert(a.drop_last()[i] == a[i]);
                assert(b.drop_last()[i] == b[i]);
            }
        }
        lemma_key_index_same_keys(a.drop_last(), b.drop_last(), key);
        assert(a.last().0 == b.last().0) by {
            assert(a[a.len() - 1].0 == b[a.len() - 1].0);
        }
    }
}

/// After setting `key`, looking it up gives the new value.
pub proof fn lemma_lookup_insert_same(e: Seq<(Seq<char>, JsonData)>, key: Seq<char>, v: JsonData)
    ensures
        entries_lookup(entries_insert(e, key, v), key) == Some(v),
{
    lemma_key_index(e, key);
    let r = key_index(e, key);
    if r >= 0 {
        let u = e.update(r, (key, v));
        assert(same_keys(e, u));
        lemma_key_index_same_keys(e, u, key);
    } else {
        let u = e.push((key, v));
        assert(u.drop_last() =~= e);
    }
}

/// Setting `key` leaves the value of every other key as it was.
pub proof fn lemma_lookup_insert_other(
    e: Seq<(Seq<char>, JsonData)>,
    key: Seq<char>,
    v: JsonData,
    other: Seq<char>,
)
    requires
        other != key,
    ensures
        entries_lookup(entries_insert(e, key, v), other) == entries_lookup(e, other),
{
    lemma_key_index(e, key);
    lemma_key_index(e, other);
    let r = key_index(e, key);
    if r >= 0 {
        let u = e.update(r, (key, v));
        assert(same_keys(e, u));
        lemma_key_index_same_keys(e, u, other);
        let k2 = key_index(e, other);
        if k2 >= 0 {
            assert(k2 != r);
        }
    } else {
        let u = e.push((key, v));
        assert(u.drop_last() =~= e);
    }
}

/// Setting a key to the value it already has changes nothing.
pub proof fn lemma_insert_unchanged(e: Seq<(Seq<char>, JsonData)>, key: Seq<char>, v: JsonData)
    requires
        entries_lookup(e, key) == Some(v),
    ensures
        entries_insert(e, key, v) == e,
{
    lemma_key_index(e, key);
    let r = key_index(e, key);
    assert(e.update(r, (key, v)) =~= e);
}

} // verus!
