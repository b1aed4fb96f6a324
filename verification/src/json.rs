use vstd::prelude::*;

use crate::text::str_eq;

verus! {

/// A JSON number, kept the way serde_json keeps it: a non-negative integer,
/// a negative integer, or a float held by its IEEE-754 bit pattern.
#[derive(PartialEq, Eq, Structural, Clone, Copy, Debug)]
pub enum JsonNumber {
    PosInt(u64),
    NegInt(i64),
    Float(u64),
}

/// A JSON value. Objects keep their entries as key/value pairs.
#[derive(Debug, PartialEq)]
pub enum JsonValue {
    Null,
    Bool(bool),
    Number(JsonNumber),
    String(String),
    Array(Vec<JsonValue>),
    Object(Vec<(String, JsonValue)>),
}

/// The mathematical model of a JSON value.
#[verifier::ext_equal]
pub enum Json {
    Null,
    Bool(bool),
    Number(JsonNumber),
    Str(Seq<char>),
    Array(Seq<Json>),
    Object(Seq<(Seq<char>, Json)>),
}

pub open spec fn json_of(v: JsonValue) -> Json
    decreases v,
{
    match v {
        JsonValue::Null => Json::Null,
        JsonValue::Bool(b) => Json::Bool(b),
        JsonValue::Number(n) => Json::Number(n),
        JsonValue::String(s) => Json::Str(s@),
        JsonValue::Array(items) => Json::Array(jsons_of(items@)),
        JsonValue::Object(entries) => Json::Object(entries_of(entries@)),
    }
}

pub open spec fn jsons_of(s: Seq<JsonValue>) -> Seq<Json>
    decreases s,
{
    Seq::new(s.len(), |i: int| if 0 <= i < s.len() { json_of(s[i]) } else { Json::Null })
}

pub open spec fn entries_of(s: Seq<(String, JsonValue)>) -> Seq<(Seq<char>, Json)>
    decreases s,
{
    Seq::new(s.len(), |i: int| if 0 <= i < s.len() { (s[i].0@, json_of(s[i].1)) } else { (Seq::empty(), Json::Null) })
}

/// `entries` has an entry for `k`.
pub open spec fn has_key(entries: Seq<(Seq<char>, Json)>, k: Seq<char>) -> bool {
    exists|i: int| 0 <= i < entries.len() && entries[i].0 == k
}

/// The position of the first entry for `k`.
pub open spec fn key_pos(entries: Seq<(Seq<char>, Json)>, k: Seq<char>) -> int {
    choose|i: int| 0 <= i < entries.len() && entries[i].0 == k && forall|j: int| 0 <= j < i ==> entries[j].0 != k
}

/// The first entry for a key that has one is where `key_pos` points.
pub proof fn lemma_key_pos(entries: Seq<(Seq<char>, Json)>, k: Seq<char>)
    requires
        has_key(entries, k),
    ensures
        0 <= key_pos(entries, k) < entries.len(),
        entries[key_pos(entries, k)].0 == k,
        forall|j: int| 0 <= j < key_pos(entries, k) ==> entries[j].0 != k,
{
    let i = choose|i: int| 0 <= i < entries.len() && entries[i].0 == k;
    lemma_first_from(entries, k, i);
}

proof fn lemma_first_from(entries: Seq<(Seq<char>, Json)>, k: Seq<char>, i: int)
    requires
        0 <= i < entries.len(),
        entries[i].0 == k,
    ensures
        exists|m: int| 0 <= m < entries.len() && entries[m].0 == k && forall|j: int| 0 <= j < m ==> entries[j].0 != k,
    decreases i,
{
    if exists|j: int| 0 <= j < i && entries[j].0 == k {
        let j = choose|j: int| 0 <= j < i && entries[j].0 == k;
        lemma_first_from(entries, k, j);
    } else {
        assert(forall|j: int| 0 <= j < i ==> entries[j].0 != k);
    }
}

/// The value for `k` in the entries of an object (the first, should there be
/// several).
pub open spec fn obj_get(entries: Seq<(Seq<char>, Json)>, k: Seq<char>) -> Option<Json> {
    if has_key(entries, k) {
        Some(entries[key_pos(entries, k)].1)
    } else {
        None
    }
}

/// The entries of an object after `k` is set to `v`: the entry for `k` is
/// replaced in place, or a new one is added at the end.
pub open spec fn obj_insert(entries: Seq<(Seq<char>, Json)>, k: Seq<char>, v: Json) -> Seq<(Seq<char>, Json)> {
    if has_key(entries, k) {
        entries.update(key_pos(entries, k), (k, v))
    } else {
        entries.push((k, v))
    }
}

/// The value for `k` in a JSON value: the object's entry, or nothing for any
/// other kind of value (`serde_json::Value::get` with a string key).
pub open spec fn json_get(v: Json, k: Seq<char>) -> Option<Json> {
    match v {
        Json::Object(entries) => obj_get(entries, k),
        _ => None,
    }
}

/// The number serde_json makes of an `i64`.
pub open spec fn number_of_i64(n: i64) -> JsonNumber {
    if n < 0 {
        JsonNumber::NegInt(n)
    } else {
        JsonNumber::PosInt(n as u64)
    }
}

/// The `i64` a number holds, if it holds one (`serde_json::Value::as_i64`).
pub open spec fn number_as_i64(n: JsonNumber) -> Option<i64> {
    match n {
        JsonNumber::PosInt(u) => if u <= i64::MAX { Some(u as i64) } else { None },
        JsonNumber::NegInt(i) => Some(i),
        JsonNumber::Float(_) => None,
    }
}

/// `serde_json::Value::as_str`.
pub open spec fn json_as_str(v: Json) -> Option<Seq<char>> {
    match v {
        Json::Str(s) => Some(s),
        _ => None,
    }
}

/// `serde_json::Value::as_i64`.
pub open spec fn json_as_i64(v: Json) -> Option<i64> {
    match v {
        Json::Number(n) => number_as_i64(n),
        _ => None,
    }
}

/// `serde_json::Value::as_bool`.
pub open spec fn json_as_bool(v: Json) -> Option<bool> {
    match v {
        Json::Bool(b) => Some(b),
        _ => None,
    }
}

/// The position of the first entry for `key`, if any.
pub fn find_key(entries: &Vec<(String, JsonValue)>, key: &str) -> (r: Option<usize>)
    ensures
        match r {
            Some(i) => {
                &&& has_key(entries_of(entries@), key@)
                &&& i as int == key_pos(entries_of(entries@), key@)
                &&& i < entries@.len()
                &&& entries@[i as int].0@ == key@
            },
            None => !has_key(entries_of(entries@), key@),
        },
{
    let ghost es = entries_of(entries@);
    let mut i: usize = 0;
    while i < entries.len()
        invariant
            i <= entries@.len(),
            es == entries_of(entries@),
            forall|j: int| 0 <= j < i ==> es[j].0 != key@,
        decreases entries@.len() - i,
    {
        if str_eq(entries[i].0.as_str(), key) {
            assert(es[i as int].0 == key@);
            let ghost p = key_pos(es, key@);
            assert(has_key(es, key@));
            assert(p == i) by {
                if p < i {
                    assert(es[p].0 != key@);
                } else if p > i {
                }
            }
            return Some(i);
        }
        i = i + 1;
    }
    None
}

impl View for JsonValue {
    type V = Json;

    open spec fn view(&self) -> Json {
        json_of(*self)
    }
}

impl JsonValue {
    /// A copy of this value.
    pub fn deep_clone(&self) -> (r: JsonValue)
        ensures
            r@ == self@,
        decreases self,
    {
        match self {
            JsonValue::Null => JsonValue::Null,
            JsonValue::Bool(b) => JsonValue::Bool(*b),
            JsonValue::Number(n) => JsonValue::Number(*n),
            JsonValue::String(s) => JsonValue::String(s.clone()),
            JsonValue::Array(items) => {
                let mut out: Vec<JsonValue> = Vec::new();
                let mut i: usize = 0;
                while i < items.len()
                    invariant
                        i <= items@.len(),
                        *self == JsonValue::Array(*items),
                        out@.len() == i,
                        forall|j: int| 0 <= j < i ==> json_of(#[trigger] out@[j]) == json_of(items@[j]),
                    decreases items@.len() - i,
                {
                    proof {
                        assert(decreases_to!(*self => (*self)->Array_0));
                        assert(decreases_to!(*items => items[i as int]));
                    }
                    let c = items[i].deep_clone();
                    out.push(c);
                    i = i + 1;
                }
                let r = JsonValue::Array(out);
                assert(jsons_of(out@) =~= jsons_of(items@));
                r
            },
            JsonValue::Object(entries) => {
                let mut out: Vec<(String, JsonValue)> = Vec::new();
                let mut i: usize = 0;
                while i < entries.len()
                    invariant
                        i <= entries@.len(),
                        *self == JsonValue::Object(*entries),
                        out@.len() == i,
                        forall|j: int| 0 <= j < i ==> (#[trigger] out@[j]).0@ == entries@[j].0@ && json_of(out@[j].1) == json_of(entries@[j].1),
                    decreases entries@.len() - i,
                {
                    let k = entries[i].0.clone();
                    proof {
                        assert(decreases_to!(*self => (*self)->Object_0));
                        assert(decreases_to!(*entries => entries[i as int]));
                        assert(decreases_to!(entries[i as int] => entries[i as int].1));
                    }
                    let c = entries[i].1.deep_clone();
                    out.push((k, c));
                    i = i + 1;
                }
                let r = JsonValue::Object(out);
                assert(entries_of(out@) =~= entries_of(entries@));
                r
            },
        }
    }
}

/// Sets `key` to `value` among the entries of an object: the entry for `key`
/// is replaced in place, or a new one is added at the end.
pub fn object_insert(entries: &mut Vec<(String, JsonValue)>, key: String, value: JsonValue)
    ensures
        entries_of(final(entries)@) == obj_insert(entries_of(old(entries)@), key@, value@),
{
    let ghost es = entries_of(entries@);
    let ghost k = key@;
    let ghost v = value@;
    match find_key(entries, key.as_str()) {
        Some(i) => {
            entries.set(i, (key, value));
            assert(entries_of(entries@) =~= es.update(i as int, (k, v)));
        },
        None => {
            entries.push((key, value));
            assert(entries_of(entries@) =~= es.push((k, v)));
        },
    }
}

/// The JSON number of an `i64`.
pub fn number_from_i64(n: i64) -> (r: JsonNumber)
    ensures
        r == number_of_i64(n),
{
    if n < 0 {
        JsonNumber::NegInt(n)
    } else {
        JsonNumber::PosInt(n as u64)
    }
}

impl JsonValue {
    /// The value for `key` of an object; nothing for any other kind of value.
    pub fn get(&self, key: &str) -> (r: Option<&JsonValue>)
        ensures
            match r {
                Some(v) => json_get(self@, key@) == Some(v@),
                None => json_get(self@, key@) is None,
            },
    {
        match self {
            JsonValue::Object(entries) => {
                let ghost es = entries_of(entries@);
                assert(self@ == Json::Object(es));
                match find_key(entries, key) {
                    Some(i) => {
                        assert(es[i as int].1 == entries@[i as int].1@);
                        Some(&entries[i].1)
                    },
                    None => None,
                }
            },
            _ => None,
        }
    }

    /// The string this value holds, if it is one.
    pub fn as_str(&self) -> (r: Option<&str>)
        ensures
            match r {
                Some(s) => json_as_str(self@) == Some(s@),
                None => json_as_str(self@) is None,
            },
    {
        match self {
            JsonValue::String(s) => Some(s.as_str()),
            _ => None,
        }
    }

    /// The `i64` this value holds, if it is a number that fits.
    pub fn as_i64(&self) -> (r: Option<i64>)
        ensures
            r == json_as_i64(self@),
    {
        match self {
            JsonValue::Number(JsonNumber::PosInt(u)) => {
                if *u <= 0x7fff_ffff_ffff_ffffu64 {
                    Some(*u as i64)
                } else {
                    None
                }
            },
            JsonValue::Number(JsonNumber::NegInt(i)) => Some(*i),
            _ => None,
        }
    }

    /// The boolean this value holds, if it is one.
    pub fn as_bool(&self) -> (r: Option<bool>)
        ensures
            r == json_as_bool(self@),
    {
        match self {
            JsonValue::Bool(b) => Some(*b),
            _ => None,
        }
    }
}

/// Reading a key of an object after setting it gives the value set; the
/// other keys keep their values.
pub proof fn lemma_get_after_insert(entries: Seq<(Seq<char>, Json)>, k: Seq<char>, v: Json, other: Seq<char>)
    ensures
        obj_get(obj_insert(entries, k, v), k) == Some(v),
        other != k ==> obj_get(obj_insert(entries, k, v), other) == obj_get(entries, other),
{
    let e2 = obj_insert(entries, k, v);
    if has_key(entries, k) {
        lemma_key_pos(entries, k);
        let p = key_pos(entries, k);
        assert(e2[p].0 == k);
        assert(has_key(e2, k));
        lemma_key_pos(e2, k);
        let p2 = key_pos(e2, k);
        assert(p2 == p) by {
            if p2 < p {
                assert(e2[p2] == entries[p2]);
            } else if p < p2 {
                assert(e2[p].0 == k);
            }
        }
    } else {
        assert(e2[entries.len() as int].0 == k);
        assert(has_key(e2, k));
        lemma_key_pos(e2, k);
        let p2 = key_pos(e2, k);
        assert(p2 == entries.len()) by {
            if p2 < entries.len() {
                assert(e2[p2] == entries[p2]);
            }
        }
    }
    if other != k {
        if has_key(entries, other) {
            lemma_key_pos(entries, other);
            let q = key_pos(entries, other);
            assert(e2[q].0 == other);
            assert(has_key(e2, other));
            lemma_key_pos(e2, other);
            let q2 = key_pos(e2, other);
            assert(q2 == q) by {
                if q2 < q {
                    assert(e2[q2].0 == entries[q2].0 || e2[q2].0 == k);
                } else if q < q2 {
                    assert(e2[q].0 == other);
                }
            }
        } else {
            assert(!has_key(e2, other)) by {
                if has_key(e2, other) {
                    let j = choose|j: int| 0 <= j < e2.len() && e2[j].0 == other;
                    if j < entries.len() {
                        assert(e2[j].0 == entries[j].0 || e2[j].0 == k);
                    }
                }
            }
        }
    }
}

impl Clone for JsonValue {
    /// A copy with the same model (see `deep_clone`).
    fn clone(&self) -> (r: Self)
        ensures
            r@ == self@,
    {
        self.deep_clone()
    }
}

} // verus!
