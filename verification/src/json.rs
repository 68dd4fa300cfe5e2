//! JSON documents as the library reads and rewrites them.
//!
//! Parsing and printing are `serde_json`'s; the tree in between is held in
//! [`Json`], whose view [`JsonV`] the contracts speak of. Objects keep their
//! entries in a sequence; a key is looked up at its first occurrence.

use serde_json::{Number, Value};
use vstd::prelude::*;

use crate::text::str_eq;

verus! {

/// `serde_json::Value`, which the parsing and printing wrappers convert
/// to and from [`Json`]; opaque to proofs.
#[verifier::external_type_specification]
#[verifier::external_body]
pub struct ExSerdeValue(serde_json::Value);

/// `serde_json::Number`, converted to and from [`JsonNumber`]; opaque to
/// proofs.
#[verifier::external_type_specification]
#[verifier::external_body]
pub struct ExSerdeNumber(serde_json::Number);

/// A JSON number as serde_json holds it: a non-negative integer that fits
/// a `u64`, a negative integer that fits an `i64`, or any other number, kept
/// as the text serde_json prints for it.
#[derive(Debug)]
pub enum JsonNumber {
    PosInt(u64),
    NegInt(i64),
    Float(String),
}

/// The view of a JSON number.
pub enum JsonNumberV {
    PosInt(u64),
    NegInt(i64),
    Float(Seq<char>),
}

pub open spec fn number_view(n: JsonNumber) -> JsonNumberV {
    match n {
        JsonNumber::PosInt(u) => JsonNumberV::PosInt(u),
        JsonNumber::NegInt(i) => JsonNumberV::NegInt(i),
        JsonNumber::Float(t) => JsonNumberV::Float(t@),
    }
}

/// A JSON value.
#[derive(Debug)]
pub enum Json {
    Null,
    Bool(bool),
    Number(JsonNumber),
    Str(String),
    Array(Vec<Json>),
    Object(Vec<(String, Json)>),
}

/// The mathematical JSON value: strings as characters, containers as sequences.
pub enum JsonV {
    Null,
    Bool(bool),
    Number(JsonNumberV),
    Str(Seq<char>),
    Array(Seq<JsonV>),
    Object(Seq<(Seq<char>, JsonV)>),
}

impl Json {
    pub open spec fn deep(self) -> JsonV
        decreases self,
    {
        match self {
            Json::Null => JsonV::Null,
            Json::Bool(b) => JsonV::Bool(b),
            Json::Number(n) => JsonV::Number(number_view(n)),
            Json::Str(s) => JsonV::Str(s@),
            Json::Array(v) => JsonV::Array(
                Seq::new(
                    v@.len(),
                    |i: int|
                        if 0 <= i < v@.len() {
                            v@[i].deep()
                        } else {
                            JsonV::Null
                        },
                ),
            ),
            Json::Object(v) => JsonV::Object(
                Seq::new(
                    v@.len(),
                    |i: int|
                        if 0 <= i < v@.len() {
                            (v@[i].0@, v@[i].1.deep())
                        } else {
                            (Seq::empty(), JsonV::Null)
                        },
                ),
            ),
        }
    }
}

impl View for Json {
    type V = JsonV;

    open spec fn view(&self) -> JsonV {
        self.deep()
    }
}

/// Views of an array's elements.
pub open spec fn array_view(v: Seq<Json>) -> Seq<JsonV> {
    Seq::new(v.len(), |i: int| v[i]@)
}

/// Views of an object's entries.
pub open spec fn entries_view(v: Seq<(String, Json)>) -> Seq<(Seq<char>, JsonV)> {
    Seq::new(v.len(), |i: int| (v[i].0@, v[i].1@))
}

pub proof fn lemma_array_view(v: Vec<Json>)
    ensures
        Json::Array(v)@ == JsonV::Array(array_view(v@)),
{
    let d = Json::Array(v).deep();
    assert(d is Array);
    let b = d->Array_0;
    assert(b.len() == v@.len());
    assert forall|i: int| 0 <= i < b.len() implies b[i] == array_view(v@)[i] by {}
    assert(b =~= array_view(v@));
}

pub proof fn lemma_object_view(v: Vec<(String, Json)>)
    ensures
        Json::Object(v)@ == JsonV::Object(entries_view(v@)),
{
    let d = Json::Object(v).deep();
    assert(d is Object);
    let b = d->Object_0;
    assert(b.len() == v@.len());
    assert forall|i: int| 0 <= i < b.len() implies b[i] == entries_view(v@)[i] by {}
    assert(b =~= entries_view(v@));
}

/// Index of the first entry with `key`, or -1.
pub open spec fn key_index(es: Seq<(Seq<char>, JsonV)>, key: Seq<char>) -> int
    decreases es.len(),
{
    if es.len() == 0 {
        -1
    } else if key_index(es.drop_last(), key) >= 0 {
        key_index(es.drop_last(), key)
    } else if es.last().0 == key {
        es.len() - 1
    } else {
        -1
    }
}

pub proof fn lemma_key_index_range(es: Seq<(Seq<char>, JsonV)>, key: Seq<char>)
    ensures
        -1 <= key_index(es, key) < es.len(),
        key_index(es, key) >= 0 ==> es[key_index(es, key)].0 == key,
        key_index(es, key) == -1 ==> forall|i: int| 0 <= i < es.len() ==> (#[trigger] es[i]).0 != key,
        key_index(es, key) >= 0 ==> forall|i: int|
            0 <= i < key_index(es, key) ==> (#[trigger] es[i]).0 != key,
    decreases es.len(),
{
    if es.len() > 0 {
        let d = es.drop_last();
        lemma_key_index_range(d, key);
        assert forall|i: int| 0 <= i < d.len() implies #[trigger] d[i] == es[i] by {}
        let k = key_index(es, key);
        if k == -1 {
            assert forall|i: int| 0 <= i < es.len() implies (#[trigger] es[i]).0 != key by {
                if i < d.len() {
                    assert(d[i] == es[i]);
                }
            }
        }
        if k >= 0 {
            assert forall|i: int| 0 <= i < k implies (#[trigger] es[i]).0 != key by {
                assert(d[i] == es[i]);
            }
        }
    }
}

/// The value under `key` of an object; `None` for a missing key or a non-object.
pub open spec fn get_spec(v: JsonV, key: Seq<char>) -> Option<JsonV> {
    match v {
        JsonV::Object(es) => if key_index(es, key) >= 0 {
            Some(es[key_index(es, key)].1)
        } else {
            None
        },
        _ => None,
    }
}

/// Entries with `key` set to `val`: its first occurrence replaced, or appended.
pub open spec fn set_spec(es: Seq<(Seq<char>, JsonV)>, key: Seq<char>, val: JsonV) -> Seq<(Seq<char>, JsonV)> {
    if key_index(es, key) >= 0 {
        es.update(key_index(es, key), (key, val))
    } else {
        es.push((key, val))
    }
}

/// Reading back a key just set gives the value set; other keys read as before.
pub proof fn lemma_get_set(es: Seq<(Seq<char>, JsonV)>, k: Seq<char>, val: JsonV, other: Seq<char>)
    ensures
        get_spec(JsonV::Object(set_spec(es, k, val)), k) == Some(val),
        other != k ==> get_spec(JsonV::Object(set_spec(es, k, val)), other) == get_spec(
            JsonV::Object(es),
            other,
        ),
{
    let n = set_spec(es, k, val);
    lemma_key_index_range(es, k);
    lemma_key_index_range(es, other);
    lemma_key_index_range(n, k);
    lemma_key_index_range(n, other);
    let idx = key_index(es, k);
    if idx >= 0 {
        assert forall|i: int| 0 <= i < es.len() implies (#[trigger] n[i]).0 == es[i].0 by {}
        lemma_key_index_first(n, idx, k);
        let j = key_index(es, other);
        if other != k {
            if j >= 0 {
                lemma_key_index_first(n, j, other);
            } else {
                assert forall|i: int| 0 <= i < n.len() implies (#[trigger] n[i]).0 != other by {
                    assert(n[i].0 == es[i].0);
                }
                lemma_key_index_none_pub(n, other);
            }
        }
    } else {
        lemma_key_index_first(n, es.len() as int, k);
        if other != k {
            let j = key_index(es, other);
            if j >= 0 {
                lemma_key_index_first(n, j, other);
            } else {
                assert forall|i: int| 0 <= i < n.len() implies (#[trigger] n[i]).0 != other by {
                    if i < es.len() {
                        assert(n[i] == es[i]);
                    }
                }
                lemma_key_index_none_pub(n, other);
            }
        }
    }
}

pub proof fn lemma_key_index_none_pub(es: Seq<(Seq<char>, JsonV)>, key: Seq<char>)
    requires
        forall|m: int| 0 <= m < es.len() ==> (#[trigger] es[m]).0 != key,
    ensures
        key_index(es, key) == -1,
{
    lemma_key_index_range(es, key);
}

/// Position of the first entry with `key`.
pub fn find_key(entries: &Vec<(String, Json)>, key: &str) -> (r: Option<usize>)
    ensures
        match r {
            Some(k) => k == key_index(entries_view(entries@), key@) && k < entries@.len(),
            None => key_index(entries_view(entries@), key@) == -1,
        },
{
    let ghost es = entries_view(entries@);
    let mut k: usize = 0;
    while k < entries.len()
        invariant
            es == entries_view(entries@),
            k <= entries@.len(),
            forall|m: int| 0 <= m < k ==> (#[trigger] es[m]).0 != key@,
        decreases entries@.len() - k,
    {
        if str_eq(entries[k].0.as_str(), key) {
            proof {
                lemma_key_index_first(es, k as int, key@);
            }
            return Some(k);
        }
        k = k + 1;
    }
    proof {
        lemma_key_index_none(es, key@);
    }
    None
}

pub proof fn lemma_key_index_first(es: Seq<(Seq<char>, JsonV)>, k: int, key: Seq<char>)
    requires
        0 <= k < es.len(),
        es[k].0 == key,
        forall|m: int| 0 <= m < k ==> (#[trigger] es[m]).0 != key,
    ensures
        key_index(es, key) == k,
{
    lemma_key_index_range(es, key);
}

proof fn lemma_key_index_none(es: Seq<(Seq<char>, JsonV)>, key: Seq<char>)
    requires
        forall|m: int| 0 <= m < es.len() ==> (#[trigger] es[m]).0 != key,
    ensures
        key_index(es, key) == -1,
{
    lemma_key_index_range(es, key);
}

impl Json {
    /// The value under `key`, for an object holding it.
    pub fn get(&self, key: &str) -> (r: Option<&Json>)
        ensures
            match r {
                Some(x) => get_spec(self@, key@) == Some(x@),
                None => get_spec(self@, key@) is None,
            },
    {
        match self {
            Json::Object(entries) => {
                proof {
                    lemma_object_view(*entries);
                }
                match find_key(entries, key) {
                    Some(k) => Some(&entries[k].1),
                    None => None,
                }
            },
            _ => None,
        }
    }

    pub fn as_str(&self) -> (r: Option<&String>)
        ensures
            match r {
                Some(s) => self@ == JsonV::Str(s@),
                None => !(self@ is Str),
            },
    {
        match self {
            Json::Str(s) => Some(s),
            _ => None,
        }
    }

    pub fn as_bool(&self) -> (r: Option<bool>)
        ensures
            match r {
                Some(b) => self@ == JsonV::Bool(b),
                None => !(self@ is Bool),
            },
    {
        match self {
            Json::Bool(b) => Some(*b),
            _ => None,
        }
    }

    pub fn is_null(&self) -> (r: bool)
        ensures
            r == (self@ is Null),
    {
        match self {
            Json::Null => true,
            _ => false,
        }
    }

    pub fn is_object(&self) -> (r: bool)
        ensures
            r == (self@ is Object),
    {
        match self {
            Json::Object(_) => true,
            _ => false,
        }
    }

    /// Parse one JSON document; `None` when `bytes` are not JSON.
    pub fn parse(bytes: &[u8]) -> (r: Option<Json>)
        ensures
            r == spec_parse_json(bytes@),
    {
        parse_json_bytes(bytes)
    }

    /// Parse one JSON document from text; `None` when it is not JSON.
    pub fn parse_str(text: &str) -> (r: Option<Json>)
        ensures
            r == spec_parse_json_str(text@),
    {
        parse_json_str(text)
    }

    /// The compact JSON text of this value.
    pub fn to_bytes(&self) -> (r: Vec<u8>)
        ensures
            r@ == spec_json_bytes(self@),
    {
        json_to_vec(self)
    }
}

/// Set `key` to `val` in an object's entries.
pub fn set_entry(entries: &mut Vec<(String, Json)>, key: &str, val: Json)
    ensures
        entries_view(final(entries)@) == set_spec(entries_view(old(entries)@), key@, val@),
{
    let ghost es = entries_view(entries@);
    match find_key(entries, key) {
        Some(k) => {
            entries.set(k, (key.to_owned(), val));
            assert(entries_view(entries@) =~= es.update(k as int, (key@, val@)));
        },
        None => {
            entries.push((key.to_owned(), val));
            assert(entries_view(entries@) =~= es.push((key@, val@)));
        },
    }
}

/// Take the value under `key` out of an object's entries, leaving `null`
/// in its place; returns its position.
pub fn take_entry(entries: &mut Vec<(String, Json)>, key: &str) -> (r: Option<(usize, Json)>)
    ensures
        match r {
            Some((k, v)) => {
                &&& k == key_index(entries_view(old(entries)@), key@)
                &&& k < old(entries)@.len()
                &&& final(entries)@.len() == old(entries)@.len()
                &&& v@ == entries_view(old(entries)@)[k as int].1
                &&& entries_view(final(entries)@) == entries_view(old(entries)@).update(
                    k as int,
                    (key@, JsonV::Null),
                )
            },
            None => {
                &&& key_index(entries_view(old(entries)@), key@) == -1
                &&& final(entries)@ == old(entries)@
            },
        },
{
    let ghost es = entries_view(entries@);
    match find_key(entries, key) {
        Some(k) => {
            proof {
                lemma_key_index_range(es, key@);
            }
            let (name, v) = entries.remove(k);
            entries.insert(k, (name, Json::Null));
            assert(entries_view(entries@) =~= es.update(k as int, (key@, JsonV::Null)));
            Some((k, v))
        },
        None => None,
    }
}

/// Put `val` back at position `k` of an object's entries.
pub fn put_entry(entries: &mut Vec<(String, Json)>, k: usize, val: Json)
    requires
        k < old(entries)@.len(),
    ensures
        entries_view(final(entries)@) == entries_view(old(entries)@).update(
            k as int,
            (entries_view(old(entries)@)[k as int].0, val@),
        ),
{
    let ghost es = entries_view(entries@);
    let (name, _old) = entries.remove(k);
    entries.insert(k, (name, val));
    assert(entries_view(entries@) =~= es.update(k as int, (es[k as int].0, val@)));
}

// ---------------------------------------------------------------------------
// serde_json
// ---------------------------------------------------------------------------

/// What `serde_json::from_slice::<serde_json::Value>` parses `bytes` into,
/// read into [`Json`]; `None` where it reports an error.
pub uninterp spec fn spec_parse_json(bytes: Seq<u8>) -> Option<Json>;

/// What `serde_json::from_str::<serde_json::Value>` parses `text` into,
/// read into [`Json`]; `None` where it reports an error.
pub uninterp spec fn spec_parse_json_str(text: Seq<char>) -> Option<Json>;

/// The bytes `serde_json::to_vec` prints for a value.
pub uninterp spec fn spec_json_bytes(v: JsonV) -> Seq<u8>;

/// Calls `serde_json::from_slice::<serde_json::Value>`; the contract only
/// names its result: which documents parse, and into what, is serde_json's.
#[verifier::external_body]
fn parse_json_bytes(bytes: &[u8]) -> (r: Option<Json>)
    ensures
        r == spec_parse_json(bytes@),
{
    serde_json::from_slice::<Value>(bytes).ok().map(json_from_serde)
}

/// Calls `serde_json::from_str::<serde_json::Value>`; the contract only
/// names its result.
#[verifier::external_body]
fn parse_json_str(text: &str) -> (r: Option<Json>)
    ensures
        r == spec_parse_json_str(text@),
{
    serde_json::from_str::<Value>(text).ok().map(json_from_serde)
}

/// Calls `serde_json::to_vec` on the value; printing a `serde_json::Value`
/// cannot fail, and the contract names the printed bytes.
#[verifier::external_body]
fn json_to_vec(v: &Json) -> (r: Vec<u8>)
    ensures
        r@ == spec_json_bytes(v@),
{
    serde_json::to_vec(&json_to_serde(v)).unwrap_or_default()
}

/// Moves a parsed `serde_json::Value` into [`Json`], variant for variant;
/// the conversion half of `parse_json_bytes` and `parse_json_str`.
#[verifier::external_body]
fn json_from_serde(v: Value) -> Json {
    match v {
        Value::Null => Json::Null,
        Value::Bool(b) => Json::Bool(b),
        Value::Number(n) => Json::Number(number_from_serde(n)),
        Value::String(s) => Json::Str(s),
        Value::Array(a) => Json::Array(a.into_iter().map(json_from_serde).collect()),
        Value::Object(m) => Json::Object(m.into_iter().map(|(k, x)| (k, json_from_serde(x))).collect()),
    }
}

/// Copies a [`Json`] into a `serde_json::Value`, variant for variant; the
/// conversion half of `json_to_vec`, which alone calls it.
#[verifier::external_body]
fn json_to_serde(v: &Json) -> Value {
    match v {
        Json::Null => Value::Null,
        Json::Bool(b) => Value::Bool(*b),
        Json::Number(n) => number_to_serde(n),
        Json::Str(s) => Value::String(s.clone()),
        Json::Array(a) => Value::Array(a.iter().map(json_to_serde).collect()),
        Json::Object(es) => Value::Object(es.iter().map(|(k, x)| (k.clone(), json_to_serde(x))).collect()),
    }
}

/// Reads a `serde_json::Number` as a [`JsonNumber`]: a `u64` where it is
/// one, else an `i64` where it is one, else its printed text.
#[verifier::external_body]
fn number_from_serde(n: Number) -> JsonNumber {
    match (n.as_u64(), n.as_i64()) {
        (Some(u), _) => JsonNumber::PosInt(u),
        (None, Some(i)) => JsonNumber::NegInt(i),
        (None, None) => JsonNumber::Float(n.to_string()),
    }
}

/// Writes a [`JsonNumber`] back as a `serde_json::Value` number; text that
/// does not read as a number becomes `null`.
#[verifier::external_body]
fn number_to_serde(n: &JsonNumber) -> Value {
    match n {
        JsonNumber::PosInt(u) => Value::Number((*u).into()),
        JsonNumber::NegInt(i) => Value::Number((*i).into()),
        JsonNumber::Float(t) => t.parse::<Number>().map_or(Value::Null, Value::Number),
    }
}

} // verus!
