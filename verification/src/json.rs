//! A JSON document model and the lookups the output validators need.
//!
//! Text is parsed by `serde_json` and copied into this model; the library
//! validates and decodes the parsed values.
use vstd::prelude::*;

use crate::text::{decimal, push_decimal, str_eq};

verus! {

/// A JSON number, kept as written.
#[derive(Debug, Clone, PartialEq, Eq)]
pub struct JsonNumber {
    /// The value when it is a non-negative integer that fits in `u64`.
    pub as_u64: Option<u64>,
    /// The number's canonical text.
    pub text: String,
}

/// A parsed JSON value. Object members keep their document order.
#[derive(Debug)]
pub enum JsonValue {
    Null,
    Bool(bool),
    Number(JsonNumber),
    String(String),
    Array(Vec<JsonValue>),
    Object(Vec<(String, JsonValue)>),
}

/// The value of the first member named `key`.
pub open spec fn member(fields: Seq<(String, JsonValue)>, key: Seq<char>) -> Option<JsonValue>
    decreases fields.len(),
{
    if fields.len() == 0 {
        None
    } else {
        match member(fields.drop_last(), key) {
            Some(v) => Some(v),
            None => if fields.last().0@ == key {
                Some(fields.last().1)
            } else {
                None
            },
        }
    }
}

/// The member `key` of an object; `None` for a missing member or a
/// non-object.
pub open spec fn get_member(v: JsonValue, key: Seq<char>) -> Option<JsonValue> {
    match v {
        JsonValue::Object(fields) => member(fields@, key),
        _ => None,
    }
}

proof fn lemma_member_first(fields: Seq<(String, JsonValue)>, key: Seq<char>, k: int)
    requires
        0 <= k < fields.len(),
        fields[k].0@ == key,
        forall|j: int| 0 <= j < k ==> (#[trigger] fields[j]).0@ != key,
    ensures
        member(fields, key) == Some(fields[k].1),
    decreases fields.len(),
{
    if k < fields.len() - 1 {
        lemma_member_first(fields.drop_last(), key, k);
        assert(fields.drop_last()[k] == fields[k]);
    } else {
        lemma_member_none(fields.drop_last(), key);
    }
}

proof fn lemma_member_none(fields: Seq<(String, JsonValue)>, key: Seq<char>)
    requires
        forall|j: int| 0 <= j < fields.len() ==> (#[trigger] fields[j]).0@ != key,
    ensures
        member(fields, key) is None,
    decreases fields.len(),
{
    if fields.len() > 0 {
        lemma_member_none(fields.drop_last(), key);
        assert(fields[fields.len() - 1].0@ != key);
    }
}

impl JsonValue {
    /// The first member named `key`, if this is an object that has one.
    pub fn get(&self, key: &str) -> (r: Option<&JsonValue>)
        ensures
            match r {
                Some(v) => get_member(*self, key@) == Some(*v),
                None => get_member(*self, key@) is None,
            },
    {
        match self {
            JsonValue::Object(fields) => {
                for k in 0..fields.len()
                    invariant
                        get_member(*self, key@) == member(fields@, key@),
                        forall|j: int| 0 <= j < k ==> (#[trigger] fields@[j]).0@ != key@,
                {
                    if str_eq(fields[k].0.as_str(), key) {
                        proof {
                            lemma_member_first(fields@, key@, k as int);
                        }
                        return Some(&fields[k].1);
                    }
                }
                proof {
                    lemma_member_none(fields@, key@);
                }
                None
            },
            _ => None,
        }
    }

    /// The text of a JSON string.
    pub fn as_str(&self) -> (r: Option<&str>)
        ensures
            match r {
                Some(s) => *self matches JsonValue::String(t) && t@ == s@,
                None => !(*self is String),
            },
    {
        match self {
            JsonValue::String(s) => Some(s.as_str()),
            _ => None,
        }
    }

    /// The elements of a JSON array.
    pub fn as_array(&self) -> (r: Option<&Vec<JsonValue>>)
        ensures
            match r {
                Some(a) => *self == JsonValue::Array(*a),
                None => !(*self is Array),
            },
    {
        match self {
            JsonValue::Array(a) => Some(a),
            _ => None,
        }
    }
}

// =====================================================================
// Building documents
// =====================================================================
/// A JSON document as plain values: strings as character sequences,
/// numbers as their `u64` value (when they have one) and their text.
pub enum JsonDoc {
    Null,
    Bool(bool),
    Number(Option<u64>, Seq<char>),
    Text(Seq<char>),
    Array(Seq<JsonDoc>),
    Object(Seq<(Seq<char>, JsonDoc)>),
}

/// The document a value holds.
pub open spec fn json_view(v: JsonValue) -> JsonDoc
    decreases v,
{
    match v {
        JsonValue::Null => JsonDoc::Null,
        JsonValue::Bool(b) => JsonDoc::Bool(b),
        JsonValue::Number(n) => JsonDoc::Number(n.as_u64, n.text@),
        JsonValue::String(s) => JsonDoc::Text(s@),
        JsonValue::Array(a) => JsonDoc::Array(item_docs(a@)),
        JsonValue::Object(f) => JsonDoc::Object(member_docs(f@)),
    }
}

/// The documents of a list of values.
pub open spec fn item_docs(s: Seq<JsonValue>) -> Seq<JsonDoc>
    decreases s,
{
    if s.len() == 0 {
        Seq::empty()
    } else {
        item_docs(s.drop_last()).push(json_view(s.last()))
    }
}

/// The documents of a list of object members.
pub open spec fn member_docs(s: Seq<(String, JsonValue)>) -> Seq<(Seq<char>, JsonDoc)>
    decreases s,
{
    if s.len() == 0 {
        Seq::empty()
    } else {
        member_docs(s.drop_last()).push((s.last().0@, json_view(s.last().1)))
    }
}

impl View for JsonValue {
    type V = JsonDoc;

    open spec fn view(&self) -> JsonDoc {
        json_view(*self)
    }
}

/// The texts of a JSON array of strings, if every element is a string.
pub open spec fn string_items(items: Seq<JsonValue>) -> Option<Seq<Seq<char>>>
    decreases items.len(),
{
    if items.len() == 0 {
        Some(Seq::empty())
    } else {
        match string_items(items.drop_last()) {
            None => None,
            Some(ts) => match items.last() {
                JsonValue::String(t) => Some(ts.push(t@)),
                _ => None,
            },
        }
    }
}

/// The member `key` of an optional object.
pub open spec fn child(v: Option<JsonValue>, key: Seq<char>) -> Option<JsonValue> {
    match v {
        Some(x) => get_member(x, key),
        None => None,
    }
}

/// The texts of an optional array whose elements are all strings.
pub open spec fn texts_of(v: Option<JsonValue>) -> Option<Seq<Seq<char>>> {
    match v {
        Some(JsonValue::Array(a)) => string_items(a@),
        _ => None,
    }
}

/// The optional value is the string `t`.
pub open spec fn is_text(v: Option<JsonValue>, t: Seq<char>) -> bool {
    v matches Some(JsonValue::String(s)) && s@ == t
}

/// The document of an array of strings.
pub open spec fn text_list(ts: Seq<Seq<char>>) -> JsonDoc {
    JsonDoc::Array(ts.map_values(|t: Seq<char>| JsonDoc::Text(t)))
}

/// The document of a count.
pub open spec fn count_doc(n: u64) -> JsonDoc {
    JsonDoc::Number(Some(n), decimal(n as nat))
}

/// A JSON string.
pub fn text(s: &str) -> (r: JsonValue)
    ensures
        r matches JsonValue::String(t) && t@ == s@,
        r@ == JsonDoc::Text(s@),
{
    JsonValue::String(String::from_str(s))
}

/// Appends the member `key: value` to an object's member list.
pub fn push_member(fields: &mut Vec<(String, JsonValue)>, key: &str, value: JsonValue)
    ensures
        forall|k: Seq<char>| #[trigger] member(final(fields)@, k) == match member(old(fields)@, k) {
            Some(x) => Some(x),
            None => if k == key@ {
                Some(value)
            } else {
                None
            },
        },
        member_docs(final(fields)@) == member_docs(old(fields)@).push((key@, value@)),
{
    let ghost before = fields@;
    fields.push((String::from_str(key), value));
    assert(fields@.drop_last() =~= before);
}

/// Appends the string `t` to an array of strings.
pub fn push_text(items: &mut Vec<JsonValue>, t: &str)
    requires
        string_items(old(items)@) is Some,
    ensures
        string_items(final(items)@) == Some(string_items(old(items)@)->Some_0.push(t@)),
        item_docs(final(items)@) == item_docs(old(items)@).push(JsonDoc::Text(t@)),
{
    let ghost before = items@;
    items.push(text(t));
    assert(items@.drop_last() =~= before);
}

/// A JSON array of the given strings.
pub fn texts(names: &[&str]) -> (r: JsonValue)
    ensures
        texts_of(Some(r)) == Some(names@.map_values(|n: &str| n@)),
        r@ == text_list(names@.map_values(|n: &str| n@)),
{
    let mut items: Vec<JsonValue> = Vec::new();
    for i in 0..names.len()
        invariant
            string_items(items@) == Some(names@.take(i as int).map_values(|n: &str| n@)),
            item_docs(items@) == names@.take(i as int).map_values(|n: &str| JsonDoc::Text(n@)),
    {
        push_text(&mut items, names[i]);
        assert(names@.take(i + 1).map_values(|n: &str| n@) =~= names@.take(i as int).map_values(
            |n: &str| n@,
        ).push(names@[i as int]@));
        assert(names@.take(i + 1).map_values(|n: &str| JsonDoc::Text(n@)) =~= names@.take(
            i as int,
        ).map_values(|n: &str| JsonDoc::Text(n@)).push(JsonDoc::Text(names@[i as int]@)));
    }
    assert(names@.take(names@.len() as int) =~= names@);
    assert(names@.map_values(|n: &str| JsonDoc::Text(n@)) =~= names@.map_values(|n: &str| n@).map_values(
        |t: Seq<char>| JsonDoc::Text(t),
    ));
    JsonValue::Array(items)
}

/// The optional value is the number `n`.
pub open spec fn is_count(v: Option<JsonValue>, n: u64) -> bool {
    v matches Some(JsonValue::Number(x)) && x.as_u64 == Some(n) && x.text@ == decimal(n as nat)
}

/// A JSON number for a count.
pub fn count(n: u64) -> (r: JsonValue)
    ensures
        is_count(Some(r), n),
        r@ == count_doc(n),
{
    let mut t = String::new();
    push_decimal(&mut t, n);
    JsonValue::Number(JsonNumber { as_u64: Some(n), text: t })
}

// =====================================================================
// Parsing text
// =====================================================================
/// serde_json's document model, carried through unread.
#[verifier::external_type_specification]
#[verifier::external_body]
pub struct ExSerdeJsonValue(serde_json::Value);

/// The value `serde_json::from_str` parses from a text, copied into this
/// model; `None` when the text is not one JSON document.
pub uninterp spec fn parsed_json(text: Seq<char>) -> Option<JsonValue>;

/// Copies a value serde_json parsed into this model, one value for one:
/// numbers keep serde_json's text and their `u64` value when they have one,
/// object members keep serde_json's map order.
#[verifier::external_body]
fn json_value_from(value: &serde_json::Value) -> JsonValue {
    match value {
        serde_json::Value::Null => JsonValue::Null,
        serde_json::Value::Bool(b) => JsonValue::Bool(*b),
        serde_json::Value::Number(n) => JsonValue::Number(JsonNumber { as_u64: n.as_u64(), text: n.to_string() }),
        serde_json::Value::String(s) => JsonValue::String(s.clone()),
        serde_json::Value::Array(items) => JsonValue::Array(items.iter().map(json_value_from).collect()),
        serde_json::Value::Object(map) => JsonValue::Object(
            map.iter().map(|(k, v)| (k.clone(), json_value_from(v))).collect(),
        ),
    }
}

/// Wraps `serde_json::from_str::<serde_json::Value>`: the parsed document
/// (a function of the text alone), or serde_json's error message, whose
/// wording is not stated.
#[verifier::external_body]
pub(crate) fn parse_json_text(text: &str) -> (r: Result<JsonValue, String>)
    ensures
        match r {
            Ok(v) => parsed_json(text@) == Some(v),
            Err(_) => parsed_json(text@) is None,
        },
{
    match serde_json::from_str::<serde_json::Value>(text) {
        Ok(value) => Ok(json_value_from(&value)),
        Err(error) => Err(error.to_string()),
    }
}

/// The text `serde_json::to_string_pretty` writes for a document: two-space
/// indentation, one member or element per line.
pub uninterp spec fn pretty_json(doc: JsonDoc) -> Seq<char>;

/// Copies a value of this model into serde_json's, one value for one;
/// numbers are read back from their text.
#[verifier::external_body]
fn serde_value_from(value: &JsonValue) -> serde_json::Value {
    match value {
        JsonValue::Null => serde_json::Value::Null,
        JsonValue::Bool(b) => serde_json::Value::Bool(*b),
        JsonValue::Number(n) => serde_json::from_str(&n.text).unwrap_or(serde_json::Value::Null),
        JsonValue::String(s) => serde_json::Value::String(s.clone()),
        JsonValue::Array(items) => serde_json::Value::Array(items.iter().map(serde_value_from).collect()),
        JsonValue::Object(fields) => serde_json::Value::Object(
            fields.iter().map(|(k, v)| (k.clone(), serde_value_from(v))).collect(),
        ),
    }
}

/// Wraps `serde_json::to_string_pretty`, which cannot fail on a
/// `serde_json::Value`: the indented text, a function of the document
/// alone.
#[verifier::external_body]
pub(crate) fn to_pretty_json(value: &JsonValue) -> (r: String)
    ensures
        r@ == pretty_json(value@),
{
    serde_json::to_string_pretty(&serde_value_from(value)).unwrap_or_default()
}

} // verus!
