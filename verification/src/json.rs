//! JSON documents as the adapters read them.
use vstd::prelude::*;

use crate::model::Severity;
use crate::text::{lower_seq, str_eq, to_ascii_lowercase};

verus! {

/// A JSON value; a number is kept as the unsigned integer it denotes, when it
/// denotes one, which is all that the adapters read of numbers.
#[derive(Debug)]
pub enum JsonValue {
    Null,
    Bool(bool),
    Number(Option<u64>),
    String(String),
    Array(Vec<JsonValue>),
    Object(Vec<(String, JsonValue)>),
}

/// The value of the first entry named `key`.
pub open spec fn entry_value(entries: Seq<(String, JsonValue)>, key: Seq<char>) -> Option<JsonValue>
    decreases entries.len(),
{
    if entries.len() == 0 {
        None
    } else if entries[0].0@ == key {
        Some(entries[0].1)
    } else {
        entry_value(entries.drop_first(), key)
    }
}

/// The member `key` of an object (`Value::get`).
pub open spec fn field(v: JsonValue, key: Seq<char>) -> Option<JsonValue> {
    match v {
        JsonValue::Object(entries) => entry_value(entries@, key),
        _ => None,
    }
}

/// Whether an object has the member `key` (`Map::contains_key`).
pub open spec fn has_field(v: JsonValue, key: Seq<char>) -> bool {
    field(v, key) is Some
}

/// The text of a string value (`Value::as_str`).
pub open spec fn str_of(v: JsonValue) -> Option<Seq<char>> {
    match v {
        JsonValue::String(s) => Some(s@),
        _ => None,
    }
}

/// The unsigned integer of a number value (`Value::as_u64`).
pub open spec fn u64_of(v: JsonValue) -> Option<u64> {
    match v {
        JsonValue::Number(n) => n,
        _ => None,
    }
}

/// The elements of an array value (`Value::as_array`).
pub open spec fn array_of(v: JsonValue) -> Option<Seq<JsonValue>> {
    match v {
        JsonValue::Array(items) => Some(items@),
        _ => None,
    }
}

/// The text of the member `key`, when it is a string.
pub open spec fn field_str(v: JsonValue, key: Seq<char>) -> Option<Seq<char>> {
    match field(v, key) {
        Some(x) => str_of(x),
        None => None,
    }
}

/// The unsigned integer of the member `key`, when it is one.
pub open spec fn field_u64(v: JsonValue, key: Seq<char>) -> Option<u64> {
    match field(v, key) {
        Some(x) => u64_of(x),
        None => None,
    }
}

/// The member `key`, when it holds an unsigned integer that fits in 32 bits.
pub open spec fn field_u32(v: JsonValue, key: Seq<char>) -> Option<u32> {
    match field_u64(v, key) {
        Some(n) => if n <= u32::MAX {
            Some(n as u32)
        } else {
            None
        },
        None => None,
    }
}

impl JsonValue {
    /// The member `key` of an object.
    pub fn get(&self, key: &str) -> (r: Option<&JsonValue>)
        ensures
            match r {
                Some(x) => field(*self, key@) == Some(*x),
                None => field(*self, key@) is None,
            },
    {
        match self {
            JsonValue::Object(entries) => {
                let mut i: usize = 0;
                proof {
                    assert(entries@.subrange(0, entries@.len() as int) =~= entries@);
                }
                while i < entries.len()
                    invariant
                        0 <= i <= entries@.len(),
                        field(*self, key@) == entry_value(entries@, key@),
                        entry_value(entries@, key@) == entry_value(entries@.subrange(i as int, entries@.len() as int), key@),
                    decreases entries.len() - i,
                {
                    proof {
                        let rest = entries@.subrange(i as int, entries@.len() as int);
                        assert(rest.drop_first() =~= entries@.subrange(i + 1, entries@.len() as int));
                        assert(rest[0] == entries@[i as int]);
                    }
                    if str_eq(entries[i].0.as_str(), key) {
                        return Some(&entries[i].1);
                    }
                    i = i + 1;
                }
                proof {
                    assert(entries@.subrange(i as int, entries@.len() as int).len() == 0);
                }
                None
            },
            _ => None,
        }
    }

    /// The text of a string value.
    pub fn as_str(&self) -> (r: Option<&str>)
        ensures
            match r {
                Some(s) => str_of(*self) == Some(s@),
                None => str_of(*self) is None,
            },
    {
        match self {
            JsonValue::String(s) => Some(s.as_str()),
            _ => None,
        }
    }

    /// The unsigned integer of a number value.
    pub fn as_u64(&self) -> (r: Option<u64>)
        ensures
            r == u64_of(*self),
    {
        match self {
            JsonValue::Number(n) => *n,
            _ => None,
        }
    }

    /// The elements of an array value.
    pub fn as_array(&self) -> (r: Option<&Vec<JsonValue>>)
        ensures
            match r {
                Some(items) => array_of(*self) == Some(items@),
                None => array_of(*self) is None,
            },
    {
        match self {
            JsonValue::Array(items) => Some(items),
            _ => None,
        }
    }

    /// Whether the value is an object.
    pub fn is_object(&self) -> (r: bool)
        ensures
            r == (*self is Object),
    {
        match self {
            JsonValue::Object(_) => true,
            _ => false,
        }
    }
}

/// The text of the member `key`, when it is a string.
pub fn get_str<'a>(v: &'a JsonValue, key: &str) -> (r: Option<&'a str>)
    ensures
        match r {
            Some(s) => field_str(*v, key@) == Some(s@),
            None => field_str(*v, key@) is None,
        },
{
    match v.get(key) {
        Some(x) => x.as_str(),
        None => None,
    }
}

/// The unsigned integer of the member `key`.
pub fn get_u64(v: &JsonValue, key: &str) -> (r: Option<u64>)
    ensures
        r == field_u64(*v, key@),
{
    match v.get(key) {
        Some(x) => x.as_u64(),
        None => None,
    }
}

/// The member `key` when it is an unsigned integer of 32 bits.
pub fn get_u32(v: &JsonValue, key: &str) -> (r: Option<u32>)
    ensures
        r == field_u32(*v, key@),
{
    match get_u64(v, key) {
        Some(n) => if n <= 0xffff_ffff {
            Some(n as u32)
        } else {
            None
        },
        None => None,
    }
}

/// The severity that a tool's value denotes: numbers 0, 1 and above, or the words
/// of each level in any case.
pub open spec fn severity_of(v: JsonValue) -> Severity {
    match u64_of(v) {
        Some(n) => if n == 0 {
            Severity::Info
        } else if n == 1 {
            Severity::Warning
        } else {
            Severity::Error
        },
        None => {
            let t = lower_seq(str_of(v).unwrap_or(Seq::empty()));
            if t == "fatal"@ || t == "error"@ || t == "2"@ {
                Severity::Error
            } else if t == "warn"@ || t == "warning"@ || t == "1"@ {
                Severity::Warning
            } else {
                Severity::Info
            }
        },
    }
}

/// How tools' severity values read: the words `warn` and `warning` in any letter
/// case are a warning, `error` and `fatal` an error, and other words information;
/// the numbers 0, 1 and 2 or more are information, a warning and an error.
pub proof fn lemma_severity_words(s: String, n: u64)
    ensures
        lower_seq(s@) == "warn"@ || lower_seq(s@) == "warning"@ ==> severity_of(JsonValue::String(s)) == Severity::Warning,
        lower_seq(s@) == "error"@ || lower_seq(s@) == "fatal"@ ==> severity_of(JsonValue::String(s)) == Severity::Error,
        lower_seq(s@) == "info"@ || lower_seq(s@) == "information"@ || lower_seq(s@) == "hint"@ ==> severity_of(
            JsonValue::String(s),
        ) == Severity::Info,
        n == 0 ==> severity_of(JsonValue::Number(Some(n))) == Severity::Info,
        n == 1 ==> severity_of(JsonValue::Number(Some(n))) == Severity::Warning,
        n >= 2 ==> severity_of(JsonValue::Number(Some(n))) == Severity::Error,
{
    reveal_strlit("warn");
    reveal_strlit("warning");
    reveal_strlit("error");
    reveal_strlit("fatal");
    reveal_strlit("2");
    reveal_strlit("1");
    reveal_strlit("info");
    reveal_strlit("information");
    reveal_strlit("hint");
    let t = lower_seq(s@);
    if t == "warning"@ {
        assert(t.len() == 7);
        assert(t != "fatal"@ && t != "error"@ && t != "2"@);
    }
    if t == "warn"@ {
        assert(t.len() == 4);
        assert("fatal"@.len() == 5 && "error"@.len() == 5 && "2"@.len() == 1);
    }
    if t == "info"@ || t == "information"@ || t == "hint"@ {
        assert(t.len() == 4 || t.len() == 11);
        assert(t[0] == 'i' || t[0] == 'h');
        assert("fatal"@.len() == 5 && "error"@.len() == 5 && "2"@.len() == 1 && "1"@.len() == 1 && "warning"@.len() == 7);
        assert("warn"@[0] == 'w');
        assert(t != "warn"@);
    }
}

impl Severity {
    /// The severity that a tool's value denotes.
    pub fn from_value(value: &JsonValue) -> (r: Self)
        ensures
            r == severity_of(*value),
    {
        if let Some(number) = value.as_u64() {
            return if number == 0 {
                Severity::Info
            } else if number == 1 {
                Severity::Warning
            } else {
                Severity::Error
            };
        }
        let text = match value.as_str() {
            Some(s) => to_ascii_lowercase(s),
            None => String::new(),
        };
        proof {
            if str_of(*value) is None {
                assert(lower_seq(Seq::<char>::empty()) =~= Seq::<char>::empty());
            }
        }
        let t = text.as_str();
        if str_eq(t, "fatal") || str_eq(t, "error") || str_eq(t, "2") {
            Severity::Error
        } else if str_eq(t, "warn") || str_eq(t, "warning") || str_eq(t, "1") {
            Severity::Warning
        } else {
            Severity::Info
        }
    }
}


/// The JSON value type of the `serde_json` crate.
#[verifier::external_type_specification]
#[verifier::external_body]
pub struct ExSerdeValue(serde_json::Value);

/// What `serde_json::from_str::<Value>` makes of a text, as the library's value, or
/// the display text of its error.
pub uninterp spec fn json_document(source: Seq<char>) -> Result<JsonValue, Seq<char>>;

/// What `serde_json::from_str::<Vec<Value>>` makes of a text, as the library's
/// values, or the display text of its error.
pub uninterp spec fn json_list(source: Seq<char>) -> Result<Seq<JsonValue>, Seq<char>>;

/// The library's value of a `serde_json` value, variant for variant; a number is
/// kept as `Value::as_u64` gives it.
#[verifier::external_body]
fn json_from(value: &serde_json::Value) -> JsonValue {
    match value {
        serde_json::Value::Null => JsonValue::Null,
        serde_json::Value::Bool(b) => JsonValue::Bool(*b),
        serde_json::Value::Number(n) => JsonValue::Number(n.as_u64()),
        serde_json::Value::String(t) => JsonValue::String(t.clone()),
        serde_json::Value::Array(items) => JsonValue::Array(items.iter().map(json_from).collect()),
        serde_json::Value::Object(entries) => JsonValue::Object(entries.iter().map(|(k, v)| (k.clone(), json_from(v))).collect()),
    }
}

/// Parses one JSON document with `serde_json::from_str::<Value>`; the error is its
/// display text.
#[verifier::external_body]
pub(crate) fn parse_json(source: &str) -> (r: Result<JsonValue, String>)
    ensures
        match r {
            Ok(v) => json_document(source@) == Ok::<JsonValue, Seq<char>>(v),
            Err(e) => json_document(source@) == Err::<JsonValue, Seq<char>>(e@),
        },
{
    match serde_json::from_str::<serde_json::Value>(source) {
        Ok(value) => Ok(json_from(&value)),
        Err(error) => Err(error.to_string()),
    }
}

/// Parses a JSON list with `serde_json::from_str::<Vec<Value>>`; the error is its
/// display text.
#[verifier::external_body]
pub(crate) fn parse_json_list(source: &str) -> (r: Result<Vec<JsonValue>, String>)
    ensures
        match r {
            Ok(v) => json_list(source@) == Ok::<Seq<JsonValue>, Seq<char>>(v@),
            Err(e) => json_list(source@) == Err::<Seq<JsonValue>, Seq<char>>(e@),
        },
{
    match serde_json::from_str::<Vec<serde_json::Value>>(source) {
        Ok(values) => Ok(values.iter().map(json_from).collect()),
        Err(error) => Err(error.to_string()),
    }
}

} // verus!
