//! A parsed JSON document as plain values, for the logic that reads chat
//! frames. Each node also keeps its compact JSON text.

use vstd::prelude::*;

use crate::text::{chars_eq, chars_of_string};

verus! {

#[derive(Debug)]
pub enum JsonValue {
    Null,
    Bool(bool),
    /// A number, with its value when it is an integer that fits an `i64`;
    /// its digits are the node's `text`.
    Number(Option<i64>),
    Str(String),
    Array(Vec<Json>),
    /// Members as serde_json's map yields them (sorted by key, its default
    /// without the `preserve_order` feature), keys distinct.
    Object(Vec<(String, Json)>),
}

/// A JSON node and its compact serialization.
#[derive(Debug)]
pub struct Json {
    pub value: JsonValue,
    pub text: String,
}

/// The index of the first member named `key` at or after `j`.
pub open spec fn member_from(ms: Seq<(String, Json)>, key: Seq<char>, j: nat) -> Option<int>
    decreases ms.len() - j,
{
    if j >= ms.len() {
        None
    } else if ms[j as int].0@ == key {
        Some(j as int)
    } else {
        member_from(ms, key, j + 1)
    }
}

/// `serde_json::Value::get` with a string key: the member named `key` of an
/// object, `None` for anything else.
pub open spec fn spec_get(j: Json, key: Seq<char>) -> Option<Json> {
    match j.value {
        JsonValue::Object(ms) => match member_from(ms@, key, 0) {
            Some(i) => Some(ms@[i].1),
            None => None,
        },
        _ => None,
    }
}

/// `as_str`: the text of a string node.
pub open spec fn spec_as_str(j: Json) -> Option<Seq<char>> {
    match j.value {
        JsonValue::Str(s) => Some(s@),
        _ => None,
    }
}

impl Json {
    /// The member named `key` of an object node.
    pub fn get(&self, key: &str) -> (r: Option<&Json>)
        ensures
            match r {
                Some(v) => spec_get(*self, key@) == Some(*v),
                None => spec_get(*self, key@) is None,
            },
    {
        match &self.value {
            JsonValue::Object(ms) => {
                let n = ms.len();
                for k in 0..n
                    invariant
                        n == ms@.len(),
                        self.value == JsonValue::Object(*ms),
                        member_from(ms@, key@, 0) == member_from(ms@, key@, k as nat),
                {
                    let kc = chars_of_string(&ms[k].0);
                    if chars_eq(kc.as_slice(), key) {
                        assert(member_from(ms@, key@, k as nat) == Some(k as int));
                        return Some(&ms[k].1);
                    }
                }
                None
            },
            _ => None,
        }
    }

    /// The text of a string node.
    pub fn as_str(&self) -> (r: Option<&String>)
        ensures
            match r {
                Some(s) => spec_as_str(*self) == Some(s@),
                None => spec_as_str(*self) is None,
            },
    {
        match &self.value {
            JsonValue::Str(s) => Some(s),
            _ => None,
        }
    }
}

/// What `serde_json::from_str::<serde_json::Value>` makes of `text`, as
/// plain values: `None` when `text` is not one JSON document.
pub uninterp spec fn json_parsed(text: Seq<char>) -> Option<Json>;

#[verifier::external_type_specification]
#[verifier::external_body]
pub struct ExJsonValue(serde_json::Value);

/// `serde_json::from_str::<serde_json::Value>`, the document copied into a
/// `Json`; `None` when `text` is not JSON.
#[verifier::external_body]
pub(crate) fn parse_json(text: &str) -> (r: Option<Json>)
    ensures
        r == json_parsed(text@),
{
    match serde_json::from_str::<serde_json::Value>(text) {
        Ok(v) => Some(json_of_value(&v)),
        Err(_) => None,
    }
}

/// Copies a `serde_json::Value` node by node (objects keep serde_json's
/// member order; numbers keep `as_i64`; every node keeps `to_string`).
#[verifier::external_body]
fn json_of_value(v: &serde_json::Value) -> Json {
    let value = match v {
        serde_json::Value::Null => JsonValue::Null,
        serde_json::Value::Bool(b) => JsonValue::Bool(*b),
        serde_json::Value::Number(n) => JsonValue::Number(n.as_i64()),
        serde_json::Value::String(s) => JsonValue::Str(s.clone()),
        serde_json::Value::Array(a) => JsonValue::Array(a.iter().map(json_of_value).collect()),
        serde_json::Value::Object(o) => JsonValue::Object(
            o.iter().map(|(k, x)| (k.clone(), json_of_value(x))).collect(),
        ),
    };
    Json { value, text: v.to_string() }
}

} // verus!
