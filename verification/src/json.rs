//! JSON values as plain data, and the one place where JSON text is parsed.
//!
//! The parsing itself is serde_json's; everything that reads the parsed
//! value is verified against the spec accessors below.

use vstd::prelude::*;
use vstd::string::*;

use crate::text::same_text;

verus! {

/// A JSON value. Numbers keep their text; an object keeps its entries in the
/// order the parser produced them.
#[derive(Debug, PartialEq)]
pub enum Json {
    Null,
    Bool(bool),
    Number(String),
    Str(String),
    Array(Vec<Json>),
    Object(Vec<(String, Json)>),
}

/// The value of the first entry named `key`.
pub open spec fn lookup(entries: Seq<(String, Json)>, key: Seq<char>) -> Option<Json>
    decreases entries.len(),
{
    if entries.len() == 0 {
        None
    } else if entries[0].0@ == key {
        Some(entries[0].1)
    } else {
        lookup(entries.drop_first(), key)
    }
}

/// The first entry named `key` is the one at `j`.
pub proof fn lemma_lookup_at(entries: Seq<(String, Json)>, key: Seq<char>, j: int)
    requires
        0 <= j < entries.len(),
        entries[j].0@ == key,
        forall|i: int| 0 <= i < j ==> (#[trigger] entries[i]).0@ != key,
    ensures
        lookup(entries, key) == Some(entries[j].1),
    decreases j,
{
    if j > 0 {
        let rest = entries.drop_first();
        assert forall|i: int| 0 <= i < j - 1 implies (#[trigger] rest[i]).0@ != key by {
            assert(rest[i] == entries[i + 1]);
        }
        lemma_lookup_at(rest, key, j - 1);
    }
}

/// `value.get(key)`: the member `key` of an object; nothing for other values.
pub open spec fn json_get(value: Json, key: Seq<char>) -> Option<Json> {
    match value {
        Json::Object(entries) => lookup(entries@, key),
        _ => None,
    }
}

/// `value.as_str()`
pub open spec fn json_str(value: Option<Json>) -> Option<Seq<char>> {
    match value {
        Some(Json::Str(s)) => Some(s@),
        _ => None,
    }
}

/// The member `key` of `value` as a string, if it is one.
pub open spec fn json_get_str(value: Json, key: Seq<char>) -> Option<Seq<char>> {
    json_str(json_get(value, key))
}

/// The JSON value that the text holds, or nothing when it is not JSON.
pub uninterp spec fn json_text_value(text: Seq<char>) -> Option<Json>;

#[verifier::external_type_specification]
#[verifier::external_body]
pub struct ExJsonValue(serde_json::Value);

/// Converts a parsed `serde_json::Value` into a `Json`, variant for variant.
#[verifier::external_body]
fn json_of_value(value: &serde_json::Value) -> Json {
    match value {
        serde_json::Value::Null => Json::Null,
        serde_json::Value::Bool(b) => Json::Bool(*b),
        serde_json::Value::Number(n) => Json::Number(n.to_string()),
        serde_json::Value::String(s) => Json::Str(s.clone()),
        serde_json::Value::Array(items) => Json::Array(items.iter().map(json_of_value).collect()),
        serde_json::Value::Object(map) => Json::Object(
            map.iter().map(|(k, v)| (k.clone(), json_of_value(v))).collect(),
        ),
    }
}

/// Parses JSON text with `serde_json::from_str` into a `serde_json::Value`.
/// The contract claims only that the result depends on the text alone, by
/// naming it `json_text_value`; what JSON means is serde_json's.
#[verifier::external_body]
pub(crate) fn parse_json(text: &str) -> (res: Option<Json>)
    ensures
        res == json_text_value(text@),
{
    match serde_json::from_str::<serde_json::Value>(text) {
        Ok(value) => Some(json_of_value(&value)),
        Err(_) => None,
    }
}

impl Json {
    /// `value.get(key)`
    pub fn get(&self, key: &str) -> (res: Option<&Json>)
        ensures
            match res {
                Some(v) => json_get(*self, key@) == Some(*v),
                None => json_get(*self, key@) is None,
            },
    {
        match self {
            Json::Object(entries) => {
                let n = entries.len();
                let mut i: usize = 0;
                proof {
                    assert(entries@.skip(0) =~= entries@);
                }
                while i < n
                    invariant
                        n == entries@.len(),
                        i <= n,
                        json_get(*self, key@) == lookup(entries@, key@),
                        lookup(entries@, key@) == lookup(entries@.skip(i as int), key@),
                    decreases n - i,
                {
                    proof {
                        assert(entries@.skip(i as int).drop_first() =~= entries@.skip(i + 1));
                        assert(entries@.skip(i as int)[0] == entries@[i as int]);
                    }
                    if same_text(entries[i].0.as_str(), key) {
                        return Some(&entries[i].1);
                    }
                    i += 1;
                }
                proof {
                    assert(entries@.skip(n as int) =~= Seq::<(String, Json)>::empty());
                }
                None
            },
            _ => None,
        }
    }

    /// `value.as_str()`
    pub fn as_str(&self) -> (res: Option<&str>)
        ensures
            match res {
                Some(s) => json_str(Some(*self)) == Some(s@),
                None => json_str(Some(*self)) is None,
            },
    {
        match self {
            Json::Str(s) => Some(s.as_str()),
            _ => None,
        }
    }
}

/// The member `key` of `value` as a string, if it is one.
pub fn get_str<'a>(value: &'a Json, key: &str) -> (res: Option<&'a str>)
    ensures
        match res {
            Some(s) => json_get_str(*value, key@) == Some(s@),
            None => json_get_str(*value, key@) is None,
        },
{
    match value.get(key) {
        Some(v) => v.as_str(),
        None => None,
    }
}

} // verus!
