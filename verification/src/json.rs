//! JSON values as the library reads them, and the fields it looks up in the
//! replies of the chat endpoint, the completion endpoint and the embedder.
//!
//! Parsing is `serde_json`'s; the value is converted into [`Json`], and every
//! lookup after that is verified here.

use vstd::prelude::*;

use crate::chatgpt_session::opt_view;

verus! {

#[verifier::external_type_specification]
#[verifier::external_body]
pub struct ExJsonValue(serde_json::Value);

/// A JSON value. Numbers keep their text; an object lists its entries in the
/// order `serde_json` keeps them, each key once.
#[derive(Debug)]
pub enum Json {
    Null,
    Bool(bool),
    Number(String),
    Str(String),
    Array(Vec<Json>),
    Object(Vec<(String, Json)>),
}

/// What `serde_json::from_slice::<serde_json::Value>` reads from `bytes`, as a
/// [`Json`]; on failure, the text of its error.
pub uninterp spec fn json_of_bytes(bytes: Seq<u8>) -> Result<Json, Seq<char>>;

/// `serde_json::from_slice::<serde_json::Value>(bytes)`, converted to [`Json`];
/// the error as its message. The contract names the result.
#[verifier::external_body]
pub(crate) fn parse_json_bytes(bytes: &[u8]) -> (r: Result<Json, String>)
    ensures
        match r {
            Ok(j) => json_of_bytes(bytes@) == Ok::<Json, Seq<char>>(j),
            Err(m) => json_of_bytes(bytes@) == Err::<Json, Seq<char>>(m@),
        },
{
    match serde_json::from_slice::<serde_json::Value>(bytes) {
        Ok(v) => Ok(json_from_value(&v)),
        Err(e) => Err(e.to_string()),
    }
}

/// Converts a `serde_json::Value` into [`Json`], variant for variant: a number
/// by its text, an object's entries in the order of its map.
#[verifier::external_body]
fn json_from_value(v: &serde_json::Value) -> Json {
    match v {
        serde_json::Value::Null => Json::Null,
        serde_json::Value::Bool(b) => Json::Bool(*b),
        serde_json::Value::Number(n) => Json::Number(n.to_string()),
        serde_json::Value::String(s) => Json::Str(s.clone()),
        serde_json::Value::Array(a) => Json::Array(a.iter().map(json_from_value).collect()),
        serde_json::Value::Object(m) => Json::Object(
            m.iter().map(|(k, x)| (k.clone(), json_from_value(x))).collect(),
        ),
    }
}

// ── lookups ─────────────────────────────────────────────────────────

/// The value of the last entry with `key`.
pub open spec fn entry_value(entries: Seq<(String, Json)>, key: Seq<char>) -> Option<Json>
    decreases entries.len(),
{
    if entries.len() == 0 {
        None
    } else if entries.last().0@ == key {
        Some(entries.last().1)
    } else {
        entry_value(entries.drop_last(), key)
    }
}

/// The value under `key` of an object; `None` when `v` is not an object or has
/// no such key (`Value::get`, and `v[key]` reading `Null`).
pub open spec fn json_get(v: Json, key: Seq<char>) -> Option<Json> {
    match v {
        Json::Object(entries) => entry_value(entries@, key),
        _ => None,
    }
}

/// The first element of an array; `None` when `v` is not an array or is empty.
pub open spec fn json_first(v: Json) -> Option<Json> {
    match v {
        Json::Array(items) => if items@.len() > 0 {
            Some(items@[0])
        } else {
            None
        },
        _ => None,
    }
}

/// The text of a string value (`Value::as_str`).
pub open spec fn json_str(v: Json) -> Option<Seq<char>> {
    match v {
        Json::Str(s) => Some(s@),
        _ => None,
    }
}

/// The string under `key` of an object, if there is one.
pub open spec fn json_string_field(v: Json, key: Seq<char>) -> Option<Seq<char>> {
    match json_get(v, key) {
        Some(x) => json_str(x),
        None => None,
    }
}

/// `v[k1][k2]…`, `None` as soon as a step finds nothing.
pub open spec fn json_path(v: Json, keys: Seq<Seq<char>>) -> Option<Json>
    decreases keys.len(),
{
    if keys.len() == 0 {
        Some(v)
    } else {
        match json_path(v, keys.drop_last()) {
            Some(x) => json_get(x, keys.last()),
            None => None,
        }
    }
}

/// The text of an event of the chat stream: `message.content.parts[0]`, when it is a string.
pub open spec fn event_text_of(v: Json) -> Option<Seq<char>> {
    match json_path(v, seq!["message"@, "content"@, "parts"@]) {
        Some(parts) => match json_first(parts) {
            Some(p) => json_str(p),
            None => None,
        },
        None => None,
    }
}

/// The text of a completion reply: `choices[0].message.content`, when it is a string.
pub open spec fn completion_text_of(v: Json) -> Option<Seq<char>> {
    match json_get(v, "choices"@) {
        Some(choices) => match json_first(choices) {
            Some(c) => match json_path(c, seq!["message"@, "content"@]) {
                Some(t) => json_str(t),
                None => None,
            },
            None => None,
        },
        None => None,
    }
}

/// The value under `key` of an object.
pub fn json_field<'a>(v: &'a Json, key: &str) -> (r: Option<&'a Json>)
    ensures
        match r {
            Some(x) => json_get(*v, key@) == Some(*x),
            None => json_get(*v, key@) is None,
        },
{
    match v {
        Json::Object(entries) => {
            let k = String::from_str(key);
            let mut i = entries.len();
            assert(entries@.take(i as int) =~= entries@);
            while i > 0
                invariant
                    i <= entries.len(),
                    k@ == key@,
                    json_get(*v, key@) == entry_value(entries@, key@),
                    entry_value(entries@, key@) == entry_value(entries@.take(i as int), key@),
                decreases i,
            {
                assert(entries@.take(i as int).drop_last() =~= entries@.take(i - 1));
                assert(entries@.take(i as int).last() == entries@[i - 1]);
                if entries[i - 1].0 == k {
                    assert(entries@[i - 1].0@ == key@);
                    assert(entry_value(entries@.take(i as int), key@) == Some(entries@[i - 1].1));
                    return Some(&entries[i - 1].1);
                }
                i -= 1;
            }
            None
        },
        _ => None,
    }
}

/// The first element of an array.
pub fn json_first_item(v: &Json) -> (r: Option<&Json>)
    ensures
        match r {
            Some(x) => json_first(*v) == Some(*x),
            None => json_first(*v) is None,
        },
{
    match v {
        Json::Array(items) => if items.len() > 0 {
            Some(&items[0])
        } else {
            None
        },
        _ => None,
    }
}

/// The text of a string value.
pub fn json_text(v: &Json) -> (r: Option<String>)
    ensures
        opt_view(r) == json_str(*v),
{
    match v {
        Json::Str(s) => Some(s.clone()),
        _ => None,
    }
}

/// The string under `key` of an object.
pub fn string_field(v: &Json, key: &str) -> (r: Option<String>)
    ensures
        opt_view(r) == json_string_field(*v, key@),
{
    match json_field(v, key) {
        Some(x) => json_text(x),
        None => None,
    }
}

/// The text of an event of the chat stream (`message.content.parts[0]`).
pub fn event_text(v: &Json) -> (r: Option<String>)
    ensures
        opt_view(r) == event_text_of(*v),
{
    proof {
        reveal_with_fuel(json_path, 4);
        assert(seq!["message"@, "content"@, "parts"@].drop_last() =~= seq!["message"@, "content"@]);
        assert(seq!["message"@, "content"@].drop_last() =~= seq!["message"@]);
        assert(seq!["message"@].drop_last() =~= Seq::<Seq<char>>::empty());
    }
    let m = match json_field(v, "message") {
        Some(x) => x,
        None => {
            return None;
        },
    };
    let c = match json_field(m, "content") {
        Some(x) => x,
        None => {
            return None;
        },
    };
    let parts = match json_field(c, "parts") {
        Some(x) => x,
        None => {
            return None;
        },
    };
    match json_first_item(parts) {
        Some(p) => json_text(p),
        None => None,
    }
}

/// The text of a completion reply (`choices[0].message.content`).
pub fn completion_text(v: &Json) -> (r: Option<String>)
    ensures
        opt_view(r) == completion_text_of(*v),
{
    proof {
        reveal_with_fuel(json_path, 3);
        assert(seq!["message"@, "content"@].drop_last() =~= seq!["message"@]);
        assert(seq!["message"@].drop_last() =~= Seq::<Seq<char>>::empty());
    }
    let choices = match json_field(v, "choices") {
        Some(x) => x,
        None => {
            return None;
        },
    };
    let c = match json_first_item(choices) {
        Some(x) => x,
        None => {
            return None;
        },
    };
    let m = match json_field(c, "message") {
        Some(x) => x,
        None => {
            return None;
        },
    };
    match json_field(m, "content") {
        Some(t) => json_text(t),
        None => None,
    }
}

/// Reads the body of a completion reply: its text at `choices[0].message.content`
/// (`None` when there is none), or the parser's error.
pub fn completion_reply_text(body: &[u8]) -> (r: Result<Option<String>, String>)
    ensures
        match json_of_bytes(body@) {
            Ok(j) => r matches Ok(t) && opt_view(t) == completion_text_of(j),
            Err(m) => r matches Err(e) && e@ == m,
        },
{
    match parse_json_bytes(body) {
        Ok(j) => Ok(completion_text(&j)),
        Err(m) => Err(m),
    }
}

} // verus!
