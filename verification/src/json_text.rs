//! Finding the JSON document in what `ccusage` prints, and giving it the
//! shape `{"daily": [...]}`.
use vstd::prelude::*;
use crate::text::{chars_of, opt_chars, string_from_chars, trim_chars, trimmed};

verus! {

/// The kind of a JSON value.
#[derive(Clone, Copy, Debug, PartialEq, Eq, Structural)]
pub enum JsonKind {
    Null,
    Bool,
    Number,
    Str,
    Array,
    Object,
}

/// The kind of the value that `serde_json::from_str::<Value>` reads from
/// `text`; `None` where it fails.
pub uninterp spec fn json_kind_of(text: Seq<char>) -> Option<JsonKind>;

/// The kind of the member `key` of the value that `text` holds (through
/// `Value::get`); `None` where `text` is no JSON or has no such member.
pub uninterp spec fn json_member_kind_of(text: Seq<char>, key: Seq<char>) -> Option<JsonKind>;

/// `serde_json::to_string` of the value that `serde_json::from_str` reads from
/// `text`.
pub uninterp spec fn json_compact_of(text: Seq<char>) -> Option<Seq<char>>;

/// `serde_json::to_string` of the object `{key: value}`, the value read from
/// `text` by `serde_json::from_str`.
pub uninterp spec fn json_wrapped_of(key: Seq<char>, text: Seq<char>) -> Option<Seq<char>>;

/// Whether `serde_json::from_str::<Value>` accepts `text`.
pub open spec fn is_json_text(text: Seq<char>) -> bool {
    json_kind_of(text) is Some
}

/// Parses `text` with `serde_json::from_str::<serde_json::Value>` and tells
/// the variant of the value apart.
#[verifier::external_body]
fn json_kind(text: &str) -> (r: Option<JsonKind>)
    ensures
        r == json_kind_of(text@),
{
    match serde_json::from_str::<serde_json::Value>(text) {
        Ok(serde_json::Value::Null) => Some(JsonKind::Null),
        Ok(serde_json::Value::Bool(_)) => Some(JsonKind::Bool),
        Ok(serde_json::Value::Number(_)) => Some(JsonKind::Number),
        Ok(serde_json::Value::String(_)) => Some(JsonKind::Str),
        Ok(serde_json::Value::Array(_)) => Some(JsonKind::Array),
        Ok(serde_json::Value::Object(_)) => Some(JsonKind::Object),
        Err(_) => None,
    }
}

/// Parses `text` with `serde_json::from_str::<serde_json::Value>`, looks up
/// `key` with `Value::get` and tells the variant of the member apart.
#[verifier::external_body]
fn json_member_kind(text: &str, key: &str) -> (r: Option<JsonKind>)
    ensures
        r == json_member_kind_of(text@, key@),
{
    let value = match serde_json::from_str::<serde_json::Value>(text) {
        Ok(value) => value,
        Err(_) => return None,
    };
    match value.get(key) {
        Some(serde_json::Value::Null) => Some(JsonKind::Null),
        Some(serde_json::Value::Bool(_)) => Some(JsonKind::Bool),
        Some(serde_json::Value::Number(_)) => Some(JsonKind::Number),
        Some(serde_json::Value::String(_)) => Some(JsonKind::Str),
        Some(serde_json::Value::Array(_)) => Some(JsonKind::Array),
        Some(serde_json::Value::Object(_)) => Some(JsonKind::Object),
        None => None,
    }
}

/// Parses `text` with `serde_json::from_str::<serde_json::Value>` and writes
/// the value back with `serde_json::to_string`, which does not fail on a
/// `Value` (its map keys are strings and its `Serialize` impl never errs).
#[verifier::external_body]
fn json_compact(text: &str) -> (r: Option<String>)
    ensures
        opt_chars(r) == json_compact_of(text@),
        is_json_text(text@) ==> r is Some,
{
    match serde_json::from_str::<serde_json::Value>(text) {
        Ok(value) => serde_json::to_string(&value).ok(),
        Err(_) => None,
    }
}

/// Parses `text` with `serde_json::from_str::<serde_json::Value>`, puts the
/// value under `key` in a new `serde_json::Map` and writes that object with
/// `serde_json::to_string`, which does not fail on a `Value`.
#[verifier::external_body]
fn json_wrap(key: &str, text: &str) -> (r: Option<String>)
    ensures
        opt_chars(r) == json_wrapped_of(key@, text@),
        is_json_text(text@) ==> r is Some,
{
    match serde_json::from_str::<serde_json::Value>(text) {
        Ok(value) => {
            let mut map = serde_json::Map::new();
            map.insert(key.to_string(), value);
            serde_json::to_string(&serde_json::Value::Object(map)).ok()
        },
        Err(_) => None,
    }
}

/// Whether a JSON value may start at index `i` of `t`: `t[i]` opens an
/// object or an array, and what follows, trimmed, is JSON.
pub open spec fn json_starts_at(t: Seq<char>, i: int) -> bool {
    0 <= i < t.len() && (t[i] == '{' || t[i] == '[') && is_json_text(trimmed(t.skip(i)))
}

/// The last JSON value in `stdout`: the whole trimmed output where it is JSON,
/// else what follows the last `{` or `[` from which the rest is JSON.
pub open spec fn last_json_value(stdout: Seq<char>) -> Option<Seq<char>> {
    let t = trimmed(stdout);
    if is_json_text(t) {
        Some(t)
    } else if exists|i: int| json_starts_at(t, i) {
        let i = choose|i: int| json_starts_at(t, i) && forall|j: int| #[trigger]
            json_starts_at(t, j) ==> j <= i;
        Some(trimmed(t.skip(i)))
    } else {
        None
    }
}

/// The ccusage report in the shape `{"daily": [...]}`: a bare array is put
/// under `daily`; an object is kept where its `daily` is an array.
pub open spec fn normalized_report(stdout: Seq<char>) -> Option<Seq<char>> {
    match last_json_value(stdout) {
        Some(e) => match json_kind_of(e) {
            Some(JsonKind::Array) => json_wrapped_of("daily"@, e),
            Some(JsonKind::Object) => if json_member_kind_of(e, "daily"@) == Some(JsonKind::Array) {
                json_compact_of(e)
            } else {
                None
            },
            _ => None,
        },
        None => None,
    }
}

/// The last JSON value in `stdout` (see `last_json_value`).
pub fn extract_last_json_value(stdout: &str) -> (r: Option<String>)
    ensures
        opt_chars(r) == last_json_value(stdout@),
{
    let all = chars_of(stdout);
    let t = trim_chars(&all);
    let whole = string_from_chars(&t);
    if json_kind(whole.as_str()).is_some() {
        return Some(whole);
    }
    let mut i: usize = t.len();
    while i > 0
        invariant
            i <= t@.len(),
            t@ == trimmed(stdout@),
            !is_json_text(t@),
            forall|j: int| i <= j < t@.len() ==> !#[trigger] json_starts_at(t@, j),
        decreases i,
    {
        let k = i - 1;
        let c = t[k];
        if c == '{' || c == '[' {
            let mut rest: Vec<char> = Vec::new();
            let mut x: usize = k;
            while x < t.len()
                invariant
                    k <= x <= t@.len(),
                    rest@ == t@.subrange(k as int, x as int),
                decreases t@.len() - x,
            {
                rest.push(t[x]);
                x = x + 1;
            }
            assert(rest@ =~= t@.skip(k as int));
            let candidate = trim_chars(&rest);
            let text = string_from_chars(&candidate);
            if json_kind(text.as_str()).is_some() {
                assert(json_starts_at(t@, k as int));
                proof {
                    let w = choose|w: int| json_starts_at(t@, w) && forall|j: int| #[trigger]
                        json_starts_at(t@, j) ==> j <= w;
                    assert(forall|j: int| #[trigger] json_starts_at(t@, j) ==> j <= k);
                    assert(w == k);
                }
                return Some(text);
            }
        }
        i = k;
    }
    None
}

/// What `ccusage` printed, reduced to its report in the shape
/// `{"daily": [...]}` (see `normalized_report`); `None` where no report is
/// found. A report is found wherever the last JSON value is an array, or an
/// object whose `daily` is an array.
pub fn normalize_ccusage_output(stdout: &str) -> (r: Option<String>)
    ensures
        opt_chars(r) == normalized_report(stdout@),
        last_json_value(stdout@) matches Some(e) && (json_kind_of(e) == Some(JsonKind::Array) || (
        json_kind_of(e) == Some(JsonKind::Object) && json_member_kind_of(e, "daily"@) == Some(
            JsonKind::Array,
        ))) ==> r is Some,
{
    let e = match extract_last_json_value(stdout) {
        Some(e) => e,
        None => return None,
    };
    match json_kind(e.as_str()) {
        Some(JsonKind::Array) => json_wrap("daily", e.as_str()),
        Some(JsonKind::Object) => {
            if json_member_kind(e.as_str(), "daily") == Some(JsonKind::Array) {
                json_compact(e.as_str())
            } else {
                None
            }
        },
        _ => None,
    }
}

} // verus!
