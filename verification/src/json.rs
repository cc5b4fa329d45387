//! JSON, as `serde_json` reads it.

use crate::text::views;
use vstd::prelude::*;

verus! {

/// A JSON value, as far as anything here looks at it.
pub enum Json {
    Bool(bool),
    Text(Seq<char>),
    Object(Seq<(Seq<char>, Json)>),
    Other,
}

/// The value under `key` among the entries of an object.
pub open spec fn entry_of(entries: Seq<(Seq<char>, Json)>, key: Seq<char>) -> Option<Json>
    decreases entries.len(),
{
    if entries.len() == 0 {
        None
    } else if entries[0].0 == key {
        Some(entries[0].1)
    } else {
        entry_of(entries.drop_first(), key)
    }
}

/// The value under `key`, where `value` is an object that has one.
pub open spec fn member(value: Json, key: Seq<char>) -> Json {
    match value {
        Json::Object(entries) => match entry_of(entries, key) {
            Some(v) => v,
            None => Json::Other,
        },
        _ => Json::Other,
    }
}

/// The text that `value` holds, where it is a string.
pub open spec fn text_in(value: Json) -> Option<Seq<char>> {
    match value {
        Json::Text(s) => Some(s),
        _ => None,
    }
}

/// The truth value that `value` holds, where it is one.
pub open spec fn bool_in(value: Json) -> Option<bool> {
    match value {
        Json::Bool(b) => Some(b),
        _ => None,
    }
}

/// A `serde_json` value; what it holds is `value_of`.
#[verifier::external_type_specification]
#[verifier::external_body]
pub struct ExValue(serde_json::Value);

/// A `serde_json` object; what it holds is `entries_of`.
#[verifier::external_type_specification]
#[verifier::external_body]
#[verifier::reject_recursive_types(K)]
#[verifier::reject_recursive_types(V)]
pub struct ExObject<K, V>(serde_json::Map<K, V>);

/// What `serde_json` reports when it cannot read a text.
#[verifier::external_type_specification]
#[verifier::external_body]
pub struct ExError(serde_json::Error);

/// What a `serde_json` value holds.
pub uninterp spec fn value_of(value: serde_json::Value) -> Json;

/// The entries of a `serde_json` object, in the order in which it hands them out.
pub uninterp spec fn entries_of(object: serde_json::Map<String, serde_json::Value>) -> Seq<
    (Seq<char>, Json),
>;

/// The entries of the object that `serde_json::from_str` reads out of a text, where it
/// reads one.
pub uninterp spec fn object_text(text: Seq<char>) -> Option<Seq<(Seq<char>, Json)>>;

/// The strings of the array that `serde_json::from_str` reads out of a text, where it
/// reads one.
pub uninterp spec fn strings_text(text: Seq<char>) -> Option<Seq<Seq<char>>>;

/// Calls `serde_json::from_str` for an object. Claimed: whether it reads one, and with
/// which entries, depends on the text alone.
#[verifier::external_body]
pub(crate) fn read_object(text: &str) -> (r: Result<
    serde_json::Map<String, serde_json::Value>,
    serde_json::Error,
>)
    ensures
        match r {
            Ok(object) => object_text(text@) == Some(entries_of(object)),
            Err(_) => object_text(text@) is None,
        },
{
    serde_json::from_str(text)
}

/// Calls `serde_json::from_str` for an array of strings. Claimed: whether it reads one,
/// and with which strings, depends on the text alone.
#[verifier::external_body]
pub(crate) fn read_strings(text: &str) -> (r: Result<Vec<String>, serde_json::Error>)
    ensures
        match r {
            Ok(strings) => strings_text(text@) == Some(views(strings@)),
            Err(_) => strings_text(text@) is None,
        },
{
    serde_json::from_str(text)
}

/// Calls `serde_json::Map::get`. Claimed: it returns the value of the entry with that key,
/// and nothing where there is no such entry. An object has one entry at most for a key.
#[verifier::external_body]
pub(crate) fn get<'a>(
    object: &'a serde_json::Map<String, serde_json::Value>,
    key: &str,
) -> (r: Option<&'a serde_json::Value>)
    ensures
        match r {
            Some(value) => entry_of(entries_of(*object), key@) == Some(value_of(*value)),
            None => entry_of(entries_of(*object), key@) is None,
        },
{
    object.get(key)
}

/// Calls `serde_json::Map::values`. Claimed: it hands out the value of each entry, in the
/// order of the entries.
#[verifier::external_body]
pub(crate) fn values<'a>(object: &'a serde_json::Map<String, serde_json::Value>) -> (r: Vec<
    &'a serde_json::Value,
>)
    ensures
        r@.map_values(|v: &serde_json::Value| value_of(*v)) == entries_of(*object).map_values(
            |e: (Seq<char>, Json)| e.1,
        ),
{
    object.values().collect()
}

/// Indexes a `serde_json::Value` with a string. Claimed: it returns the value under that
/// key where the indexed value is an object that has one, and else a value that is
/// neither a string, a truth value nor an object.
#[verifier::external_body]
pub(crate) fn index<'a>(value: &'a serde_json::Value, key: &str) -> (r: &'a serde_json::Value)
    ensures
        value_of(*r) == member(value_of(*value), key@),
{
    &value[key]
}

/// Calls `serde_json::Value::as_str`. Claimed: it returns the text of a string and nothing
/// for any other value.
#[verifier::external_body]
pub(crate) fn as_text(value: &serde_json::Value) -> (r: Option<&str>)
    ensures
        match r {
            Some(s) => text_in(value_of(*value)) == Some(s@),
            None => text_in(value_of(*value)) is None,
        },
{
    value.as_str()
}

/// Calls `serde_json::Value::as_bool`. Claimed: it returns a truth value as it is and
/// nothing for any other value.
#[verifier::external_body]
pub(crate) fn as_truth(value: &serde_json::Value) -> (r: Option<bool>)
    ensures
        r == bool_in(value_of(*value)),
{
    value.as_bool()
}

/// Whether the entry at `k` is the first with the key `key`.
pub open spec fn is_first_with(entries: Seq<(Seq<char>, Json)>, key: Seq<char>, k: int) -> bool {
    &&& 0 <= k < entries.len()
    &&& entries[k].0 == key
    &&& forall|j: int| 0 <= j < k ==> (#[trigger] entries[j]).0 != key
}

/// The value under a key is that of the first entry with the key.
pub proof fn law_entry(entries: Seq<(Seq<char>, Json)>, key: Seq<char>)
    ensures
        match entry_of(entries, key) {
            Some(v) => exists|k: int| #[trigger] is_first_with(entries, key, k) && entries[k].1 == v,
            None => forall|k: int| 0 <= k < entries.len() ==> (#[trigger] entries[k]).0 != key,
        },
    decreases entries.len(),
{
    if entries.len() > 0 {
        if entries[0].0 == key {
            assert(is_first_with(entries, key, 0));
        } else {
            let tail = entries.drop_first();
            law_entry(tail, key);
            match entry_of(tail, key) {
                Some(v) => {
                    let k = choose|k: int| #[trigger] is_first_with(tail, key, k) && tail[k].1 == v;
                    assert forall|j: int| 0 <= j < k + 1 implies (#[trigger] entries[j]).0 != key by {
                        if j > 0 {
                            assert(tail[j - 1] == entries[j]);
                        }
                    }
                    assert(entries[k + 1] == tail[k]);
                    assert(is_first_with(entries, key, k + 1));
                },
                None => {
                    assert forall|k: int| 0 <= k < entries.len() implies (#[trigger] entries[k]).0
                        != key by {
                        if k > 0 {
                            assert(tail[k - 1] == entries[k]);
                        }
                    }
                },
            }
        }
    }
}

} // verus!
