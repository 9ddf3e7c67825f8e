//! The one window onto the JSON parser: a nested string lookup in a
//! response body.

use vstd::prelude::*;

verus! {

/// The string a response body holds under `key` and then `field`, when the
/// body is a JSON object whose member `key` is an object whose member
/// `field` is a string; `None` otherwise.  What the parser finds is a
/// function of the three character sequences alone.
pub uninterp spec fn json_str_at(body: Seq<char>, key: Seq<char>, field: Seq<char>) -> Option<Seq<char>>;

/// Whether the body parses as JSON and holds a member under `key` at all,
/// whatever that member is.  Again a function of the two character
/// sequences alone.
pub uninterp spec fn json_has_key(body: Seq<char>, key: Seq<char>) -> bool;

/// Relies on serde_json::from_str and serde_json::Value::get: whether
/// `body` parses as JSON and holds a member under `key`; `false` when the
/// body does not parse or the key is absent.
#[verifier::external_body]
pub(crate) fn json_has_pair_key(body: &str, key: &str) -> (r: bool)
    ensures
        r == json_has_key(body@, key@),
{
    match serde_json::from_str::<serde_json::Value>(body) {
        Ok(v) => v.get(key).is_some(),
        Err(_) => false,
    }
}

/// Relies on serde_json::from_str, serde_json::Value::get and
/// serde_json::Value::as_str: parses `body` as JSON and hands back the
/// string found under `key` and then `field`; `None` when the body does not
/// parse, either member is missing, or the inner member is not a string.
#[verifier::external_body]
pub(crate) fn json_string_field(body: &str, key: &str, field: &str) -> (r: Option<String>)
    ensures
        r matches Some(s) ==> json_str_at(body@, key@, field@) == Some(s@),
        r is None ==> json_str_at(body@, key@, field@) is None,
{
    match serde_json::from_str::<serde_json::Value>(body) {
        Ok(v) => match v.get(key) {
            Some(m) => match m.get(field) {
                Some(f) => f.as_str().map(|t| t.to_string()),
                None => None,
            },
            None => None,
        },
        Err(_) => None,
    }
}

} // verus!
