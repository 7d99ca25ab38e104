//! Trusted declarations of the JSON values this crate carries opaquely,
//! names for what serde_json computes from its inputs alone, and thin
//! wrappers around the serde_json calls the crate's logic makes.

use vstd::prelude::*;

verus! {

#[verifier::external_type_specification]
#[verifier::external_body]
pub struct ExValue(serde_json::Value);

#[verifier::external_type_specification]
#[verifier::external_body]
#[verifier::reject_recursive_types(K)]
#[verifier::reject_recursive_types(V)]
pub struct ExMap<K, V>(serde_json::Map<K, V>);

/// Whether serde_json accepts `s` as a JSON document: a function of the
/// characters alone.
pub uninterp spec fn json_accepted(s: Seq<char>) -> bool;

/// Whether serde_json accepts `s` as a JSON document whose top-level value
/// is an object.
pub uninterp spec fn json_is_object(s: Seq<char>) -> bool;

/// The string content of the member at `key` of the object `s` parses to,
/// where `s` parses to an object holding a string there.
pub uninterp spec fn string_member_of(s: Seq<char>, key: Seq<char>) -> Option<Seq<char>>;

/// serde_json's pretty print of the object `s` parses to, where `s` parses
/// to an object and pretty-printing succeeds.
pub uninterp spec fn pretty_of(s: Seq<char>) -> Option<Seq<char>>;

/// The string content of an object's member at `key`, where the object
/// holds a string there.
pub uninterp spec fn object_string_member(
    m: serde_json::Map<String, serde_json::Value>,
    key: Seq<char>,
) -> Option<Seq<char>>;

/// serde_json's pretty print of an object, where pretty-printing succeeds.
pub uninterp spec fn object_pretty(m: serde_json::Map<String, serde_json::Value>) -> Option<
    Seq<char>,
>;

/// The set of keys an object holds.
pub uninterp spec fn object_keys(m: serde_json::Map<String, serde_json::Value>) -> Set<Seq<char>>;

/// Relies on serde_json::from_str::<Value>: parses a complete JSON document,
/// accepting or rejecting on the characters alone. Hands the object back
/// when the document is one; `Err(Some(text))` carries the parse error's
/// rendered text when the document is rejected; `Err(None)` says the
/// document parses but is not an object. The parse is deterministic, so what
/// the returned object holds — its string members and its pretty print — is
/// a function of the characters too, which the last clause records.
#[verifier::external_body]
pub(crate) fn parse_json_object(s: &str) -> (r: Result<
    serde_json::Map<String, serde_json::Value>,
    Option<String>,
>)
    ensures
        r is Ok <==> json_is_object(s@),
        r is Ok ==> json_accepted(s@),
        (r matches Err(Some(_))) <==> !json_accepted(s@),
        r matches Ok(m) ==> (forall|key: Seq<char>|
            #[trigger] object_string_member(m, key) == string_member_of(s@, key))
            && object_pretty(m) == pretty_of(s@),
{
    match serde_json::from_str::<serde_json::Value>(s) {
        Ok(serde_json::Value::Object(m)) => Ok(m),
        Ok(_) => Err(None),
        Err(e) => Err(Some(e.to_string())),
    }
}

/// Relies on serde_json::Map::get and the Value `String` variant: the
/// string content of the object's member at `key`, when the object holds a
/// string there.
#[verifier::external_body]
pub(crate) fn object_get_string(
    m: &serde_json::Map<String, serde_json::Value>,
    key: &str,
) -> (r: Option<String>)
    ensures
        r is Some <==> object_string_member(*m, key@) is Some,
        r matches Some(t) ==> object_string_member(*m, key@) == Some(t@),
{
    match m.get(key) {
        Some(serde_json::Value::String(t)) => Some(t.clone()),
        _ => None,
    }
}

/// Relies on serde_json::to_string_pretty: pretty-prints an object, a
/// function of the object alone.
#[verifier::external_body]
pub(crate) fn object_to_pretty(m: &serde_json::Map<String, serde_json::Value>) -> (r: Option<
    String,
>)
    ensures
        r is Some <==> object_pretty(*m) is Some,
        r matches Some(t) ==> object_pretty(*m) == Some(t@),
{
    serde_json::to_string_pretty(m).ok()
}

/// Relies on serde_json::Map::new: makes an object with no members.
#[verifier::external_body]
pub(crate) fn new_json_map() -> (r: serde_json::Map<String, serde_json::Value>)
    ensures
        object_keys(r) == Set::<Seq<char>>::empty(),
{
    serde_json::Map::new()
}

} // verus!
