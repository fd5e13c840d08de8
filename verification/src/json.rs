//! JSON texts of plain values.

use crate::names;
use crate::text;
use std::collections::BTreeMap;
use vstd::prelude::*;
use vstd::string::*;

verus! {

/// The list of strings that a JSON text holds, or `None` where it holds none.
pub uninterp spec fn string_list(text: Seq<char>) -> Option<Seq<Seq<char>>>;

/// The JSON text of a list of strings.
pub uninterp spec fn string_list_json(list: Seq<Seq<char>>) -> Seq<char>;

/// The map from strings to strings that a JSON text holds, or `None` where it holds none.
pub uninterp spec fn string_map(text: Seq<char>) -> Option<Map<Seq<char>, Seq<char>>>;

/// The JSON text of a map from strings to strings.
pub uninterp spec fn string_map_json(map: Map<Seq<char>, Seq<char>>) -> Seq<char>;

/// A map of strings, the values by their characters.
pub open spec fn text_map(m: Map<Seq<char>, String>) -> Map<Seq<char>, Seq<char>> {
    m.map_values(|s: String| s@)
}

/// `serde_json::from_str` for a list of strings: what it reads depends on the text alone.
#[verifier::external_body]
pub(crate) fn parse_string_list(text: &str) -> (r: Option<Vec<String>>)
    ensures
        match r {
            Some(v) => string_list(text@) == Some(text::views(v@)),
            None => string_list(text@) is None,
        },
{
    serde_json::from_str::<Vec<String>>(text).ok()
}

/// `serde_json::to_string_pretty` for a list of strings: the text depends on the list alone, and
/// reading it gives the list back.
#[verifier::external_body]
pub(crate) fn render_string_list(list: &[String]) -> (r: String)
    ensures
        r@ == string_list_json(text::views(list@)),
        string_list(r@) == Some(text::views(list@)),
{
    serde_json::to_string_pretty(list).unwrap_or_default()
}

/// `serde_json::from_str` for a map from strings to strings: what it reads depends on the text
/// alone.
#[verifier::external_body]
pub(crate) fn parse_string_map(text: &str) -> (r: Option<Vec<(String, String)>>)
    ensures
        match r {
            Some(v) => string_map(text@) == Some(text_map(names::mapping(v@))),
            None => string_map(text@) is None,
        },
{
    serde_json::from_str::<BTreeMap<String, String>>(text).ok().map(|m| m.into_iter().collect())
}

/// `serde_json::to_string_pretty` for a map from strings to strings, given by its pairs in the
/// order of their keys: the text depends on the map alone, and reading it gives the map back.
#[verifier::external_body]
pub(crate) fn render_string_map(pairs: &[(String, String)]) -> (r: String)
    requires
        names::keys_ordered(pairs@),
    ensures
        r@ == string_map_json(text_map(names::mapping(pairs@))),
        string_map(r@) == Some(text_map(names::mapping(pairs@))),
{
    let map: BTreeMap<String, String> = pairs.iter().cloned().collect();
    serde_json::to_string_pretty(&map).unwrap_or_default()
}

/// What is wrong with a JSON text, in words; `None` where it is JSON.
pub uninterp spec fn json_fault(text: Seq<char>) -> Option<Seq<char>>;

/// `serde_json::from_str` for any JSON value: whether the text is JSON, and what its error says
/// where it is not, depends on the text alone.
#[verifier::external_body]
pub(crate) fn check_json(text: &str) -> (r: Result<(), String>)
    ensures
        match r {
            Ok(_) => json_fault(text@) is None,
            Err(e) => json_fault(text@) == Some(e@),
        },
{
    serde_json::from_str::<serde_json::Value>(text).map(|_| ()).map_err(|e| e.to_string())
}

/// The string under `key` of the object that a JSON text holds; `None` where the text is not JSON,
/// is no object, or holds something else there.
pub uninterp spec fn json_string_at(text: Seq<char>, key: Seq<char>) -> Option<Seq<char>>;

/// `serde_json::Value`, indexed by a key and read with `as_str`: what it holds depends on the text
/// and the key alone.
#[verifier::external_body]
pub(crate) fn string_at(text: &str, key: &str) -> (r: Option<String>)
    ensures
        text::opt_string(r) == json_string_at(text@, key@),
{
    let value = serde_json::from_str::<serde_json::Value>(text).ok()?;
    value[key].as_str().map(str::to_string)
}

/// The number under `key` of the object that a JSON text holds, where it is a `u64`.
pub uninterp spec fn json_u64_at(text: Seq<char>, key: Seq<char>) -> Option<u64>;

/// `serde_json::Value`, indexed by a key and read with `as_u64`: what it holds depends on the text
/// and the key alone.
#[verifier::external_body]
pub(crate) fn u64_at(text: &str, key: &str) -> (r: Option<u64>)
    ensures
        r == json_u64_at(text@, key@),
{
    let value = serde_json::from_str::<serde_json::Value>(text).ok()?;
    value[key].as_u64()
}

} // verus!
