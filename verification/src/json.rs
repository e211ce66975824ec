//! The JSON documents the daemon keeps on disk, behind `serde_json`.

use std::collections::HashMap;
use vstd::prelude::*;

use crate::path_map;
use crate::text;

verus! {

/// The error type of `serde_json`, carried through unopened.
#[verifier::external_type_specification]
#[verifier::external_body]
pub struct ExJsonError(serde_json::Error);

/// What `serde_json::from_slice` makes of `bytes` as an object of strings;
/// `None` where it reports an error.
pub uninterp spec fn json_string_map(bytes: Seq<u8>) -> Option<Map<Seq<char>, Seq<char>>>;

/// What `serde_json::from_str` makes of `doc` as an array of strings; `None`
/// where it reports an error.
pub uninterp spec fn json_string_list(doc: Seq<char>) -> Option<Seq<Seq<char>>>;

/// A map of strings as a map of their texts.
pub open spec fn text_map(m: Map<Seq<char>, String>) -> Map<Seq<char>, Seq<char>> {
    m.map_values(|s: String| s@)
}

/// `serde_json::from_slice` into a map of strings: the pairs come in no
/// particular order, each key once.
#[verifier::external_body]
pub(crate) fn parse_string_map(bytes: &[u8]) -> (r: Result<
    Vec<(String, String)>,
    serde_json::Error,
>)
    ensures
        match r {
            Ok(v) => path_map::distinct_keys(v@) && json_string_map(bytes@) == Some(
                text_map(path_map::pairs_map(v@)),
            ),
            Err(_) => json_string_map(bytes@) is None,
        },
{
    let m: HashMap<String, String> = serde_json::from_slice(bytes)?;
    Ok(m.into_iter().collect())
}

/// `serde_json::to_vec` of a map of strings: it never fails on one, and
/// `serde_json::from_slice` reads the same map back. The order of the keys in
/// the document is not promised.
#[verifier::external_body]
pub(crate) fn render_string_map(entries: &Vec<(String, String)>) -> (r: Result<
    Vec<u8>,
    serde_json::Error,
>)
    ensures
        r is Ok,
        json_string_map(r->Ok_0@) == Some(text_map(path_map::pairs_map(entries@))),
{
    let m: HashMap<&str, &str> = entries.iter().map(|e| (e.0.as_str(), e.1.as_str())).collect();
    serde_json::to_vec(&m)
}

/// `serde_json::from_str` into a list of strings.
#[verifier::external_body]
pub(crate) fn parse_string_list(doc: &str) -> (r: Result<Vec<String>, serde_json::Error>)
    ensures
        match r {
            Ok(v) => json_string_list(doc@) == Some(text::views(v@)),
            Err(_) => json_string_list(doc@) is None,
        },
{
    serde_json::from_str(doc)
}

/// `serde_json::to_string_pretty` of a list of strings: it never fails on one,
/// and `serde_json::from_str` reads the same list back.
#[verifier::external_body]
pub(crate) fn render_string_list(list: &Vec<String>) -> (r: Result<String, serde_json::Error>)
    ensures
        r is Ok,
        json_string_list(r->Ok_0@) == Some(text::views(list@)),
{
    serde_json::to_string_pretty(list)
}

} // verus!
