//! JSON texts of maps, as `serde_json` writes and reads them.
use crate::text_map::{ascending, entry_keys, entry_map, TextMap};
use std::collections::BTreeMap;
use vstd::prelude::*;

verus! {

/// An error of `serde_json`.
#[verifier::external_type_specification]
#[verifier::external_body]
pub struct ExJsonError(serde_json::Error);

/// The JSON object whose members are the entries of `map`, as
/// `serde_json::to_string` writes it.
pub uninterp spec fn json_of_texts(map: Map<Seq<char>, Seq<char>>) -> Seq<char>;

/// The JSON object whose members are the entries of `map`, as
/// `serde_json::to_string` writes it.
pub uninterp spec fn json_of_counts(map: Map<Seq<char>, u64>) -> Seq<char>;

/// The JSON object of objects with text members that `serde_json::to_string`
/// writes for `map`.
pub uninterp spec fn json_of_text_maps(map: Map<Seq<char>, Map<Seq<char>, Seq<char>>>) -> Seq<char>;

/// The JSON object of objects with numeric members that
/// `serde_json::to_string` writes for `map`.
pub uninterp spec fn json_of_count_maps(map: Map<Seq<char>, Map<Seq<char>, u64>>) -> Seq<char>;

/// The map from text to text that `serde_json::from_str` reads from `text`,
/// where `text` is a JSON object with text members only.
pub uninterp spec fn texts_of_json(text: Seq<char>) -> Option<Map<Seq<char>, Seq<char>>>;

/// Calls `serde_json::to_string` on a map from text to text. The result
/// depends on the entries alone. Writing cannot fail: the keys are strings
/// and the text grows in memory. `serde_json::from_str` reads the same map
/// back from the text, since every character is written as itself or as an
/// escape of itself.
#[verifier::external_body]
pub(crate) fn write_texts(map: &TextMap<String>) -> (text: String)
    ensures
        text@ == json_of_texts(map@),
        texts_of_json(text@) == Some(map@),
{
    let members: BTreeMap<&String, &String> = map.entries().iter().map(|e| (&e.0, &e.1)).collect();
    serde_json::to_string(&members).unwrap()
}

/// Calls `serde_json::to_string` on a map from text to numbers. The result
/// depends on the entries alone; writing cannot fail.
#[verifier::external_body]
pub(crate) fn write_counts(map: &TextMap<u64>) -> (text: String)
    ensures
        text@ == json_of_counts(map@),
{
    let members: BTreeMap<&String, &u64> = map.entries().iter().map(|e| (&e.0, &e.1)).collect();
    serde_json::to_string(&members).unwrap()
}

/// Calls `serde_json::to_string` on a map from text to maps from text to
/// text. The result depends on the entries alone; writing cannot fail.
#[verifier::external_body]
pub(crate) fn write_text_maps(map: &TextMap<TextMap<String>>) -> (text: String)
    ensures
        text@ == json_of_text_maps(map@),
{
    let members: BTreeMap<&String, BTreeMap<&String, &String>> = map.entries().iter().map(
        |e| (&e.0, e.1.entries().iter().map(|f| (&f.0, &f.1)).collect()),
    ).collect();
    serde_json::to_string(&members).unwrap()
}

/// Calls `serde_json::to_string` on a map from text to maps from text to
/// numbers. The result depends on the entries alone; writing cannot fail.
#[verifier::external_body]
pub(crate) fn write_count_maps(map: &TextMap<TextMap<u64>>) -> (text: String)
    ensures
        text@ == json_of_count_maps(map@),
{
    let members: BTreeMap<&String, BTreeMap<&String, &u64>> = map.entries().iter().map(
        |e| (&e.0, e.1.entries().iter().map(|f| (&f.0, &f.1)).collect()),
    ).collect();
    serde_json::to_string(&members).unwrap()
}

/// Calls `serde_json::from_str` for a map from text to text. Whether `text`
/// is such an object and what map it is depends on `text` alone; the entries
/// come out of a `BTreeMap` in ascending order of key, each key once.
#[verifier::external_body]
pub(crate) fn read_texts(text: &str) -> (entries: Result<Vec<(String, String)>, serde_json::Error>)
    ensures
        match entries {
            Ok(list) => ascending(entry_keys(list@)) && texts_of_json(text@) == Some(
                entry_map(list@),
            ),
            Err(_) => texts_of_json(text@) is None,
        },
{
    let members: BTreeMap<String, String> = serde_json::from_str(text)?;
    Ok(members.into_iter().collect())
}

} // verus!
