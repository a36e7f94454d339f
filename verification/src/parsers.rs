//! The parser capability: turns raw text or bytes into a two-level
//! category → key → string mapping. The concrete format is JSON, parsed by
//! serde_json behind trusted wrappers.

use vstd::prelude::*;

use crate::dict::Dict;
use crate::data_wf;
use crate::DataView;
use crate::Error;
use crate::LanguageData;

verus! {

/// What serde_json yields when a text payload is deserialized as a
/// two-level map of strings: `Some` exactly on JSON text of that shape, and
/// then the category → key → value mapping the text denotes.
pub uninterp spec fn json_language(s: Seq<char>) -> Option<DataView>;

/// What serde_json yields when a byte payload is deserialized as a
/// two-level map of strings.
pub uninterp spec fn json_language_bytes(b: Seq<u8>) -> Option<DataView>;

/// Relies on `serde_json::from_str::<BTreeMap<String, BTreeMap<String,
/// String>>>`: it succeeds exactly on JSON text denoting a two-level map of
/// strings, and a `BTreeMap` holds each key once.
#[verifier::external_body]
fn parse_str_raw(s: &str) -> (r: Option<LanguageData>)
    ensures
        r is Some <==> json_language(s@) is Some,
        r matches Some(d) ==> data_wf(d) && Some(d@) == json_language(s@),
{
    let parsed: std::collections::BTreeMap<String, std::collections::BTreeMap<String, String>> =
        serde_json::from_str(s).ok()?;
    let mut items = Vec::new();
    for (name, category) in parsed {
        let pairs: Vec<(String, String)> = category.into_iter().collect();
        items.push((name, Dict { items: pairs }));
    }
    Some(Dict { items })
}

/// Relies on `serde_json::from_slice::<BTreeMap<String, BTreeMap<String,
/// String>>>`: as `from_str`, on bytes.
#[verifier::external_body]
fn parse_slice_raw(b: &[u8]) -> (r: Option<LanguageData>)
    ensures
        r is Some <==> json_language_bytes(b@) is Some,
        r matches Some(d) ==> data_wf(d) && Some(d@) == json_language_bytes(b@),
{
    let parsed: std::collections::BTreeMap<String, std::collections::BTreeMap<String, String>> =
        serde_json::from_slice(b).ok()?;
    let mut items = Vec::new();
    for (name, category) in parsed {
        let pairs: Vec<(String, String)> = category.into_iter().collect();
        items.push((name, Dict { items: pairs }));
    }
    Some(Dict { items })
}

/// Deserializes a JSON string into a language.
pub fn parse_from_str(s: &str) -> (r: Result<LanguageData, Error>)
    ensures
        r is Ok <==> json_language(s@) is Some,
        r matches Ok(d) ==> data_wf(d) && Some(d@) == json_language(s@),
        r matches Err(e) ==> e is Json,
{
    match parse_str_raw(s) {
        Some(d) => Ok(d),
        None => Err(Error::Json),
    }
}

/// Deserializes a JSON slice into a language.
pub fn parse_from_slice(b: &[u8]) -> (r: Result<LanguageData, Error>)
    ensures
        r is Ok <==> json_language_bytes(b@) is Some,
        r matches Ok(d) ==> data_wf(d) && Some(d@) == json_language_bytes(b@),
        r matches Err(e) ==> e is Json,
{
    match parse_slice_raw(b) {
        Some(d) => Ok(d),
        None => Err(Error::Json),
    }
}

} // verus!
