//! The JSON decoding that the log analyses need beyond the commit actions.
use vstd::prelude::*;

verus! {

/// The list of strings that the JSON text `s` denotes, when `s` is exactly a
/// JSON array of strings (what `serde_json::from_str::<Vec<String>>` accepts).
pub uninterp spec fn spec_json_string_list(s: Seq<char>) -> Option<Seq<Seq<char>>>;

/// `serde_json::from_str::<Vec<String>>`. The contract claims that the call
/// succeeds exactly when the named decoding of `s` exists, and then returns the
/// strings of that decoding, in order; why a decoding fails is not kept.
#[verifier::external_body]
pub(crate) fn parse_json_string_list(s: &str) -> (r: Option<Vec<String>>)
    ensures
        match r {
            Some(v) => spec_json_string_list(s@) == Some(v@.map_values(|x: String| x@)),
            None => spec_json_string_list(s@) is None,
        },
{
    serde_json::from_str::<Vec<String>>(s).ok()
}

/// The string that the JSON text `s` denotes, when `s` is exactly a JSON
/// string (what `serde_json::from_str::<String>` accepts).
pub uninterp spec fn spec_json_string(s: Seq<char>) -> Option<Seq<char>>;

/// `serde_json::from_str::<String>`. The contract claims that the call
/// succeeds exactly when the named decoding of `s` exists, and then returns
/// that string; why a decoding fails is not kept.
#[verifier::external_body]
pub(crate) fn parse_json_string(s: &str) -> (r: Option<String>)
    ensures
        match r {
            Some(v) => spec_json_string(s@) == Some(v@),
            None => spec_json_string(s@) is None,
        },
{
    serde_json::from_str::<String>(s).ok()
}

} // verus!
