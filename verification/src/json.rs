//! Reading a translation file: a JSON object whose values are strings.

use vstd::prelude::*;
use std::collections::BTreeMap;

verus! {

/// The pairs of key and value of the JSON object that `text` holds, or `None` where
/// `text` is not a JSON object whose values are all strings.
///
/// This names what `serde_json::from_str` makes of `text` when asked for a map from
/// string to string that is ordered by its keys: each key of the object once, with the
/// value that the text gives it last, the keys in ascending order.
pub uninterp spec fn json_entries(text: Seq<char>) -> Option<Seq<(Seq<char>, Seq<char>)>>;

/// The characters of each key and value of `pairs`.
pub open spec fn pairs_view(pairs: Seq<(String, String)>) -> Seq<(Seq<char>, Seq<char>)> {
    Seq::new(pairs.len(), |i: int| (pairs[i].0@, pairs[i].1@))
}

/// Parses `text` with `serde_json::from_str` into a `BTreeMap<String, String>` and hands
/// out the pairs of that map in its order. The map is one that is ordered by its keys, so
/// that one text gives the same pairs in the same order on every run.
///
/// Not proved: that the pairs are `json_entries` of the text, and that the call fails
/// exactly where `json_entries` is `None`.
#[verifier::external_body]
pub(crate) fn parse_entries(text: &str) -> (parsed: Result<Vec<(String, String)>, serde_json::Error>)
    ensures
        match parsed {
            Ok(pairs) => json_entries(text@) == Some(pairs_view(pairs@)),
            Err(_) => json_entries(text@) is None,
        },
{
    serde_json::from_str::<BTreeMap<String, String>>(text).map(|object| object.into_iter().collect())
}

} // verus!
