//! Whether a text is a JSON document, through `serde_json`.

use vstd::prelude::*;

verus! {

/// Whether `serde_json` parses `text` as one JSON value.
pub uninterp spec fn json_parses(text: Seq<char>) -> bool;

/// Relies on `serde_json::from_str` into `serde_json::Value`: `Ok` exactly
/// when the text is one JSON value.
#[verifier::external_body]
pub(crate) fn is_json(text: &str) -> (r: bool)
    ensures
        r == json_parses(text@),
{
    serde_json::from_str::<serde_json::Value>(text).is_ok()
}

} // verus!
