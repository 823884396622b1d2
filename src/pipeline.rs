//! From a dataset's source text to its checked JSON document.

use vstd::prelude::*;
use crate::error::ParseError;
use crate::extract::{extract_block, extraction, Scan};
use crate::json::{is_json, json_parses};
use crate::rules::DatasetSpec;
use crate::text::join_lines;
use crate::transform::string_result_view;

verus! {

/// The JSON document that `source` yields for `ds`, or why there is none.
pub open spec fn normalized(ds: DatasetSpec, source: Seq<char>) -> Result<Seq<char>, ParseError> {
    match extraction(ds, source) {
        Scan::Seeking => Err(ParseError::MissingBlock),
        Scan::Capturing { .. } => Err(ParseError::UnterminatedBlock),
        Scan::Failed { err } => Err(err),
        Scan::Done { frags } => {
            if json_parses(join_lines(frags)) {
                Ok(join_lines(frags))
            } else {
                Err(ParseError::InvalidJson)
            }
        },
    }
}

/// Extracts the block of `ds` from `source` and checks that it is JSON.
pub fn normalize_source(ds: &DatasetSpec, source: &str) -> (r: Result<String, ParseError>)
    ensures
        string_result_view(r) == normalized(*ds, source@),
{
    match extract_block(ds, source) {
        Ok(Some(doc)) => {
            if is_json(doc.as_str()) {
                Ok(doc)
            } else {
                Err(ParseError::InvalidJson)
            }
        },
        Ok(None) => Err(ParseError::MissingBlock),
        Err(e) => Err(e),
    }
}

/// Turns the source of each dataset into its JSON document; a failure in one
/// dataset leaves the others to be tried.
pub fn deserialize_textage_data(specs: &Vec<DatasetSpec>, sources: &Vec<String>) -> (r: Vec<
    Result<String, ParseError>,
>)
    requires
        specs.len() == sources.len(),
    ensures
        r@.len() == specs@.len(),
        forall|i: int|
            0 <= i < r@.len() ==> string_result_view(#[trigger] r@[i]) == normalized(
                specs@[i],
                sources@[i]@,
            ),
{
    let mut r: Vec<Result<String, ParseError>> = Vec::new();
    let mut i: usize = 0;
    while i < specs.len()
        invariant
            i <= specs.len() == sources.len(),
            r@.len() == i,
            forall|k: int|
                0 <= k < i ==> string_result_view(#[trigger] r@[k]) == normalized(
                    specs@[k],
                    sources@[k]@,
                ),
        decreases specs.len() - i,
    {
        r.push(normalize_source(&specs[i], sources[i].as_str()));
        i = i + 1;
    }
    r
}

} // verus!
