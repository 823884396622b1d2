//! Regular-expression matching and substitution, through the `regex` crate.
//!
//! What a regular expression matches takes pages to state, so the results are
//! named here and the rest of the library speaks of those names.

use vstd::prelude::*;

verus! {

/// Whether `pattern` is accepted by `regex::Regex::new`.
pub uninterp spec fn pattern_compiles(pattern: Seq<char>) -> bool;

/// What `regex::Regex::replace_all` makes of `text` for `pattern` and `replacement`.
pub uninterp spec fn pattern_replaced(
    pattern: Seq<char>,
    text: Seq<char>,
    replacement: Seq<char>,
) -> Seq<char>;

/// Whether `regex::Regex::is_match` finds `pattern` in `text`.
pub uninterp spec fn pattern_found(pattern: Seq<char>, text: Seq<char>) -> bool;

/// The text of capture group `index` of the first match of `pattern` in
/// `text`, as `regex::Regex::captures` gives it; `None` where there is no match
/// or the group took no part in it.
pub uninterp spec fn pattern_group(pattern: Seq<char>, text: Seq<char>, index: nat) -> Option<
    Seq<char>,
>;

/// Relies on `regex::Regex::new` and `regex::Regex::replace_all`: every
/// non-overlapping match replaced, `$` references expanded; `None` where the
/// pattern does not compile.
#[verifier::external_body]
pub(crate) fn replace_matches(pattern: &str, text: &str, replacement: &str) -> (r: Option<String>)
    ensures
        r is Some <==> pattern_compiles(pattern@),
        r matches Some(s) ==> s@ == pattern_replaced(pattern@, text@, replacement@),
{
    match regex::Regex::new(pattern) {
        Ok(re) => Some(re.replace_all(text, replacement).into_owned()),
        Err(_) => None,
    }
}

/// Relies on `regex::Regex::new` and `regex::Regex::is_match`; `None` where
/// the pattern does not compile.
#[verifier::external_body]
pub(crate) fn find_match(pattern: &str, text: &str) -> (r: Option<bool>)
    ensures
        r is Some <==> pattern_compiles(pattern@),
        r matches Some(b) ==> b == pattern_found(pattern@, text@),
{
    match regex::Regex::new(pattern) {
        Ok(re) => Some(re.is_match(text)),
        Err(_) => None,
    }
}

/// Relies on `regex::Regex::new`, `regex::Regex::captures` and
/// `regex::Captures::get`; `None` where the pattern does not compile.
#[verifier::external_body]
pub(crate) fn capture_group(pattern: &str, text: &str, index: usize) -> (r: Option<Option<String>>)
    ensures
        r is Some <==> pattern_compiles(pattern@),
        r matches Some(g) ==> (g is Some <==> pattern_group(pattern@, text@, index as nat) is Some),
        r matches Some(Some(s)) ==> pattern_group(pattern@, text@, index as nat) == Some(s@),
{
    match regex::Regex::new(pattern) {
        Ok(re) => match re.captures(text) {
            Some(caps) => match caps.get(index) {
                Some(m) => Some(Some(m.as_str().to_string())),
                None => Some(None),
            },
            None => Some(None),
        },
        Err(_) => None,
    }
}

} // verus!
