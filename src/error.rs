//! The ways turning a dataset's source into JSON can fail.

use vstd::prelude::*;

verus! {

#[derive(Debug, Clone, Copy, PartialEq, Eq, Structural)]
pub enum ParseError {
    /// A line of a keyed block has no `:` between key and value.
    MalformedLine,
    /// The start marker was found, but no end marker after it.
    UnterminatedBlock,
    /// No line of the source matches the start marker.
    MissingBlock,
    /// A pattern of the dataset's rules is not a valid regular expression.
    InvalidPattern,
    /// The assembled text is not a JSON document.
    InvalidJson,
}

} // verus!
