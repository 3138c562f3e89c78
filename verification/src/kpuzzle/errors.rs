use vstd::prelude::*;

use crate::alg::parse::AlgParseError;

verus! {

/// An error in the structure of a puzzle definition (an oversized
/// orientation count, or a recursive derived-move definition). Permanent:
/// a definition that fails construction is never usable.
#[derive(Debug)]
pub struct InvalidDefinitionError {
    pub description: String,
}

impl<'a> From<&'a str> for InvalidDefinitionError {
    fn from(description: &'a str) -> (r: Self) {
        InvalidDefinitionError { description: description.to_owned() }
    }
}

impl<'a> vstd::std_specs::convert::FromSpecImpl<&'a str> for InvalidDefinitionError {
    open spec fn obeys_from_spec() -> bool {
        false
    }

    open spec fn from_spec(description: &'a str) -> Self {
        InvalidDefinitionError { description: arbitrary() }
    }
}

impl From<String> for InvalidDefinitionError {
    fn from(description: String) -> (r: Self) {
        InvalidDefinitionError { description }
    }
}

impl vstd::std_specs::convert::FromSpecImpl<String> for InvalidDefinitionError {
    open spec fn obeys_from_spec() -> bool {
        true
    }

    open spec fn from_spec(description: String) -> Self {
        InvalidDefinitionError { description }
    }
}

/// An error resolving one move against a puzzle: the identity is in
/// neither the primitive nor the derived table. Local to the lookup; the
/// puzzle stays usable.
#[derive(Debug)]
pub struct InvalidMoveError {
    pub description: String,
}

impl<'a> From<&'a str> for InvalidMoveError {
    fn from(description: &'a str) -> (r: Self) {
        InvalidMoveError { description: description.to_owned() }
    }
}

impl<'a> vstd::std_specs::convert::FromSpecImpl<&'a str> for InvalidMoveError {
    open spec fn obeys_from_spec() -> bool {
        false
    }

    open spec fn from_spec(description: &'a str) -> Self {
        InvalidMoveError { description: arbitrary() }
    }
}

impl From<String> for InvalidMoveError {
    fn from(description: String) -> (r: Self) {
        InvalidMoveError { description }
    }
}

impl vstd::std_specs::convert::FromSpecImpl<String> for InvalidMoveError {
    open spec fn obeys_from_spec() -> bool {
        true
    }

    open spec fn from_spec(description: String) -> Self {
        InvalidMoveError { description }
    }
}

/// An error from parsing and evaluating an alg in one step: either the
/// text did not parse, or a move in it did not resolve.
#[derive(Debug)]
pub enum InvalidAlgError {
    AlgParse(AlgParseError),
    InvalidMove(InvalidMoveError),
}

/// An error converting externally supplied data into a puzzle value.
#[derive(Debug)]
pub enum ConversionError {
    InvalidAlg(InvalidAlgError),
    InvalidDefinition(InvalidDefinitionError),
    InvalidKPatternData(InvalidKPatternDataError),
    InvalidKTransformationData(InvalidKTransformationDataError),
}

/// An error in externally supplied pattern data: a missing or oversized
/// orbit, or an orientation that does not fit its modulus.
#[derive(Debug)]
pub struct InvalidKPatternDataError {
    pub description: String,
}

/// An error in externally supplied transformation data: a missing or
/// mis-shaped orbit, or values outside the orbit's ranges.
#[derive(Debug)]
pub struct InvalidKTransformationDataError {
    pub description: String,
}

} // verus!
