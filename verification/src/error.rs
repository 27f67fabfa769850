//! The two ways in which reading a grid reference fails.

use vstd::prelude::*;

verus! {

/// The grid reference does not have one of the accepted lengths.
#[derive(Clone, Copy, Debug, PartialEq, Eq, Structural)]
pub struct MalformedCoordinates {}

/// The grid reference has an accepted length but holds a byte that is not a
/// decimal digit.
#[derive(Clone, Copy, Debug, PartialEq, Eq, Structural)]
pub struct InvalidDigit {
    /// Offset of the first such byte in the grid reference.
    pub position: usize,
}

/// Why a grid reference could not be read.
#[derive(Clone, Copy, Debug, PartialEq, Eq, Structural)]
pub enum CoordParseError {
    MalformedCoordinates(MalformedCoordinates),
    ParseError(InvalidDigit),
}

impl MalformedCoordinates {
    /// A short text for the failure.
    pub fn description(&self) -> (text: &'static str)
        ensures
            text@ == "Malformed Coordinates"@,
    {
        "Malformed Coordinates"
    }
}

impl InvalidDigit {
    /// A short text for the failure.
    pub fn description(&self) -> (text: &'static str)
        ensures
            text@ == "invalid digit found in string"@,
    {
        "invalid digit found in string"
    }
}

impl CoordParseError {
    /// The text of the failure that this error wraps.
    pub fn description(&self) -> (text: &'static str)
        ensures
            text@ == match *self {
                CoordParseError::MalformedCoordinates(_) => "Malformed Coordinates"@,
                CoordParseError::ParseError(_) => "invalid digit found in string"@,
            },
    {
        match self {
            CoordParseError::MalformedCoordinates(err) => err.description(),
            CoordParseError::ParseError(err) => err.description(),
        }
    }
}

} // verus!
