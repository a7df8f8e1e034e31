use vstd::prelude::*;
use vstd::string::StringExecFns;

verus! {

/// Why a call was refused. Every failure is the caller's input; none is retried.
#[derive(Clone, Copy, Debug, PartialEq, Eq, Structural)]
pub enum CellError {
    /// The text does not decode to a well-formed identifier.
    InvalidToken,
    /// The identifier's face or marker bit is out of place.
    InvalidIdentifier,
    /// The level is outside `0..=30`, or does not fit the identifier's own level.
    InvalidLevel,
    /// A latitude or longitude is out of range.
    InvalidLatLng,
    /// A cap's radius is negative.
    InvalidRadius,
    /// The cell budget is not positive.
    InvalidMaxCells,
    /// The distance unit is none of `m`, `km`, `rad`.
    InvalidUnit,
}

impl CellError {
    /// The message shown to the caller for this error.
    pub open spec fn message_spec(self) -> Seq<char> {
        match self {
            CellError::InvalidToken => "invalid s2cellid token"@,
            CellError::InvalidIdentifier => "invalid s2cellid"@,
            CellError::InvalidLevel => "invalid level"@,
            CellError::InvalidLatLng => "invalid latlng"@,
            CellError::InvalidRadius => "invalid radius"@,
            CellError::InvalidMaxCells => "invalid max_cells"@,
            CellError::InvalidUnit => "invalid unit"@,
        }
    }

    pub fn message(&self) -> (text: String)
        ensures
            text@ == self.message_spec(),
    {
        match self {
            CellError::InvalidToken => String::from_str("invalid s2cellid token"),
            CellError::InvalidIdentifier => String::from_str("invalid s2cellid"),
            CellError::InvalidLevel => String::from_str("invalid level"),
            CellError::InvalidLatLng => String::from_str("invalid latlng"),
            CellError::InvalidRadius => String::from_str("invalid radius"),
            CellError::InvalidMaxCells => String::from_str("invalid max_cells"),
            CellError::InvalidUnit => String::from_str("invalid unit"),
        }
    }
}

} // verus!
