use vstd::prelude::*;
use vstd::string::StringExecFns;
use crate::error::CellError;

verus! {

/// The unit in which a distance is asked for.
#[derive(Clone, Copy, Debug, PartialEq, Eq, Structural)]
pub enum DistanceUnit {
    /// Metres: the angle times the radius of the sphere.
    Meters,
    /// Kilometres: the distance in metres divided by 1000.
    Kilometers,
    /// Radians: the angle itself.
    Radians,
}

/// Whether `c` is white space as Unicode's property `White_Space` lists it.
pub open spec fn is_white_space(c: char) -> bool {
    let n = c as u32;
    (0x09 <= n && n <= 0x0d) || n == 0x20 || n == 0x85 || n == 0xa0 || n == 0x1680 || (0x2000 <= n
        && n <= 0x200a) || n == 0x2028 || n == 0x2029 || n == 0x202f || n == 0x205f || n == 0x3000
}

/// `s` without the white space at its start.
pub open spec fn trim_start_spec(s: Seq<char>) -> Seq<char>
    decreases s.len(),
{
    if s.len() > 0 && is_white_space(s.first()) {
        trim_start_spec(s.drop_first())
    } else {
        s
    }
}

/// `s` without the white space at its end.
pub open spec fn trim_end_spec(s: Seq<char>) -> Seq<char>
    decreases s.len(),
{
    if s.len() > 0 && is_white_space(s.last()) {
        trim_end_spec(s.drop_last())
    } else {
        s
    }
}

/// `s` without the white space at its two ends.
pub open spec fn trim_spec(s: Seq<char>) -> Seq<char> {
    trim_end_spec(trim_start_spec(s))
}

/// `c` in lower case if it is one of `A` to `Z`, else `c`.
pub open spec fn ascii_lower_char(c: char) -> char {
    if 'A' <= c && c <= 'Z' {
        (c as u8 + 32) as char
    } else {
        c
    }
}

/// `s` with each of its letters `A` to `Z` in lower case.
pub open spec fn ascii_lowercase(s: Seq<char>) -> Seq<char> {
    Seq::new(s.len(), |i: int| ascii_lower_char(s[i]))
}

/// The unit that a text names, whatever the case of its letters and the white
/// space around it.
pub open spec fn unit_spec(s: Seq<char>) -> Result<DistanceUnit, CellError> {
    let name = ascii_lowercase(trim_spec(s));
    if name == seq!['m'] {
        Ok(DistanceUnit::Meters)
    } else if name == seq!['k', 'm'] {
        Ok(DistanceUnit::Kilometers)
    } else if name == seq!['r', 'a', 'd'] {
        Ok(DistanceUnit::Radians)
    } else {
        Err(CellError::InvalidUnit)
    }
}

/// What `distance_unit` answers: points out of range are refused before the unit
/// is read.
pub open spec fn distance_unit_spec(points_valid: bool, s: Seq<char>) -> Result<
    DistanceUnit,
    CellError,
> {
    if !points_valid {
        Err(CellError::InvalidLatLng)
    } else {
        unit_spec(s)
    }
}

impl DistanceUnit {
    /// By what the distance in metres is divided for this unit; `None` for radians,
    /// where the angle is not scaled by the radius at all.
    pub open spec fn divisor_spec(self) -> Option<u32> {
        match self {
            DistanceUnit::Meters => Some(1u32),
            DistanceUnit::Kilometers => Some(1000u32),
            DistanceUnit::Radians => None,
        }
    }

    pub fn divisor(self) -> (d: Option<u32>)
        ensures
            d == self.divisor_spec(),
    {
        match self {
            DistanceUnit::Meters => Some(1),
            DistanceUnit::Kilometers => Some(1000),
            DistanceUnit::Radians => None,
        }
    }
}

/// Trusted: `str::trim`, which drops the white space at the two ends of a text.
#[verifier::external_body]
fn trim_text(text: &str) -> (trimmed: &str)
    ensures
        trimmed@ == trim_spec(text@),
{
    text.trim()
}

/// Trusted: `str::to_ascii_lowercase`, which maps `A` to `Z` to lower case and
/// leaves every other character.
#[verifier::external_body]
fn lower_text(text: &str) -> (lowered: String)
    ensures
        lowered@ == ascii_lowercase(text@),
{
    text.to_ascii_lowercase()
}

/// The unit that `text` names: `m`, `km` or `rad`, in any case and with white
/// space around it; `InvalidUnit` for anything else.
pub fn parse_unit(text: &str) -> (res: Result<DistanceUnit, CellError>)
    ensures
        res == unit_spec(text@),
{
    let name = lower_text(trim_text(text));
    proof {
        reveal_strlit("m");
        reveal_strlit("km");
        reveal_strlit("rad");
        assert("m"@ =~= seq!['m']);
        assert("km"@ =~= seq!['k', 'm']);
        assert("rad"@ =~= seq!['r', 'a', 'd']);
    }
    if name == String::from_str("m") {
        Ok(DistanceUnit::Meters)
    } else if name == String::from_str("km") {
        Ok(DistanceUnit::Kilometers)
    } else if name == String::from_str("rad") {
        Ok(DistanceUnit::Radians)
    } else {
        Err(CellError::InvalidUnit)
    }
}

/// The unit of a distance between two points: `points_valid` says whether both
/// points are in range, which is looked at before the unit.
pub fn distance_unit(points_valid: bool, unit: &str) -> (res: Result<DistanceUnit, CellError>)
    ensures
        res == distance_unit_spec(points_valid, unit@),
{
    if !points_valid {
        return Err(CellError::InvalidLatLng);
    }
    parse_unit(unit)
}

/// The unit of a distance where the caller names none: metres.
pub fn default_distance_unit(points_valid: bool) -> (res: Result<DistanceUnit, CellError>)
    ensures
        res == distance_unit_spec(points_valid, "m"@),
        points_valid ==> res == Ok::<DistanceUnit, CellError>(DistanceUnit::Meters),
        !points_valid ==> res == Err::<DistanceUnit, CellError>(CellError::InvalidLatLng),
{
    proof {
        reveal_strlit("m");
        let name = "m"@;
        assert(name =~= seq!['m']);
        assert(!is_white_space('m'));
        assert(trim_spec(name) =~= name);
        assert(ascii_lowercase(name) =~= seq!['m']);
    }
    distance_unit(points_valid, "m")
}

} // verus!
