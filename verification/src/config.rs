use vstd::prelude::*;
use crate::error::CellError;

verus! {

/// The level of `point_to_cell` where the caller names none.
pub const DEFAULT_LEVEL: i32 = 14;

/// The level of a covering where the caller names none.
pub const DEFAULT_COVER_LEVEL: i32 = 12;

/// The settings that stand in for a level the caller leaves out: a snapshot that
/// is handed to each call that needs it. Both levels lie in `0..=30`. The radius
/// of the sphere is no level and no integer, and is kept by the caller.
#[derive(Clone, Copy, Debug)]
pub struct Config {
    default_level: i32,
    default_cover_level: i32,
}

/// A result with the settings, if there are any, as their two levels.
pub open spec fn config_result(res: Result<Config, CellError>) -> Result<(int, int), CellError> {
    match res {
        Ok(config) => Ok(
            (config.default_level_spec() as int, config.default_cover_level_spec() as int),
        ),
        Err(e) => Err(e),
    }
}

impl Config {
    #[verifier::type_invariant]
    spec fn in_range(&self) -> bool {
        0 <= self.default_level <= 30 && 0 <= self.default_cover_level <= 30
    }

    /// The level of a cell for a point where the caller names none.
    pub closed spec fn default_level_spec(&self) -> i32 {
        self.default_level
    }

    /// The level of a covering where the caller names none.
    pub closed spec fn default_cover_level_spec(&self) -> i32 {
        self.default_cover_level
    }

    /// The settings as they stand before anyone changes them: level 14 for
    /// points, level 12 for coverings.
    pub fn new() -> (config: Config)
        ensures
            config.default_level_spec() == DEFAULT_LEVEL,
            config.default_cover_level_spec() == DEFAULT_COVER_LEVEL,
    {
        Config { default_level: DEFAULT_LEVEL, default_cover_level: DEFAULT_COVER_LEVEL }
    }

    /// These settings with another level for points; a level outside `0..=30` is
    /// refused.
    pub fn with_default_level(self, level: i32) -> (res: Result<Config, CellError>)
        ensures
            0 <= level <= 30 ==> config_result(res) == Ok::<(int, int), CellError>(
                (level as int, self.default_cover_level_spec() as int),
            ),
            !(0 <= level <= 30) ==> res is Err && res->Err_0 == CellError::InvalidLevel,
    {
        if level < 0 || level > 30 {
            return Err(CellError::InvalidLevel);
        }
        proof {
            use_type_invariant(&self);
        }
        Ok(Config { default_level: level, default_cover_level: self.default_cover_level })
    }

    /// These settings with another level for coverings; a level outside `0..=30`
    /// is refused.
    pub fn with_default_cover_level(self, level: i32) -> (res: Result<Config, CellError>)
        ensures
            0 <= level <= 30 ==> config_result(res) == Ok::<(int, int), CellError>(
                (self.default_level_spec() as int, level as int),
            ),
            !(0 <= level <= 30) ==> res is Err && res->Err_0 == CellError::InvalidLevel,
    {
        if level < 0 || level > 30 {
            return Err(CellError::InvalidLevel);
        }
        proof {
            use_type_invariant(&self);
        }
        Ok(Config { default_level: self.default_level, default_cover_level: level })
    }

    pub fn default_level(&self) -> (level: i32)
        ensures
            level == self.default_level_spec(),
            0 <= level <= 30,
    {
        proof {
            use_type_invariant(self);
        }
        self.default_level
    }

    pub fn default_cover_level(&self) -> (level: i32)
        ensures
            level == self.default_cover_level_spec(),
            0 <= level <= 30,
    {
        proof {
            use_type_invariant(self);
        }
        self.default_cover_level
    }
}

} // verus!
