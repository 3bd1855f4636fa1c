//! Validation of a contest's configuration.

use crate::dice::Dice;
use vstd::prelude::*;

verus! {

/// A configuration that no contest can be run on.
#[derive(Clone, Copy, PartialEq, Eq, Debug, Structural)]
pub enum ConfigError {
    /// A die code outside the catalog's codes.
    UnknownDieCode,
    /// A sample count below one.
    NonPositiveSamples,
    /// A roll count below one.
    NonPositiveRolls,
}

/// One simulation unit: which dice meet, how many of each are summed per
/// trial, and how many trials are run.
#[derive(Clone, Copy, PartialEq, Eq, Debug, Structural)]
pub struct ContestSpec {
    pub a: Dice,
    pub b: Dice,
    pub a_rolls: usize,
    pub b_rolls: usize,
    pub samples: u32,
}

impl ContestSpec {
    /// Every count is at least one.
    pub open spec fn valid(self) -> bool {
        self.a_rolls >= 1 && self.b_rolls >= 1 && self.samples >= 1
    }

    /// Validates the counts; the sample count is checked first.
    pub fn new(a: Dice, b: Dice, a_rolls: i32, b_rolls: i32, samples: u32) -> (r: Result<
        ContestSpec,
        ConfigError,
    >)
        ensures
            samples == 0 ==> r == Err::<ContestSpec, ConfigError>(ConfigError::NonPositiveSamples),
            samples > 0 && (a_rolls <= 0 || b_rolls <= 0) ==> r == Err::<ContestSpec, ConfigError>(
                ConfigError::NonPositiveRolls,
            ),
            samples > 0 && a_rolls > 0 && b_rolls > 0 ==> (r matches Ok(s) && s.valid() && s.a == a
                && s.b == b && s.a_rolls == a_rolls && s.b_rolls == b_rolls && s.samples == samples),
    {
        if samples == 0 {
            Err(ConfigError::NonPositiveSamples)
        } else if a_rolls <= 0 || b_rolls <= 0 {
            Err(ConfigError::NonPositiveRolls)
        } else {
            Ok(ContestSpec { a, b, a_rolls: a_rolls as usize, b_rolls: b_rolls as usize, samples })
        }
    }
}

} // verus!
