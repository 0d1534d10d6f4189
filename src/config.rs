use vstd::prelude::*;

verus! {

/// Dimensions and thresholds of a simulation.
///
/// A cell is alive when its value is at least `live_value`, dormant when it
/// is zero and decaying in between. A cell that is not kept alive loses
/// `death_step` each generation.
#[derive(Clone, Copy, Debug, PartialEq, Eq, Structural)]
pub struct Config {
    pub width: usize,
    pub height: usize,
    pub live_value: u8,
    pub death_step: u8,
}

/// Why a configuration was refused.
#[derive(Clone, Copy, Debug, PartialEq, Eq, Structural)]
pub enum ConfigError {
    /// The width or the height is zero.
    EmptyDimension,
    /// The grid holds more cells than an index can address.
    TooManyCells,
    /// The decay step is zero or does not divide the live value evenly.
    UnevenDeathStep,
}

impl Config {
    /// Number of cells of the grid.
    pub open spec fn cells(self) -> int {
        self.width * self.height
    }

    /// A configuration that the engine accepts.
    pub open spec fn wf(self) -> bool {
        &&& self.width > 0
        &&& self.height > 0
        &&& self.cells() <= isize::MAX
        &&& self.death_step > 0
        &&& self.live_value % self.death_step == 0
    }

    /// Checks the configuration once, before any grid is built from it.
    pub fn new(width: usize, height: usize, live_value: u8, death_step: u8) -> (r: Result<
        Config,
        ConfigError,
    >)
        ensures
            width == 0 || height == 0 ==> r == Err::<Config, ConfigError>(
                ConfigError::EmptyDimension,
            ),
            width > 0 && height > 0 && width * height > isize::MAX ==> r == Err::<
                Config,
                ConfigError,
            >(ConfigError::TooManyCells),
            width > 0 && height > 0 && width * height <= isize::MAX && (death_step == 0
                || live_value % death_step != 0) ==> r == Err::<Config, ConfigError>(
                ConfigError::UnevenDeathStep,
            ),
            r is Ok ==> r->Ok_0 == (Config { width, height, live_value, death_step }),
            r is Ok <==> (Config { width, height, live_value, death_step }).wf(),
    {
        if width == 0 || height == 0 {
            return Err(ConfigError::EmptyDimension);
        }
        match width.checked_mul(height) {
            Some(n) => {
                if n > isize::MAX as usize {
                    return Err(ConfigError::TooManyCells);
                }
            },
            None => {
                return Err(ConfigError::TooManyCells);
            },
        }
        if death_step == 0 || live_value % death_step != 0 {
            return Err(ConfigError::UnevenDeathStep);
        }
        Ok(Config { width, height, live_value, death_step })
    }
}

} // verus!
