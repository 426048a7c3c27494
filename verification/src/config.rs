//! Grid and physics configuration for the incremental diffusion solver.
//!
//! All quantities are fixed-point integers:
//! - temperatures are thousandths of a degree (`50_000` is 50 degrees);
//! - conductivity values are ten-millionths of the real unit;
//! - `mass_capacity` and `heat_speed` are thousandths;
//! - tick lengths are milliseconds.
use vstd::prelude::*;

verus! {

/// Largest magnitude a temperature may take, in thousandths of a degree.
pub const TEMP_LIMIT: i64 = 1_000_000;

/// Largest grid side and chunk side, in cells.
pub const GRID_DIM_LIMIT: usize = 4096;

/// Largest magnitude of the constant conductivity coefficient.
pub const COND_BASE_LIMIT: i64 = 1_000_000_000;

/// Largest magnitude of the linear conductivity coefficient.
pub const COND_LINEAR_LIMIT: i64 = 1_000_000;

/// Largest magnitude of the quadratic conductivity coefficient.
pub const COND_QUADRATIC_LIMIT: i64 = 10_000;

/// Largest admissible `mass_capacity`.
pub const MASS_CAPACITY_LIMIT: i64 = 1_000_000_000;

/// Largest admissible `heat_speed`.
pub const HEAT_SPEED_LIMIT: i64 = 1_000_000;

/// Longest tick the integrator accepts, in milliseconds (one hour).
pub const TICK_MILLIS_LIMIT: u64 = 3_600_000;

/// The linear conductivity coefficient is given per whole degree while
/// temperatures are in thousandths, so the linear term carries this divisor.
pub const LINEAR_UNIT: i64 = 1_000;

/// The quadratic conductivity coefficient is given per squared whole degree,
/// so the quadratic term carries this divisor.
pub const QUADRATIC_UNIT: i64 = 1_000_000;

/// Unit conversion between accumulated flux and temperature deltas: flux is
/// scaled by ten-millionths times thousandths, and the integrator multiplies
/// by two more thousandths (`heat_speed`, milliseconds) while `mass_capacity`
/// contributes one, leaving a net factor of 10^10 to divide away.
pub const FLUX_UNIT: i64 = 10_000_000_000;

/// Constant conductivity coefficient of the standard calibration.
pub const STANDARD_COND_BASE: i64 = 6_065_000;

/// Linear conductivity coefficient of the standard calibration.
pub const STANDARD_COND_LINEAR: i64 = -12_200;

/// Quadratic conductivity coefficient of the standard calibration.
pub const STANDARD_COND_QUADRATIC: i64 = 63;

/// Standard tile mass times heat capacity (one half, in thousandths).
pub const STANDARD_MASS_CAPACITY: i64 = 500;

/// Standard heat transfer speed (one, in thousandths).
pub const STANDARD_HEAT_SPEED: i64 = 1_000;

/// Standard lower temperature bound (zero degrees).
pub const STANDARD_MIN_HEAT: i64 = 0;

/// Standard upper temperature bound (one hundred degrees).
pub const STANDARD_MAX_HEAT: i64 = 100_000;

/// Fixed configuration of one solver instance: grid shape, chunking, the
/// conductivity polynomial, and the integration constants.
#[derive(Clone, Copy, Debug)]
pub struct Config {
    /// Grid width in cells.
    pub width: usize,
    /// Grid height in cells.
    pub height: usize,
    /// Side length of the square sub-region processed per tick.
    pub chunk_size: usize,
    /// Constant coefficient of the conductivity polynomial.
    pub cond_base: i64,
    /// Linear coefficient of the conductivity polynomial, per degree.
    pub cond_linear: i64,
    /// Quadratic coefficient of the conductivity polynomial, per squared degree.
    pub cond_quadratic: i64,
    /// Tile mass times tile heat capacity, in thousandths; must be positive.
    pub mass_capacity: i64,
    /// Heat transfer speed, in thousandths; must not be negative.
    pub heat_speed: i64,
    /// Lower clamp bound for temperatures, in thousandths of a degree.
    pub min_heat: i64,
    /// Upper clamp bound for temperatures, in thousandths of a degree.
    pub max_heat: i64,
}

/// Why a configuration was rejected at initialization.
#[derive(Clone, Copy, Debug, PartialEq, Eq, Structural)]
pub enum ConfigError {
    /// The grid width is zero.
    ZeroWidth,
    /// The grid height is zero.
    ZeroHeight,
    /// The chunk side is zero.
    ZeroChunkSize,
    /// `mass_capacity` is zero or negative; integration would divide by zero.
    NonPositiveMassCapacity,
    /// `heat_speed` is negative.
    NegativeHeatSpeed,
    /// `min_heat` exceeds `max_heat`, so clamping has no valid target.
    InvertedHeatBounds,
    /// A dimension, coefficient or bound exceeds the fixed-point headroom
    /// within which the solver's arithmetic is proven overflow-free.
    LimitExceeded,
    /// The seed field handed to the solver does not hold one temperature
    /// per grid cell.
    SeedCellCount,
}

impl Config {
    /// A configuration is valid when every quantity spec requires to be
    /// positive is positive, the clamp bounds are ordered, and everything
    /// stays inside the fixed-point headroom.
    pub open spec fn valid(self) -> bool {
        &&& 0 < self.width <= GRID_DIM_LIMIT
        &&& 0 < self.height <= GRID_DIM_LIMIT
        &&& 0 < self.chunk_size <= GRID_DIM_LIMIT
        &&& -COND_BASE_LIMIT <= self.cond_base <= COND_BASE_LIMIT
        &&& -COND_LINEAR_LIMIT <= self.cond_linear <= COND_LINEAR_LIMIT
        &&& -COND_QUADRATIC_LIMIT <= self.cond_quadratic <= COND_QUADRATIC_LIMIT
        &&& 0 < self.mass_capacity <= MASS_CAPACITY_LIMIT
        &&& 0 <= self.heat_speed <= HEAT_SPEED_LIMIT
        &&& -TEMP_LIMIT <= self.min_heat
        &&& self.min_heat <= self.max_heat
        &&& self.max_heat <= TEMP_LIMIT
    }

    /// The exact error reported for an invalid configuration, checking the
    /// conditions in a fixed order.
    pub open spec fn check_spec(self) -> Result<(), ConfigError> {
        if self.width == 0 {
            Err(ConfigError::ZeroWidth)
        } else if self.height == 0 {
            Err(ConfigError::ZeroHeight)
        } else if self.chunk_size == 0 {
            Err(ConfigError::ZeroChunkSize)
        } else if self.mass_capacity <= 0 {
            Err(ConfigError::NonPositiveMassCapacity)
        } else if self.heat_speed < 0 {
            Err(ConfigError::NegativeHeatSpeed)
        } else if self.min_heat > self.max_heat {
            Err(ConfigError::InvertedHeatBounds)
        } else if !self.valid() {
            Err(ConfigError::LimitExceeded)
        } else {
            Ok(())
        }
    }

    /// Checks the configuration, reporting the first violated condition.
    pub fn validate(&self) -> (r: Result<(), ConfigError>)
        ensures
            r == self.check_spec(),
            r is Ok <==> self.valid(),
    {
        if self.width == 0 {
            Err(ConfigError::ZeroWidth)
        } else if self.height == 0 {
            Err(ConfigError::ZeroHeight)
        } else if self.chunk_size == 0 {
            Err(ConfigError::ZeroChunkSize)
        } else if self.mass_capacity <= 0 {
            Err(ConfigError::NonPositiveMassCapacity)
        } else if self.heat_speed < 0 {
            Err(ConfigError::NegativeHeatSpeed)
        } else if self.min_heat > self.max_heat {
            Err(ConfigError::InvertedHeatBounds)
        } else if !(self.width <= GRID_DIM_LIMIT && self.height <= GRID_DIM_LIMIT
            && self.chunk_size <= GRID_DIM_LIMIT
            && -COND_BASE_LIMIT <= self.cond_base && self.cond_base <= COND_BASE_LIMIT
            && -COND_LINEAR_LIMIT <= self.cond_linear && self.cond_linear <= COND_LINEAR_LIMIT
            && -COND_QUADRATIC_LIMIT <= self.cond_quadratic
            && self.cond_quadratic <= COND_QUADRATIC_LIMIT
            && self.mass_capacity <= MASS_CAPACITY_LIMIT
            && self.heat_speed <= HEAT_SPEED_LIMIT
            && -TEMP_LIMIT <= self.min_heat && self.max_heat <= TEMP_LIMIT) {
            Err(ConfigError::LimitExceeded)
        } else {
            Ok(())
        }
    }

    /// A configuration for the given grid with the standard physical
    /// calibration: the water-like conductivity polynomial, half a unit of
    /// tile mass, unit heat capacity and speed, and a zero to one hundred
    /// degree clamp range.
    pub fn standard(width: usize, height: usize, chunk_size: usize) -> (c: Config)
        ensures
            c == (Config {
                width,
                height,
                chunk_size,
                cond_base: STANDARD_COND_BASE,
                cond_linear: STANDARD_COND_LINEAR,
                cond_quadratic: STANDARD_COND_QUADRATIC,
                mass_capacity: STANDARD_MASS_CAPACITY,
                heat_speed: STANDARD_HEAT_SPEED,
                min_heat: STANDARD_MIN_HEAT,
                max_heat: STANDARD_MAX_HEAT,
            }),
    {
        Config {
            width,
            height,
            chunk_size,
            cond_base: STANDARD_COND_BASE,
            cond_linear: STANDARD_COND_LINEAR,
            cond_quadratic: STANDARD_COND_QUADRATIC,
            mass_capacity: STANDARD_MASS_CAPACITY,
            heat_speed: STANDARD_HEAT_SPEED,
            min_heat: STANDARD_MIN_HEAT,
            max_heat: STANDARD_MAX_HEAT,
        }
    }
}

} // verus!
