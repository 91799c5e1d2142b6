//! Physical constants and the bounds of the fixed-point world.
//!
//! The simulation works on integer world units. The limits below keep every
//! intermediate product of the force, aggregation and integration formulas
//! inside `i128`, so all arithmetic in the crate is proved exact.

use vstd::prelude::*;

verus! {

/// Largest magnitude of a body coordinate (per axis).
pub const COORD_LIMIT: i64 = 1_000_000_000_000;

/// Largest magnitude of a velocity component (per axis).
pub const VEL_LIMIT: i64 = 1_000_000_000_000;

/// Largest magnitude of an accumulated force component (per axis).
pub const FORCE_LIMIT: i64 = 1_000_000_000_000_000_000;

/// Largest mass of a single body.
pub const MASS_LIMIT: i64 = 1_000_000;

/// Largest collision radius of a single body.
pub const RADIUS_LIMIT: i64 = 1_000_000;

/// Largest number of bodies a spatial index is built from.
pub const MAX_BODIES: usize = 1_000_000;

/// Largest aggregate mass of a subtree: `MAX_BODIES * MASS_LIMIT`.
pub const AGG_MASS_LIMIT: i64 = 1_000_000_000_000;

/// Largest numerator or denominator of a configured ratio (gravity, theta).
pub const RATIO_LIMIT: i64 = 1_000_000;

/// Smallest distance from the galactic center at which the generator seeds
/// an orbiting body.
pub const ORBIT_MIN_RADIUS: i64 = 10;

/// Largest galaxy radius the generator accepts; keeps every seeded
/// velocity component within `VEL_LIMIT`.
pub const GALAXY_RADIUS_LIMIT: i64 = 1_000_000;

/// Largest softening length.
pub const SOFTENING_LIMIT: i64 = 1_000_000;

/// The physical constants of a simulation, threaded explicitly through index
/// construction, force evaluation and seeding so the core stays testable with
/// varied parameters.
///
/// The gravitational constant and the opening-angle threshold are rationals
/// `gravity_num / gravity_den` and `theta_num / theta_den`.
#[derive(Clone, Copy, PartialEq, Eq, Structural, Debug)]
pub struct SimConfig {
    pub gravity_num: i64,
    pub gravity_den: i64,
    pub softening: i64,
    pub theta_num: i64,
    pub theta_den: i64,
}

impl SimConfig {
    /// All constants within the ranges the arithmetic of the crate is proved
    /// against.
    pub open spec fn valid(self) -> bool {
        &&& 0 <= self.gravity_num <= RATIO_LIMIT
        &&& 1 <= self.gravity_den <= RATIO_LIMIT
        &&& 0 <= self.softening <= SOFTENING_LIMIT
        &&& 0 <= self.theta_num <= RATIO_LIMIT
        &&& 1 <= self.theta_den <= RATIO_LIMIT
    }

    pub fn new(
        gravity_num: i64,
        gravity_den: i64,
        softening: i64,
        theta_num: i64,
        theta_den: i64,
    ) -> (cfg: SimConfig)
        requires
            0 <= gravity_num <= RATIO_LIMIT,
            1 <= gravity_den <= RATIO_LIMIT,
            0 <= softening <= SOFTENING_LIMIT,
            0 <= theta_num <= RATIO_LIMIT,
            1 <= theta_den <= RATIO_LIMIT,
        ensures
            cfg == (SimConfig { gravity_num, gravity_den, softening, theta_num, theta_den }),
            cfg.valid(),
    {
        SimConfig { gravity_num, gravity_den, softening, theta_num, theta_den }
    }
}

} // verus!
