use vstd::prelude::*;

verus! {

/// Number of fixed-point steps per simulation unit: a stored value of
/// `SCALE` means `1.0` in simulation units.
pub const SCALE: i64 = 1000;

/// Default gravitational constant `G` (`10.0` in simulation units).
pub const DEFAULT_G: i64 = 10_000;

/// Default charge-force constant `K` (`10.0` in simulation units).
pub const DEFAULT_K: i64 = 10_000;

/// Default minimum distance used by the soft-core clamp (`4.0` units).
pub const DEFAULT_D_MIN: i64 = 4_000;

/// Default timestep per frame (`0.01` units).
pub const DEFAULT_DT: i64 = 10;

/// Default drag multiplier applied to velocity (`1.0`: drag disabled).
pub const DEFAULT_DRAG: i64 = 1000;

/// Default population cap.
pub const DEFAULT_CAP: usize = 2048;

/// Largest magnitude a position or velocity component may have for the
/// force computation to be free of overflow (one million units).
pub const MAX_POS: i64 = 1_000_000_000;

/// Largest mass a particle may have (one hundred units).
pub const MAX_MASS: i64 = 100_000;

/// Largest charge magnitude a particle may have (one hundred units).
pub const MAX_CHARGE: i64 = 100_000;

/// Largest value of the force constants `g` and `k` (one hundred units).
pub const MAX_GK: i64 = 100_000;

/// Smallest admissible distance clamp (one unit).
pub const MIN_D_MIN: i64 = 1_000;

/// Largest admissible distance clamp (one million units).
pub const MAX_D_MIN: i64 = 1_000_000_000;

/// Largest admissible timestep (one unit).
pub const MAX_DT: i64 = 1_000;

/// Largest admissible population cap.
pub const MAX_CAP: usize = 1_000_000;

/// Largest force component one pair of particles can contribute under the
/// bounds above: each of the gravity and charge terms is at most
/// `MAX_GK * MAX_MASS * MAX_MASS / (MIN_D_MIN * MIN_D_MIN)`.
pub const PAIR_FORCE_MAX: i64 = 2_000_000_000;

/// Largest net force component over a whole particle set:
/// `MAX_CAP * PAIR_FORCE_MAX`.
pub const FORCE_MAX: i64 = 2_000_000_000_000_000;

/// The simulation's constants, fixed for the lifetime of a run.
///
/// The defaults mirror the classic setup: `G = K = 10.0`, a distance clamp
/// of `4.0`, a timestep of `0.01`, drag disabled, and a cap of `2048`
/// particles.
#[derive(Clone, Copy, PartialEq, Eq, Structural)]
pub struct SimConfig {
    /// Gravitational constant, fixed-point.
    pub g: i64,
    /// Charge-force constant, fixed-point.
    pub k: i64,
    /// Soft-core distance clamp, fixed-point.
    pub d_min: i64,
    /// Timestep per frame, fixed-point.
    pub dt: i64,
    /// Drag multiplier applied to velocity each step, fixed-point
    /// (`SCALE` means no drag).
    pub drag: i64,
    /// Population cap: the spawner never grows the set beyond this.
    pub cap: usize,
}

impl SimConfig {
    /// The bounds under which every arithmetic step of the engine stays
    /// within machine integers.
    pub open spec fn wf(self) -> bool {
        &&& 0 <= self.g <= MAX_GK
        &&& 0 <= self.k <= MAX_GK
        &&& MIN_D_MIN <= self.d_min <= MAX_D_MIN
        &&& 1 <= self.dt <= MAX_DT
        &&& 0 <= self.drag <= SCALE
        &&& self.cap <= MAX_CAP
    }
}

impl Default for SimConfig {
    /// The documented default constants.
    fn default() -> (c: SimConfig)
        ensures
            c == (SimConfig {
                g: DEFAULT_G,
                k: DEFAULT_K,
                d_min: DEFAULT_D_MIN,
                dt: DEFAULT_DT,
                drag: DEFAULT_DRAG,
                cap: DEFAULT_CAP,
            }),
            c.wf(),
    {
        SimConfig {
            g: DEFAULT_G,
            k: DEFAULT_K,
            d_min: DEFAULT_D_MIN,
            dt: DEFAULT_DT,
            drag: DEFAULT_DRAG,
            cap: DEFAULT_CAP,
        }
    }
}

} // verus!
