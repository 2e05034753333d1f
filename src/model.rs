use vstd::prelude::*;

verus! {

/// Version tag written into every report and manifest.
pub const SCHEMA_VERSION: &'static str = "v1";

/// How an amount is brought onto a multiple of the rounding increment.
#[derive(Debug, Clone, Copy, PartialEq, Eq, Structural)]
pub enum RoundingMode {
    Down,
    Up,
    Nearest,
    TowardZero,
    AwayFromZero,
}

/// A rounding mode together with its increment in minor units.
#[derive(Debug, Clone, Copy, PartialEq, Eq, Structural)]
pub struct RoundingRule {
    pub mode: RoundingMode,
    pub increment_minor_units: i64,
}

/// Configuration errors; each one aborts the whole computation.
#[derive(Debug, Clone, PartialEq, Eq)]
pub enum KernelError {
    MissingMatchKey(String),
    MissingCompareKey(String),
    InvalidRoundingIncrement,
}

} // verus!
