use vstd::prelude::*;

verus! {

/// One observed network data point.
#[derive(Clone, Copy, Debug, PartialEq, Eq, Structural)]
pub struct FeeSample {
    /// Fee paid, in the smallest fee unit.
    pub fee: u64,
    /// Observed throughput, in transactions per second.
    pub tps: u32,
    /// Ledger position at which the sample was taken; kept for traceability only.
    pub slot: u64,
    /// Resource cost of the transaction the sample was drawn from.
    pub compute_units_consumed: u64,
    /// Logical time of the observation.
    pub timestamp: i64,
}

/// How urgently the caller wants its transaction included.
#[derive(Clone, Copy, Debug, PartialEq, Eq, Structural)]
pub enum PriorityLevel {
    Low,
    Medium,
    High,
}

impl PriorityLevel {
    /// The urgency multiplier as an exact fraction (numerator, denominator):
    /// `Low` is 0.8, `Medium` is 1.0 and `High` is 1.5.
    pub open spec fn spec_multiplier(self) -> (nat, nat) {
        match self {
            PriorityLevel::Low => (4, 5),
            PriorityLevel::Medium => (1, 1),
            PriorityLevel::High => (3, 2),
        }
    }

    /// Returns the urgency multiplier as `(numerator, denominator)`.
    pub fn multiplier(&self) -> (r: (u64, u64))
        ensures
            r.0 as nat == self.spec_multiplier().0,
            r.1 as nat == self.spec_multiplier().1,
            r.1 > 0,
    {
        match self {
            PriorityLevel::Low => (4, 5),
            PriorityLevel::Medium => (1, 1),
            PriorityLevel::High => (3, 2),
        }
    }
}

impl Default for PriorityLevel {
    fn default() -> (r: Self)
        ensures
            r == PriorityLevel::Medium,
    {
        PriorityLevel::Medium
    }
}

/// The outcome of a scaled-average fee prediction.
#[derive(Clone, Copy, Debug, PartialEq, Eq, Structural)]
pub struct FeePrediction {
    /// Suggested fee bid.
    pub estimated_fee: u64,
    /// Timestamp of the newest sample the prediction rests on; `None` for an empty history.
    pub last_updated: Option<i64>,
    /// Inverse-dispersion score from 0 to 100.
    pub confidence: u8,
    /// The urgency the prediction was made for.
    pub priority_level: PriorityLevel,
}

/// Errors reported by the fee record's operations.
#[derive(Clone, Copy, Debug, PartialEq, Eq, Structural)]
pub enum ErrorCode {
    /// The signer is not the authority of the fee record.
    Unauthorized,
    /// Fewer samples are retained than the caller asked for.
    InsufficientData,
}

} // verus!
