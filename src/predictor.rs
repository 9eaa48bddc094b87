use vstd::prelude::*;

use crate::sample::{FeePrediction, FeeSample, PriorityLevel};
use crate::stats::{
    calculate_average, calculate_confidence, calculate_minimum, confidence_score, field_average,
    field_value, SampleField,
};
use crate::window::WINDOW_CAPACITY;

verus! {

/// `x` clamped to the `u64` range.
pub open spec fn saturate(x: nat) -> u64 {
    if x > u64::MAX {
        u64::MAX
    } else {
        x as u64
    }
}

/// `floor(avg_fee × multiplier × estimate / avg_cu)`, where the compute-unit
/// scaling `estimate / avg_cu` is taken as 1 when `avg_cu` is 0.
pub open spec fn scaled_fee(avg_fee: nat, avg_cu: nat, estimate: nat, level: PriorityLevel) -> nat {
    let (num, den) = level.spec_multiplier();
    if avg_cu > 0 {
        (num * (avg_fee * estimate)) / (den * avg_cu)
    } else {
        (num * avg_fee) / den
    }
}

/// The scaled-average fee predicted from `data` for a transaction of
/// `estimate` compute units at urgency `level`; 0 for an empty history.
pub open spec fn predicted_fee(data: Seq<FeeSample>, estimate: nat, level: PriorityLevel) -> u64 {
    if data.len() == 0 {
        0
    } else {
        saturate(
            scaled_fee(
                field_average(data, SampleField::Fee),
                field_average(data, SampleField::ComputeUnits),
                estimate,
                level,
            ),
        )
    }
}

proof fn lemma_multipliers_ordered(p: nat, d: nat)
    requires
        d > 0,
    ensures
        (4 * p) / (5 * d) <= (1 * p) / (1 * d),
        (1 * p) / (1 * d) <= (3 * p) / (2 * d),
{
    vstd::arithmetic::div_mod::lemma_div_multiples_vanish_quotient(5, p as int, d as int);
    vstd::arithmetic::div_mod::lemma_div_is_ordered(4 * p as int, 5 * p as int, 5 * d as int);
    vstd::arithmetic::div_mod::lemma_div_multiples_vanish_quotient(2, p as int, d as int);
    vstd::arithmetic::div_mod::lemma_div_is_ordered(2 * p as int, 3 * p as int, 2 * d as int);
}

/// For the same history and workload, a more urgent request never gets a
/// lower predicted fee: `High` ≥ `Medium` ≥ `Low`.
pub proof fn lemma_urgency_monotonic(data: Seq<FeeSample>, estimate: nat)
    ensures
        predicted_fee(data, estimate, PriorityLevel::High) >= predicted_fee(
            data,
            estimate,
            PriorityLevel::Medium,
        ),
        predicted_fee(data, estimate, PriorityLevel::Medium) >= predicted_fee(
            data,
            estimate,
            PriorityLevel::Low,
        ),
{
    if data.len() > 0 {
        let avg_fee = field_average(data, SampleField::Fee);
        let avg_cu = field_average(data, SampleField::ComputeUnits);
        if avg_cu > 0 {
            lemma_multipliers_ordered(avg_fee * estimate, avg_cu);
        } else {
            lemma_multipliers_ordered(avg_fee, 1);
        }
    }
}

/// Scales an average fee by urgency and by the ratio of `estimate` to the
/// average compute units, rounding down and saturating at `u64::MAX`.
pub fn scale_fee(avg_fee: u64, avg_cu: u64, estimate: u64, level: PriorityLevel) -> (r: u64)
    ensures
        r == saturate(scaled_fee(avg_fee as nat, avg_cu as nat, estimate as nat, level)),
{
    let m = level.multiplier();
    let num = m.0;
    let den = m.1;
    let ghost gnum = num as nat;
    proof {
        assert(num >= 1 && num <= 4 && den >= 1 && den <= 5);
        assert(den * avg_cu <= 5 * u64::MAX && den * avg_cu >= avg_cu) by (nonlinear_arith)
            requires
                1 <= den <= 5,
                avg_cu <= u64::MAX,
        ;
        assert(avg_fee * estimate <= u64::MAX * u64::MAX) by (nonlinear_arith)
            requires
                avg_fee <= u64::MAX,
                estimate <= u64::MAX,
        ;
    }
    let q: u128 = if avg_cu > 0 {
        avg_fee as u128 * estimate as u128
    } else {
        avg_fee as u128
    };
    let d: u128 = if avg_cu > 0 {
        den as u128 * avg_cu as u128
    } else {
        den as u128
    };
    let whole = q / d;
    let rest = q % d;
    let ghost target: nat = (gnum * (q as nat)) / (d as nat);
    proof {
        assert(scaled_fee(avg_fee as nat, avg_cu as nat, estimate as nat, level) == target);
        vstd::arithmetic::div_mod::lemma_fundamental_div_mod(q as int, d as int);
        assert(q <= gnum * q) by (nonlinear_arith)
            requires
                gnum >= 1,
        ;
        vstd::arithmetic::div_mod::lemma_div_is_ordered(q as int, gnum * q, d as int);
    }
    if whole > u64::MAX as u128 {
        return u64::MAX;
    }
    proof {
        assert(num * rest < 4 * d) by (nonlinear_arith)
            requires
                num <= 4,
                rest < d,
        ;
        assert(d <= 5 * u64::MAX) by (nonlinear_arith)
            requires
                den <= 5,
                avg_cu <= u64::MAX,
                d == den * avg_cu || d == den,
        ;
        assert(gnum * q == (gnum * rest) + (gnum * whole) * d) by (nonlinear_arith)
            requires
                q == d * whole + rest,
        ;
        vstd::arithmetic::div_mod::lemma_hoist_over_denominator(
            gnum * rest,
            gnum * whole,
            d as nat,
        );
    }
    let v = num as u128 * whole + (num as u128 * rest) / d;
    if v > u64::MAX as u128 {
        u64::MAX
    } else {
        v as u64
    }
}

/// The scaled-average prediction over a window snapshot: the average fee,
/// scaled by urgency and by the requested workload relative to the average
/// compute units, with the snapshot's confidence score and newest timestamp.
pub fn predict_scaled(
    data: &[FeeSample],
    compute_units_estimate: u64,
    priority_level: PriorityLevel,
) -> (r: FeePrediction)
    requires
        data@.len() <= WINDOW_CAPACITY,
    ensures
        r.estimated_fee == predicted_fee(data@, compute_units_estimate as nat, priority_level),
        r.confidence as nat == confidence_score(data@),
        r.last_updated == (if data@.len() == 0 {
            None
        } else {
            Some(data@.last().timestamp)
        }),
        r.priority_level == priority_level,
        data@.len() == 0 ==> r.estimated_fee == 0 && r.confidence == 0,
{
    let n = data.len();
    if n == 0 {
        return FeePrediction {
            estimated_fee: 0,
            last_updated: None,
            confidence: 0,
            priority_level,
        };
    }
    let avg_fee = calculate_average(data, SampleField::Fee);
    let avg_cu = calculate_average(data, SampleField::ComputeUnits);
    let estimated_fee = scale_fee(avg_fee, avg_cu, compute_units_estimate, priority_level);
    FeePrediction {
        estimated_fee,
        last_updated: Some(data[n - 1].timestamp),
        confidence: calculate_confidence(data),
        priority_level,
    }
}

/// The minimum-observed heuristic: the cheapest retained fee, or 0 for an
/// empty snapshot. Urgency and workload size are ignored.
pub fn predict_floor(data: &[FeeSample]) -> (r: u64)
    ensures
        data@.len() == 0 ==> r == 0,
        data@.len() > 0 ==> (forall|i: int| 0 <= i < data@.len() ==> r <= #[trigger] data@[i].fee),
        data@.len() > 0 ==> (exists|i: int| 0 <= i < data@.len() && r == #[trigger] data@[i].fee),
{
    let r = calculate_minimum(data, SampleField::Fee, 0);
    proof {
        if data@.len() > 0 {
            assert forall|i: int| 0 <= i < data@.len() implies r <= #[trigger] data@[i].fee by {
                assert(r as nat <= field_value(data@[i], SampleField::Fee));
            }
            let i = choose|i: int|
                0 <= i < data@.len() && r as nat == field_value(#[trigger] data@[i], SampleField::Fee);
            assert(r == data@[i].fee);
        }
    }
    r
}

} // verus!
