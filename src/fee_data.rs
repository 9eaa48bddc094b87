use vstd::prelude::*;

use crate::predictor::{predict_floor, predict_scaled, predicted_fee};
use crate::sample::{ErrorCode, FeePrediction, FeeSample, PriorityLevel};
use crate::stats::confidence_score;
use crate::window::{appended, SampleWindow, WINDOW_CAPACITY};

verus! {

/// A fee record: the rolling sample window, the key allowed to add samples
/// to it, and the time of the last change.
pub struct FeeData {
    pub authority: [u8; 32],
    pub last_updated: i64,
    pub historical_data: SampleWindow,
}

/// Whether two keys are equal, byte for byte.
pub fn same_key(a: &[u8; 32], b: &[u8; 32]) -> (r: bool)
    ensures
        r == (a@ == b@),
{
    let mut i: usize = 0;
    while i < 32
        invariant
            i <= 32,
            a@.len() == 32,
            b@.len() == 32,
            forall|j: int| 0 <= j < i ==> a@[j] == b@[j],
        decreases 32 - i,
    {
        if a[i] != b[i] {
            return false;
        }
        i = i + 1;
    }
    proof {
        assert(a@ =~= b@);
    }
    true
}

/// Creates an empty fee record owned by `authority`, stamped with the
/// host-supplied time `now`.
pub fn initialize(authority: [u8; 32], now: i64) -> (r: FeeData)
    ensures
        r.authority == authority,
        r.last_updated == now,
        r.historical_data@ == Seq::<FeeSample>::empty(),
{
    FeeData { authority, last_updated: now, historical_data: SampleWindow::new() }
}

/// Records a new sample observed at host-supplied time `now`, evicting the
/// oldest one when the window is full.
///
/// Fails with `Unauthorized`, leaving the record unchanged, when `signer` is
/// not the record's authority.
pub fn store_fee_data(
    fee_data: &mut FeeData,
    signer: &[u8; 32],
    fee: u64,
    tps: u32,
    slot: u64,
    compute_units_consumed: u64,
    now: i64,
) -> (r: Result<(), ErrorCode>)
    ensures
        signer@ != old(fee_data).authority@ ==> {
            &&& r == Err::<(), ErrorCode>(ErrorCode::Unauthorized)
            &&& *final(fee_data) == *old(fee_data)
        },
        signer@ == old(fee_data).authority@ ==> {
            &&& r == Ok::<(), ErrorCode>(())
            &&& final(fee_data).historical_data@ == appended(
                old(fee_data).historical_data@,
                (FeeSample { fee, tps, slot, compute_units_consumed, timestamp: now }),
            )
            &&& final(fee_data).last_updated == now
            &&& final(fee_data).authority == old(fee_data).authority
            &&& final(fee_data).historical_data@.len() <= WINDOW_CAPACITY
        },
{
    if !same_key(signer, &fee_data.authority) {
        return Err(ErrorCode::Unauthorized);
    }
    fee_data.historical_data.append(
        FeeSample { fee, tps, slot, compute_units_consumed, timestamp: now },
    );
    fee_data.last_updated = now;
    Ok(())
}

/// Predicts a fee for a transaction of `compute_units_estimate` compute units
/// at urgency `priority_level`, from the record's retained samples.
pub fn predict_fee(
    fee_data: &FeeData,
    compute_units_estimate: u64,
    priority_level: PriorityLevel,
) -> (r: FeePrediction)
    ensures
        r.estimated_fee == predicted_fee(
            fee_data.historical_data@,
            compute_units_estimate as nat,
            priority_level,
        ),
        r.confidence as nat == confidence_score(fee_data.historical_data@),
        r.last_updated == (if fee_data.historical_data@.len() == 0 {
            None
        } else {
            Some(fee_data.historical_data@.last().timestamp)
        }),
        r.priority_level == priority_level,
        fee_data.historical_data@.len() == 0 ==> r.estimated_fee == 0 && r.confidence == 0,
{
    let snapshot = fee_data.historical_data.snapshot();
    predict_scaled(snapshot.as_slice(), compute_units_estimate, priority_level)
}

/// The cheapest fee among the record's retained samples, or 0 when none is
/// retained.
pub fn predict_floor_fee(fee_data: &FeeData) -> (r: u64)
    ensures
        fee_data.historical_data@.len() == 0 ==> r == 0,
        fee_data.historical_data@.len() > 0 ==> (forall|i: int|
            0 <= i < fee_data.historical_data@.len() ==> r
                <= #[trigger] fee_data.historical_data@[i].fee),
        fee_data.historical_data@.len() > 0 ==> (exists|i: int|
            0 <= i < fee_data.historical_data@.len() && r
                == #[trigger] fee_data.historical_data@[i].fee),
{
    let snapshot = fee_data.historical_data.snapshot();
    predict_floor(snapshot.as_slice())
}

/// Succeeds when at least `min_samples` samples are retained, and fails with
/// `InsufficientData` otherwise.
pub fn require_samples(fee_data: &FeeData, min_samples: usize) -> (r: Result<(), ErrorCode>)
    ensures
        fee_data.historical_data@.len() >= min_samples ==> r == Ok::<(), ErrorCode>(()),
        fee_data.historical_data@.len() < min_samples ==> r == Err::<(), ErrorCode>(
            ErrorCode::InsufficientData,
        ),
{
    if fee_data.historical_data.len() >= min_samples {
        Ok(())
    } else {
        Err(ErrorCode::InsufficientData)
    }
}

} // verus!
