use vstd::prelude::*;

use crate::sample::FeeSample;
use crate::window::WINDOW_CAPACITY;

verus! {

/// Selects which numeric field of a sample a statistic is taken over.
#[derive(Clone, Copy, Debug, PartialEq, Eq, Structural)]
pub enum SampleField {
    Fee,
    ComputeUnits,
}

/// The selected field of one sample.
pub open spec fn field_value(s: FeeSample, field: SampleField) -> nat {
    match field {
        SampleField::Fee => s.fee as nat,
        SampleField::ComputeUnits => s.compute_units_consumed as nat,
    }
}

/// The sum of the selected field over all samples.
pub open spec fn field_sum(data: Seq<FeeSample>, field: SampleField) -> nat
    decreases data.len(),
{
    if data.len() == 0 {
        0
    } else {
        field_sum(data.drop_last(), field) + field_value(data.last(), field)
    }
}

/// The integer-truncated mean of the selected field; 0 for no samples.
pub open spec fn field_average(data: Seq<FeeSample>, field: SampleField) -> nat {
    if data.len() == 0 {
        0
    } else {
        field_sum(data, field) / data.len()
    }
}

/// Reads the selected field of a sample.
pub fn field_of(s: &FeeSample, field: SampleField) -> (r: u64)
    ensures
        r as nat == field_value(*s, field),
{
    match field {
        SampleField::Fee => s.fee,
        SampleField::ComputeUnits => s.compute_units_consumed,
    }
}

proof fn lemma_prefix_sum_step(data: Seq<FeeSample>, field: SampleField, i: int)
    requires
        0 <= i < data.len(),
    ensures
        field_sum(data.subrange(0, i + 1), field) == field_sum(data.subrange(0, i), field)
            + field_value(data[i], field),
{
    assert(data.subrange(0, i + 1).drop_last() =~= data.subrange(0, i));
}

/// Sums the selected field; the sum of any slice of `u64` values fits in `u128`.
fn calculate_sum(data: &[FeeSample], field: SampleField) -> (r: u128)
    ensures
        r as nat == field_sum(data@, field),
        r as nat <= data@.len() * (u64::MAX as nat),
{
    let mut sum: u128 = 0;
    let mut i: usize = 0;
    while i < data.len()
        invariant
            i <= data@.len(),
            sum as nat == field_sum(data@.subrange(0, i as int), field),
            sum as nat <= i * (u64::MAX as nat),
        decreases data@.len() - i,
    {
        proof {
            lemma_prefix_sum_step(data@, field, i as int);
        }
        sum = sum + field_of(&data[i], field) as u128;
        i = i + 1;
    }
    proof {
        assert(data@.subrange(0, data@.len() as int) =~= data@);
    }
    sum
}

/// The integer-truncated mean of the selected field, or 0 for an empty slice.
pub fn calculate_average(data: &[FeeSample], field: SampleField) -> (r: u64)
    ensures
        r as nat == field_average(data@, field),
{
    if data.len() == 0 {
        return 0;
    }
    let sum = calculate_sum(data, field);
    let n = data.len() as u128;
    proof {
        let m = u64::MAX as nat;
        let len = data@.len();
        assert(sum as nat / len <= m) by (nonlinear_arith)
            requires
                sum as nat <= len * m,
                len > 0,
        ;
    }
    (sum / n) as u64
}

/// The smallest value of the selected field, or `default` for an empty slice.
pub fn calculate_minimum(data: &[FeeSample], field: SampleField, default: u64) -> (r: u64)
    ensures
        data@.len() == 0 ==> r == default,
        data@.len() > 0 ==> (forall|i: int|
            0 <= i < data@.len() ==> r as nat <= field_value(#[trigger] data@[i], field)),
        data@.len() > 0 ==> (exists|i: int|
            0 <= i < data@.len() && r as nat == field_value(#[trigger] data@[i], field)),
{
    if data.len() == 0 {
        return default;
    }
    let mut best = field_of(&data[0], field);
    let mut at: usize = 0;
    let mut i: usize = 1;
    while i < data.len()
        invariant
            1 <= i <= data@.len(),
            at < i,
            best as nat == field_value(data@[at as int], field),
            forall|j: int| 0 <= j < i ==> best as nat <= field_value(#[trigger] data@[j], field),
        decreases data@.len() - i,
    {
        let v = field_of(&data[i], field);
        if v < best {
            best = v;
            at = i;
        }
        i = i + 1;
    }
    proof {
        assert(0 <= at < data@.len() && best as nat == field_value(data@[at as int], field));
    }
    best
}

/// Sum over the samples of `(n * fee - total)²`.
pub open spec fn squared_deviation_sum(data: Seq<FeeSample>, n: int, total: int) -> int
    decreases data.len(),
{
    if data.len() == 0 {
        0
    } else {
        let dev = n * data.last().fee - total;
        squared_deviation_sum(data.drop_last(), n, total) + dev * dev
    }
}

/// The fee dispersion `Σ(n·feeᵢ − Σfee)²`, which equals `n³` times the
/// population variance of the fees.
pub open spec fn dispersion(data: Seq<FeeSample>) -> int {
    squared_deviation_sum(data, data.len() as int, field_sum(data, SampleField::Fee) as int)
}

/// Whether the score `k` (0 to 100) is at most `100 / (1 + √variance)`, for
/// `n` samples of dispersion `d`. For `1 ≤ k ≤ 100` that bound is
/// `variance · k² ≤ (100 − k)²`; multiplied by `n³` it reads as below.
pub open spec fn confidence_admits(d: int, n: int, k: int) -> bool {
    d * (k * k) <= (100 - k) * (100 - k) * (n * n * n)
}

/// The largest score in `0..=k` that `confidence_admits`.
pub open spec fn best_confidence(d: int, n: int, k: nat) -> nat
    decreases k,
{
    if k == 0 {
        0
    } else if confidence_admits(d, n, k as int) {
        k
    } else {
        best_confidence(d, n, (k - 1) as nat)
    }
}

/// The inverse-dispersion score `floor(min(100, 100 / (1 + √variance)))` of
/// the fees, or 0 when fewer than two samples are given.
///
/// This is a heuristic: lower dispersion gives a score closer to 100.
pub open spec fn confidence_score(data: Seq<FeeSample>) -> nat {
    if data.len() < 2 {
        0
    } else {
        best_confidence(dispersion(data), data.len() as int, 100)
    }
}

proof fn lemma_squared_deviation_nonneg(data: Seq<FeeSample>, n: int, total: int)
    ensures
        squared_deviation_sum(data, n, total) >= 0,
    decreases data.len(),
{
    if data.len() > 0 {
        lemma_squared_deviation_nonneg(data.drop_last(), n, total);
        let dev = n * data.last().fee - total;
        assert(dev * dev >= 0) by (nonlinear_arith);
    }
}

proof fn lemma_le_div(d: int, a: int, b: int)
    requires
        b > 0,
        a >= 0,
    ensures
        (d <= a / b) <==> (d * b <= a),
        a / b <= a,
{
    let q = a / b;
    let r = a % b;
    assert(a == b * q + r && 0 <= r < b) by {
        vstd::arithmetic::div_mod::lemma_fundamental_div_mod(a, b);
    }
    assert(d <= q ==> d * b <= a) by (nonlinear_arith)
        requires
            a == b * q + r,
            0 <= r,
            b > 0,
    ;
    assert(d > q ==> d * b > a) by (nonlinear_arith)
        requires
            a == b * q + r,
            r < b,
            b > 0,
    ;
    assert(q <= a) by (nonlinear_arith)
        requires
            a == b * q + r,
            0 <= r,
            b > 0,
            a >= 0,
    ;
}

/// An upper bound that a dispersion is tracked to exactly; above it every
/// positive score is ruled out.
const DISPERSION_LIMIT: u128 = 0x1_0000_0000_0000_0000;

/// The inverse-dispersion confidence score of the fees, from 0 to 100.
///
/// Returns 0 for fewer than two samples; see `confidence_score`.
pub fn calculate_confidence(data: &[FeeSample]) -> (r: u8)
    requires
        data@.len() <= WINDOW_CAPACITY,
    ensures
        r as nat == confidence_score(data@),
        r <= 100,
{
    let n = data.len();
    if n < 2 {
        return 0;
    }
    let total = calculate_sum(data, SampleField::Fee);
    let nn = n as u128;
    let ghost gn = n as int;
    let ghost gt = total as int;
    let mut acc: u128 = 0;
    let mut over = false;
    let mut i: usize = 0;
    while i < n
        invariant
            n == data@.len(),
            n <= WINDOW_CAPACITY,
            nn == n,
            gn == n,
            gt == total,
            total as nat <= n * (u64::MAX as nat),
            i <= n,
            !over ==> acc as int == squared_deviation_sum(data@.subrange(0, i as int), gn, gt),
            !over ==> acc <= DISPERSION_LIMIT,
            over ==> squared_deviation_sum(data@.subrange(0, i as int), gn, gt)
                > DISPERSION_LIMIT,
        decreases n - i,
    {
        let fee = data[i].fee;
        let ghost prefix = data@.subrange(0, i as int);
        let ghost next = data@.subrange(0, i + 1);
        let ghost dev = gn * fee - gt;
        proof {
            assert(next.drop_last() =~= prefix);
            assert(next.last() == data@[i as int]);
            assert(squared_deviation_sum(next, gn, gt) == squared_deviation_sum(prefix, gn, gt)
                + dev * dev);
            assert(nn * fee <= 144 * (u64::MAX as nat)) by (nonlinear_arith)
                requires
                    nn <= 144,
                    fee <= u64::MAX,
            ;
            assert(dev * dev >= 0) by (nonlinear_arith);
        }
        let scaled = nn * (fee as u128);
        let diff = if scaled >= total {
            scaled - total
        } else {
            total - scaled
        };
        proof {
            assert(diff * diff == dev * dev) by (nonlinear_arith)
                requires
                    diff == dev || diff == -dev,
            ;
        }
        if !over {
            if diff > 0x1_0000_0000 {
                proof {
                    assert(diff * diff > DISPERSION_LIMIT) by (nonlinear_arith)
                        requires
                            diff > 0x1_0000_0000,
                    ;
                    lemma_squared_deviation_nonneg(prefix, gn, gt);
                }
                over = true;
            } else {
                proof {
                    assert(diff * diff <= DISPERSION_LIMIT) by (nonlinear_arith)
                        requires
                            0 <= diff <= 0x1_0000_0000,
                    ;
                }
                let term = diff * diff;
                if acc + term > DISPERSION_LIMIT {
                    over = true;
                } else {
                    acc = acc + term;
                }
            }
        }
        i = i + 1;
    }
    proof {
        assert(data@.subrange(0, n as int) =~= data@);
    }
    let ghost d = dispersion(data@);
    let eff: u128 = if over {
        DISPERSION_LIMIT + 1
    } else {
        acc
    };
    proof {
        assert(nn * nn <= 144 * 144 && nn * nn * nn <= 144 * 144 * 144) by (nonlinear_arith)
            requires
                nn <= 144,
        ;
    }
    let cube = nn * nn * nn;
    let mut k: u8 = 100;
    while k > 0
        invariant
            k <= 100,
            cube == gn * gn * gn,
            cube <= 144 * 144 * 144,
            gn == n,
            n == data@.len(),
            d == dispersion(data@),
            n >= 2,
            !over ==> eff as int == d,
            over ==> d > DISPERSION_LIMIT && eff == DISPERSION_LIMIT + 1,
            best_confidence(d, gn, 100) == best_confidence(d, gn, k as nat),
        decreases k,
    {
        let kk = k as u128;
        let room = 100 - kk;
        proof {
            assert(room * room <= 10000 && room * room * cube <= 10000 * (144 * 144 * 144))
                by (nonlinear_arith)
                requires
                    room <= 100,
                    cube <= 144 * 144 * 144,
            ;
            assert(1 <= kk * kk <= 10000) by (nonlinear_arith)
                requires
                    1 <= kk <= 100,
            ;
        }
        let rhs = room * room * cube;
        let sq = kk * kk;
        proof {
            lemma_le_div(d, rhs as int, sq as int);
            lemma_le_div(eff as int, rhs as int, sq as int);
            if over {
                assert(d * sq >= d) by (nonlinear_arith)
                    requires
                        sq >= 1,
                        d > 0,
                ;
            }
        }
        proof {
            assert(rhs as int == (100 - k) * (100 - k) * (gn * gn * gn));
            assert(sq as int == k * k);
        }
        if eff <= rhs / sq {
            proof {
                assert(confidence_admits(d, gn, k as int));
                assert(best_confidence(d, gn, k as nat) == k as nat);
                assert(confidence_score(data@) == best_confidence(d, gn, 100));
            }
            return k;
        }
        proof {
            assert(!confidence_admits(d, gn, k as int));
        }
        k = k - 1;
    }
    0
}

proof fn lemma_best_confidence_le(d: int, n: int, k: nat)
    ensures
        best_confidence(d, n, k) <= k,
    decreases k,
{
    if k > 0 {
        lemma_best_confidence_le(d, n, (k - 1) as nat);
    }
}

proof fn lemma_constant_fee_sum(data: Seq<FeeSample>, f: u64)
    requires
        forall|i: int| 0 <= i < data.len() ==> #[trigger] data[i].fee == f,
    ensures
        field_sum(data, SampleField::Fee) == data.len() * f,
    decreases data.len(),
{
    if data.len() > 0 {
        let p = data.drop_last();
        assert forall|i: int| 0 <= i < p.len() implies #[trigger] p[i].fee == f by {
            assert(p[i] == data[i]);
        }
        lemma_constant_fee_sum(p, f);
        assert(data.last().fee == f);
        assert(p.len() * f + f == data.len() * f) by (nonlinear_arith)
            requires
                p.len() + 1 == data.len(),
        ;
    }
}

proof fn lemma_constant_fee_deviation(data: Seq<FeeSample>, f: u64, n: int)
    requires
        forall|i: int| 0 <= i < data.len() ==> #[trigger] data[i].fee == f,
    ensures
        squared_deviation_sum(data, n, n * f) == 0,
    decreases data.len(),
{
    if data.len() > 0 {
        let p = data.drop_last();
        assert forall|i: int| 0 <= i < p.len() implies #[trigger] p[i].fee == f by {
            assert(p[i] == data[i]);
        }
        lemma_constant_fee_deviation(p, f, n);
        assert(data.last().fee == f);
    }
}

/// The confidence score never exceeds 100, and it is exactly 100 for two or
/// more samples that all carry the same fee.
pub proof fn lemma_confidence_bounds(data: Seq<FeeSample>)
    ensures
        confidence_score(data) <= 100,
        data.len() >= 2 && (forall|i: int| 0 <= i < data.len() ==> #[trigger] data[i].fee
            == data[0].fee) ==> confidence_score(data) == 100,
{
    lemma_best_confidence_le(dispersion(data), data.len() as int, 100);
    if data.len() >= 2 && (forall|i: int| 0 <= i < data.len() ==> #[trigger] data[i].fee
        == data[0].fee) {
        let f = data[0].fee;
        let n = data.len() as int;
        lemma_constant_fee_sum(data, f);
        lemma_constant_fee_deviation(data, f, n);
        assert(dispersion(data) == 0);
        assert(confidence_admits(0, n, 100));
    }
}

/// Appending a sample whose fee differs from that of a window of two or more
/// equal fees strictly lowers the confidence score.
pub proof fn lemma_outlier_lowers_confidence(data: Seq<FeeSample>, outlier: FeeSample)
    requires
        data.len() >= 2,
        forall|i: int| 0 <= i < data.len() ==> #[trigger] data[i].fee == data[0].fee,
        outlier.fee != data[0].fee,
    ensures
        confidence_score(data.push(outlier)) < confidence_score(data),
{
    lemma_confidence_bounds(data);
    let f = data[0].fee;
    let g = outlier.fee;
    let grown = data.push(outlier);
    let len = data.len() as int;
    let n = len + 1;
    assert(grown.drop_last() =~= data);
    assert(grown.last() == outlier);
    lemma_constant_fee_sum(data, f);
    let total = field_sum(grown, SampleField::Fee) as int;
    assert(total == len * f + g);
    let dev = n * g - total;
    assert(dev == len * (g - f)) by (nonlinear_arith)
        requires
            dev == n * g - total,
            total == len * f + g,
            n == len + 1,
    ;
    assert(dev * dev > 0) by (nonlinear_arith)
        requires
            dev == len * (g - f),
            len >= 2,
            g != f,
    ;
    lemma_squared_deviation_nonneg(data, n, total);
    let d = dispersion(grown);
    assert(d == squared_deviation_sum(data, n, total) + dev * dev);
    assert(d > 0);
    assert(!confidence_admits(d, n, 100)) by (nonlinear_arith)
        requires
            d > 0,
    ;
    lemma_best_confidence_le(d, n, 99);
}

} // verus!
