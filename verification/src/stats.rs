//! Mean and spread of latency samples, in whole nanoseconds.

use vstd::prelude::*;

verus! {

/// The sum of `samples`.
pub open spec fn total(samples: Seq<u64>) -> int
    decreases samples.len(),
{
    if samples.len() == 0 {
        0
    } else {
        total(samples.drop_last()) + samples.last()
    }
}

/// The mean of `samples`, rounded down.
pub open spec fn mean_of(samples: Seq<u64>) -> int
    recommends
        samples.len() > 0,
{
    total(samples) / (samples.len() as int)
}

/// The sum of the squared distances of `samples` from `center`.
pub open spec fn squared_deviations(samples: Seq<u64>, center: u64) -> int
    decreases samples.len(),
{
    if samples.len() == 0 {
        0
    } else {
        squared_deviations(samples.drop_last(), center) + (samples.last() - center) * (
        samples.last() - center)
    }
}

/// The sum of samples lies between zero and the most that so many samples
/// can add up to.
pub proof fn lemma_total_bounds(samples: Seq<u64>)
    ensures
        0 <= total(samples) <= samples.len() * u64::MAX,
    decreases samples.len(),
{
    if samples.len() > 0 {
        lemma_total_bounds(samples.drop_last());
        assert(total(samples) <= (samples.len() - 1) * u64::MAX + u64::MAX);
        assert((samples.len() - 1) * u64::MAX + u64::MAX == samples.len() * u64::MAX)
            by (nonlinear_arith);
    }
}

/// Squared distances add up to no less than any part of them.
pub proof fn lemma_squared_deviations_grow(samples: Seq<u64>, center: u64, n: int)
    requires
        0 <= n <= samples.len(),
    ensures
        0 <= squared_deviations(samples.take(n), center) <= squared_deviations(samples, center),
    decreases samples.len() - n,
{
    if n == samples.len() {
        assert(samples.take(n) =~= samples);
        lemma_squared_deviations_nonnegative(samples, center);
    } else {
        lemma_squared_deviations_grow(samples, center, n + 1);
        assert(samples.take(n + 1).drop_last() =~= samples.take(n));
        let d = samples[n] - center;
        assert(d * d >= 0) by (nonlinear_arith);
        lemma_squared_deviations_nonnegative(samples.take(n), center);
    }
}

/// Squared distances add up to no less than zero.
pub proof fn lemma_squared_deviations_nonnegative(samples: Seq<u64>, center: u64)
    ensures
        0 <= squared_deviations(samples, center),
    decreases samples.len(),
{
    if samples.len() > 0 {
        lemma_squared_deviations_nonnegative(samples.drop_last(), center);
        let d = samples.last() - center;
        assert(d * d >= 0) by (nonlinear_arith);
    }
}

/// The sum of `samples`. It always fits: fewer than 2^64 samples below 2^64
/// add up to less than 2^128.
pub fn sum(samples: &[u64]) -> (s: u128)
    ensures
        s == total(samples@),
{
    let n: usize = samples.len();
    let mut s: u128 = 0;
    let mut i: usize = 0;
    assert(samples@.take(0) =~= Seq::<u64>::empty());
    while i < n
        invariant
            i <= n,
            n == samples@.len(),
            s == total(samples@.take(i as int)),
        decreases n - i,
    {
        proof {
            lemma_total_bounds(samples@.take(i as int));
            assert(samples@.take(i + 1).drop_last() =~= samples@.take(i as int));
            assert(i * u64::MAX + u64::MAX <= u128::MAX) by (nonlinear_arith)
                requires
                    i <= usize::MAX,
                    usize::MAX <= u64::MAX,
            ;
        }
        s = s + samples[i] as u128;
        i += 1;
    }
    assert(samples@.take(n as int) =~= samples@);
    s
}

/// The mean of `samples`, rounded down; nothing for no samples.
pub fn mean(samples: &[u64]) -> (m: Option<u64>)
    ensures
        samples@.len() == 0 <==> m is None,
        m matches Some(v) ==> v == mean_of(samples@),
{
    let n: usize = samples.len();
    if n == 0 {
        return None;
    }
    let s = sum(samples);
    proof {
        lemma_total_bounds(samples@);
        assert(total(samples@) / (n as int) <= u64::MAX) by (nonlinear_arith)
            requires
                0 <= total(samples@) <= n * u64::MAX,
                n > 0,
        ;
    }
    Some((s / n as u128) as u64)
}

/// The sum of the squared distances of `samples` from `center`; nothing if
/// it does not fit 128 bits.
pub fn squared_deviation_sum(samples: &[u64], center: u64) -> (r: Option<u128>)
    ensures
        squared_deviations(samples@, center) > u128::MAX <==> r is None,
        r matches Some(v) ==> v == squared_deviations(samples@, center),
{
    let n: usize = samples.len();
    let mut acc: u128 = 0;
    let mut i: usize = 0;
    assert(samples@.take(0) =~= Seq::<u64>::empty());
    while i < n
        invariant
            i <= n,
            n == samples@.len(),
            acc == squared_deviations(samples@.take(i as int), center),
        decreases n - i,
    {
        let x = samples[i];
        let d: u128 = if x >= center {
            (x - center) as u128
        } else {
            (center - x) as u128
        };
        proof {
            assert(samples@.take(i + 1).drop_last() =~= samples@.take(i as int));
            assert(d * d == (x - center) * (x - center)) by (nonlinear_arith)
                requires
                    d == x - center || d == center - x,
            ;
            assert(d * d <= u64::MAX * u64::MAX) by (nonlinear_arith)
                requires
                    0 <= d <= u64::MAX,
            ;
        }
        let square: u128 = d * d;
        match acc.checked_add(square) {
            None => {
                proof {
                    lemma_squared_deviations_grow(samples@, center, i + 1);
                }
                return None;
            },
            Some(next) => {
                acc = next;
            },
        }
        i += 1;
    }
    assert(samples@.take(n as int) =~= samples@);
    Some(acc)
}

} // verus!
