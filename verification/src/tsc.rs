//! The TSC cycle calibrator: turning a target number of invariant-TSC
//! cycles into a loop count for [`burn`].
//!
//! Reading the timestamp counter and catching transient measurement faults
//! happen outside the library; the calibrator's arithmetic — averaging the
//! timed samples, the proportional refinement of the loop count, and the
//! 2%-relative-error acceptance test — is verified here on the sampled
//! values.

use vstd::arithmetic::div_mod::{lemma_div_is_ordered, lemma_div_multiples_vanish};
use vstd::prelude::*;

verus! {

/// Relies on std::hint::black_box: returns its argument unchanged while
/// keeping the compiler from optimizing the read away.
#[verifier::external_body]
fn opaque_read() -> (r: u64)
    ensures
        r == 0,
{
    std::hint::black_box(0)
}

/// Burns CPU time: `input` iterations of an opaque read that the compiler
/// cannot eliminate. No system calls, no writes to shared state.
pub fn burn(input: u64) {
    let mut i: u64 = 0;
    while i < input
        invariant
            i <= input,
        decreases input - i,
    {
        let _consumed = opaque_read();
        i = i + 1;
    }
}

/// The sum of the elements of `s` from index `i` on.
pub open spec fn sum_from(s: Seq<u64>, i: int) -> int
    decreases s.len() - i,
{
    if i < 0 || i >= s.len() {
        0
    } else {
        s[i] + sum_from(s, i + 1)
    }
}

/// The sum of all elements of `s`.
pub open spec fn sum_of(s: Seq<u64>) -> int {
    sum_from(s, 0)
}

proof fn lemma_sum_from_nonneg(s: Seq<u64>, i: int)
    ensures
        sum_from(s, i) >= 0,
    decreases s.len() - i,
{
    if 0 <= i < s.len() {
        lemma_sum_from_nonneg(s, i + 1);
    }
}

/// Sums the sampled cycle counts.
fn sum_samples(samples: &Vec<u64>) -> (r: u64)
    requires
        sum_of(samples@) <= u64::MAX,
    ensures
        r == sum_of(samples@),
{
    let mut tot: u64 = 0;
    let mut i: usize = 0;
    while i < samples.len()
        invariant
            i <= samples@.len(),
            sum_of(samples@) <= u64::MAX,
            tot + sum_from(samples@, i as int) == sum_of(samples@),
        decreases samples@.len() - i,
    {
        proof {
            lemma_sum_from_nonneg(samples@, i + 1);
        }
        tot = tot + samples[i];
        i = i + 1;
    }
    tot
}

/// The arithmetic mean of the timed samples of one `burn` loop count, in
/// cycles: the samples are gathered outside (transient timing faults are
/// discarded and redrawn there), the mean is computed here.
pub fn cycles_average(samples: &Vec<u64>) -> (r: u64)
    requires
        samples@.len() > 0,
        sum_of(samples@) <= u64::MAX,
    ensures
        r == sum_of(samples@) / (samples@.len() as int),
{
    let tot = sum_samples(samples);
    tot / (samples.len() as u64)
}

/// The next candidate loop count of the proportional refinement
/// `L <- L * target / actual`, never below 1 and saturating at `u64::MAX`.
pub open spec fn spec_calibration_step(ideal_latency: u64, candidate_loops: u64, actual_latency: u64) -> int {
    let q = (ideal_latency * candidate_loops) / (actual_latency as int);
    if q > u64::MAX {
        u64::MAX as int
    } else if q < 1 {
        1
    } else {
        q
    }
}

/// One step of the calibration search: scales the candidate loop count
/// proportionally towards the target and keeps it at least 1.
pub fn calibration_step(ideal_latency: u64, candidate_loops: u64, actual_latency: u64) -> (r: u64)
    requires
        actual_latency > 0,
    ensures
        r == spec_calibration_step(ideal_latency, candidate_loops, actual_latency),
        r >= 1,
{
    proof {
        assert((ideal_latency as int) * (candidate_loops as int) <= u128::MAX)
            by (nonlinear_arith)
            requires
                0 <= ideal_latency as int <= u64::MAX,
                0 <= candidate_loops as int <= u64::MAX,
        ;
    }
    let p = (ideal_latency as u128) * (candidate_loops as u128);
    let q = p / (actual_latency as u128);
    if q > u64::MAX as u128 {
        u64::MAX
    } else if q < 1 {
        1
    } else {
        q as u64
    }
}

/// Whether a measured average is close enough to its requested target: the
/// batch calibration accepts a loop count only when the absolute error,
/// scaled by 50, does not exceed the target — a relative error of at most
/// 2%.
pub open spec fn spec_calibration_accepted(target: u64, actual: u64) -> bool {
    50 * abs_diff(target as int, actual as int) <= target
}

/// The absolute difference.
pub open spec fn abs_diff(a: int, b: int) -> int {
    if a >= b {
        a - b
    } else {
        b - a
    }
}

/// Decides whether one re-measured loop count is accepted: the measured
/// average must be within 2% of the requested target.
pub fn calibration_accepted(target: u64, actual: u64) -> (r: bool)
    ensures
        r == spec_calibration_accepted(target, actual),
{
    let diff = if actual >= target {
        actual - target
    } else {
        target - actual
    };
    (diff as u128) * 50 <= target as u128
}

/// Decides whether a whole calibration batch is accepted: every
/// re-measured average must be within 2% of its target, else the batch is
/// re-run.
pub fn batch_accepted(targets: &Vec<u64>, actuals: &Vec<u64>) -> (r: bool)
    requires
        targets@.len() == actuals@.len(),
    ensures
        r == (forall|i: int|
            0 <= i < targets@.len() ==> spec_calibration_accepted(targets@[i], actuals@[i])),
{
    let mut i: usize = 0;
    while i < targets.len()
        invariant
            i <= targets@.len(),
            targets@.len() == actuals@.len(),
            forall|j: int| 0 <= j < i ==> spec_calibration_accepted(targets@[j], actuals@[j]),
        decreases targets@.len() - i,
    {
        if !calibration_accepted(targets[i], actuals[i]) {
            return false;
        }
        i = i + 1;
    }
    true
}

/// Calibrator idempotence: for any accepted loop count, the measured
/// average of `burn` over it lies within 2% of the requested target, i.e.
/// in `[target - target / 50, target + target / 50]`.
pub proof fn lemma_accepted_within_two_percent(target: u64, actual: u64)
    requires
        spec_calibration_accepted(target, actual),
    ensures
        target - target / 50 <= actual <= target + target / 50,
{
    let d = abs_diff(target as int, actual as int);
    assert(50 * d <= target);
    lemma_div_is_ordered(50 * d, target as int, 50);
    lemma_div_multiples_vanish(d, 50);
    assert((50 * d) / 50 == d);
    assert(d <= target / 50);
}

/// The cycles of work one fully processed packet stands for: the sum of
/// the per-stage cycle targets.
pub fn get_total_work_per_packet(targets: &Vec<u64>) -> (r: u64)
    requires
        sum_of(targets@) <= u64::MAX,
    ensures
        r == sum_of(targets@),
{
    sum_samples(targets)
}

/// The TSC frequency computed from a timed interval: cycles per second
/// given the cycles counted and the wall-clock microseconds they took.
pub fn tsc_hz_from(cycles: u64, elapsed_micros: u64) -> (r: u64)
    requires
        elapsed_micros > 0,
        cycles * 1_000_000 <= u64::MAX,
    ensures
        r == (cycles * 1_000_000) / (elapsed_micros as int),
{
    (cycles * 1_000_000) / elapsed_micros
}

} // verus!
