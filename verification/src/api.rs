//! Telemetry: the window of hash-rate samples and the figures reported from
//! it.

use vstd::prelude::*;

verus! {

/// What the telemetry endpoint reports.
#[derive(Clone, Debug)]
pub struct Stats {
    pub hashrate: u64,
    pub accepted: usize,
    pub rejected: usize,
    pub version: String,
    pub uptime: u64,
}

/// Number of samples that the window keeps.
pub const SAMPLE_WINDOW: usize = 10;

/// Sum of the entries of `s`.
pub open spec fn seq_sum(s: Seq<u64>) -> nat
    decreases s.len(),
{
    if s.len() == 0 {
        0
    } else {
        seq_sum(s.drop_last()) + s.last() as nat
    }
}

/// The mean of the samples, rounded down, and 0 where there are none.
pub open spec fn spec_avg_hashrate(samples: Seq<u64>) -> nat {
    if samples.len() == 0 {
        0
    } else {
        seq_sum(samples) / samples.len()
    }
}

/// The window after a new sample: the sample comes last, and the oldest one
/// leaves where the window would hold more than ten.
pub open spec fn spec_window_after(window: Seq<u64>, sample: u64) -> Seq<u64> {
    if window.len() + 1 > SAMPLE_WINDOW {
        window.push(sample).skip(1)
    } else {
        window.push(sample)
    }
}

/// The sum of `n` samples is at most `n` times the largest sample.
pub proof fn lemma_seq_sum_bound(s: Seq<u64>)
    ensures
        seq_sum(s) <= s.len() * u64::MAX,
    decreases s.len(),
{
    if s.len() > 0 {
        lemma_seq_sum_bound(s.drop_last());
        assert(s.len() * u64::MAX == s.drop_last().len() * u64::MAX + u64::MAX)
            by (nonlinear_arith)
            requires
                s.drop_last().len() == s.len() - 1,
        ;
    } else {
        assert(s.len() * u64::MAX == 0) by (nonlinear_arith)
            requires
                s.len() == 0,
        ;
    }
}

/// The mean of the samples, rounded down, and 0 where there are none.
pub fn calculate_avg_hashrate(samples: &Vec<u64>) -> (avg: u64)
    ensures
        avg == spec_avg_hashrate(samples@),
{
    let n: usize = samples.len();
    if n == 0 {
        return 0;
    }
    let mut sum: u128 = 0;
    let mut i: usize = 0;
    while i < n
        invariant
            n == samples@.len(),
            i <= n,
            sum == seq_sum(samples@.subrange(0, i as int)),
            sum <= i * u64::MAX,
        decreases n - i,
    {
        proof {
            let next = samples@.subrange(0, i + 1);
            assert(next.drop_last() =~= samples@.subrange(0, i as int));
            assert(next.last() == samples@[i as int]);
        }
        sum = sum + samples[i] as u128;
        i = i + 1;
    }
    proof {
        assert(samples@.subrange(0, n as int) =~= samples@);
        assert(sum / (n as u128) <= u64::MAX) by (nonlinear_arith)
            requires
                sum <= n * u64::MAX,
                n > 0,
        ;
    }
    (sum / (n as u128)) as u64
}

/// Adds a sample to the window and drops the oldest one where the window
/// would hold more than ten.
pub fn record_sample(samples: &mut Vec<u64>, hashes_per_second: u64)
    requires
        old(samples)@.len() < usize::MAX,
    ensures
        final(samples)@ == spec_window_after(old(samples)@, hashes_per_second),
{
    samples.push(hashes_per_second);
    if samples.len() > SAMPLE_WINDOW {
        let _ = samples.remove(0);
    }
    assert(samples@ =~= spec_window_after(old(samples)@, hashes_per_second));
}

/// The hashes counted since the last sample.
pub fn hashes_since(current_count: usize, last_count: usize) -> (delta: u64)
    requires
        last_count <= current_count,
    ensures
        delta == current_count - last_count,
{
    (current_count - last_count) as u64
}

/// The report for the endpoint: the mean of the window and the figures as
/// given.
pub fn collect_stats(
    samples: &Vec<u64>,
    accepted: usize,
    rejected: usize,
    version: String,
    uptime: u64,
) -> (stats: Stats)
    ensures
        stats.hashrate == spec_avg_hashrate(samples@),
        stats.accepted == accepted,
        stats.rejected == rejected,
        stats.version == version,
        stats.uptime == uptime,
{
    Stats { hashrate: calculate_avg_hashrate(samples), accepted, rejected, version, uptime }
}

} // verus!
