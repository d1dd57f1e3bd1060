//! Timing statistics: sorting duration samples and summarizing them.

use vstd::prelude::*;
use vstd::arithmetic::div_mod::lemma_fundamental_div_mod;
use vstd::seq_lib::to_multiset_insert;
use crate::clock::clock_now;
use crate::clock::micros_since;
use crate::fib::fib64;
use crate::fib::fibonacci_ffi;

verus! {

/// Non-decreasing order.
pub open spec fn sorted(s: Seq<u64>) -> bool {
    forall|i: int, j: int| 0 <= i <= j < s.len() ==> s[i] <= s[j]
}

/// The sum of all samples.
pub open spec fn sum_seq(s: Seq<u64>) -> int
    decreases s.len(),
{
    if s.len() == 0 {
        0
    } else {
        sum_seq(s.drop_last()) + s.last()
    }
}

/// A quotient is below `n` when the dividend is below `d * n`.
proof fn lemma_div_below(a: int, d: int, n: int)
    requires
        0 <= a,
        0 < d,
        a < d * n,
    ensures
        a / d < n,
{
    lemma_fundamental_div_mod(a, d);
    if a / d >= n {
        assert(d * (a / d) >= d * n) by (nonlinear_arith)
            requires
                d > 0 && a / d >= n,
        ;
    }
}

/// Sorts timing samples: the result holds exactly the same samples, in
/// non-decreasing order.
pub fn sort_times(times: &Vec<u64>) -> (out: Vec<u64>)
    ensures
        sorted(out@),
        out@.to_multiset() == times@.to_multiset(),
        out@.len() == times@.len(),
{
    let mut out: Vec<u64> = Vec::with_capacity(times.len());
    proof {
        assert(times@.take(0) =~= Seq::<u64>::empty());
    }
    let mut k: usize = 0;
    while k < times.len()
        invariant
            k <= times@.len(),
            out@.len() == k,
            sorted(out@),
            out@.to_multiset() == times@.take(k as int).to_multiset(),
        decreases times@.len() - k,
    {
        let x: u64 = times[k];
        let mut pos: usize = 0;
        while pos < out.len() && out[pos] <= x
            invariant
                pos <= out@.len(),
                sorted(out@),
                forall|i: int| 0 <= i < pos ==> out@[i] <= x,
            decreases out@.len() - pos,
        {
            pos = pos + 1;
        }
        let ghost prev = out@;
        out.insert(pos, x);
        proof {
            prev.insert_ensures(pos as int, x);
            assert forall|i: int, j: int| 0 <= i <= j < out@.len() implies out@[i] <= out@[j] by {
                let p = pos as int;
                if i < p && j < p {
                    assert(out@[i] == prev[i] && out@[j] == prev[j]);
                } else if i < p && j == p {
                    assert(out@[i] == prev[i] && out@[j] == x);
                } else if i < p {
                    assert(out@[i] == prev[i] && out@[j] == prev[j - 1]);
                    assert(prev[p] > x);
                } else if i == p && j == p {
                } else if i == p {
                    assert(out@[j] == prev[j - 1]);
                    assert(prev[p] > x);
                    assert(prev[p] <= prev[j - 1]);
                } else {
                    assert(out@[i] == prev[i - 1] && out@[j] == prev[j - 1]);
                }
            }
            to_multiset_insert(prev, pos as int, x);
            assert(times@.take(k as int).insert(k as int, x) =~= times@.take(k as int + 1));
            to_multiset_insert(times@.take(k as int), k as int, x);
        }
        k = k + 1;
    }
    proof {
        assert(times@.take(times@.len() as int) =~= times@);
    }
    out
}

/// A five-number summary of timing samples, in whole microseconds.  The
/// quantile fields name positions in the sample order, so they carry their
/// names' meaning when the samples are sorted.
pub struct Stats {
    /// The mean, rounded down.
    pub mean: u64,
    /// The sample at the middle position.
    pub median: u64,
    /// The sample at the 95th-percentile position.
    pub p95: u64,
    /// The first sample.
    pub min: u64,
    /// The last sample.
    pub max: u64,
}

/// Everything [`calculate_stats`] promises of its result.
pub open spec fn stats_spec(times: Seq<u64>, s: Stats) -> bool {
    &&& s.mean == sum_seq(times) / times.len() as int
    &&& s.median == times[times.len() as int / 2]
    &&& s.p95 == times[(times.len() as int * 95) / 100]
    &&& s.min == times[0]
    &&& s.max == times[times.len() - 1]
}

/// Summarizes a non-empty sample sequence.
pub fn calculate_stats(times: &Vec<u64>) -> (s: Stats)
    requires
        times@.len() > 0,
    ensures
        stats_spec(times@, s),
{
    let len: usize = times.len();
    let mut total: u128 = 0;
    let mut k: usize = 0;
    while k < len
        invariant
            k <= times@.len(),
            len == times@.len(),
            total == sum_seq(times@.take(k as int)),
            total <= k as int * 0xffff_ffff_ffff_ffff,
        decreases times@.len() - k,
    {
        proof {
            assert(times@.take(k as int + 1).drop_last() =~= times@.take(k as int));
            assert((k as int) * 0xffff_ffff_ffff_ffff + 0xffff_ffff_ffff_ffff == (k as int + 1)
                * 0xffff_ffff_ffff_ffff) by (nonlinear_arith);
        }
        total = total + (times[k] as u128);
        k = k + 1;
    }
    proof {
        assert(times@.take(times@.len() as int) =~= times@);
        assert((len as int) * 0xffff_ffff_ffff_ffff < (len as int)
            * 0x1_0000_0000_0000_0000) by (nonlinear_arith)
            requires
                len as int >= 1,
        ;
        lemma_div_below(total as int, len as int, 0x1_0000_0000_0000_0000);
        lemma_div_below((len as int) * 95, 100, len as int);
    }
    let mean: u64 = (total / (len as u128)) as u64;
    let idx95: usize = (((len as u128) * 95) / 100) as usize;
    Stats {
        mean,
        median: times[len / 2],
        p95: times[idx95],
        min: times[0],
        max: times[len - 1],
    }
}

/// Runs the narrow engine a hundred times, timing each run: the engine's
/// value and the sorted per-run durations in microseconds.
pub fn benchmark_rust(n: u32) -> (r: (u64, Vec<u64>))
    ensures
        r.0 == fib64(n as nat),
        r.1@.len() == 100,
        sorted(r.1@),
{
    let mut times: Vec<u64> = Vec::with_capacity(100);
    let mut i: usize = 0;
    while i < 100
        invariant
            times@.len() == i,
            i <= 100,
        decreases 100 - i,
    {
        let start = clock_now();
        let _value: u64 = fibonacci_ffi(n);
        let elapsed: u64 = micros_since(&start);
        times.push(elapsed);
        i = i + 1;
    }
    let sorted_times = sort_times(&times);
    (fibonacci_ffi(n), sorted_times)
}

} // verus!
