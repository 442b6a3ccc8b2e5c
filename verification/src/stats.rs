use vstd::prelude::*;

use crate::arith::{floor_sqrt, isqrt, lemma_floor_sqrt_unique};

verus! {

/// Summary statistics of one timing sequence, in nanoseconds.
pub struct Stats {
    pub mean: u64,
    pub median: u64,
    pub std_dev: u64,
    pub min: u64,
    pub max: u64,
    pub total: u128,
}

/// The sequence is sorted in ascending order.
pub open spec fn sorted(s: Seq<u64>) -> bool {
    forall|i: int, j: int| 0 <= i < j < s.len() ==> s[i] <= s[j]
}

/// The sum of a sequence of samples.
pub open spec fn seq_sum(s: Seq<u64>) -> int
    decreases s.len(),
{
    if s.len() == 0 {
        0
    } else {
        seq_sum(s.drop_last()) + s.last()
    }
}

/// The sum of squared deviations from `m`.
pub open spec fn seq_sq_dev(s: Seq<u64>, m: int) -> int
    decreases s.len(),
{
    if s.len() == 0 {
        0
    } else {
        seq_sq_dev(s.drop_last(), m) + (s.last() - m) * (s.last() - m)
    }
}

/// The sample variance with Bessel's correction (`n - 1` divisor), taken
/// around the integer mean; zero for a single sample.
pub open spec fn variance_of(s: Seq<u64>, mean: int) -> int {
    if s.len() <= 1 {
        0
    } else {
        seq_sq_dev(s, mean) / (s.len() - 1)
    }
}

/// Sums are monotone under `take`.
proof fn lemma_seq_sum_take(s: Seq<u64>, i: int)
    requires
        0 <= i < s.len(),
    ensures
        seq_sum(s.take(i + 1)) == seq_sum(s.take(i)) + s[i],
{
    assert(s.take(i + 1).drop_last() =~= s.take(i));
    assert(s.take(i + 1).last() == s[i]);
}

/// Squared deviations accumulate under `take`.
proof fn lemma_seq_sq_dev_take(s: Seq<u64>, m: int, i: int)
    requires
        0 <= i < s.len(),
    ensures
        seq_sq_dev(s.take(i + 1), m) == seq_sq_dev(s.take(i), m) + (s[i] - m) * (s[i] - m),
{
    assert(s.take(i + 1).drop_last() =~= s.take(i));
    assert(s.take(i + 1).last() == s[i]);
}

/// Sorts the samples ascending in place, preserving the multiset.
pub fn sort_samples(v: &mut Vec<u64>)
    ensures
        final(v)@.len() == old(v)@.len(),
        sorted(final(v)@),
        final(v)@.to_multiset() == old(v)@.to_multiset(),
{
    let n: usize = v.len();
    let mut i: usize = 0;
    while i < n
        invariant
            n == v@.len(),
            i <= n,
            v@.to_multiset() == old(v)@.to_multiset(),
            forall|p: int, q: int| 0 <= p < q < i ==> v@[p] <= v@[q],
            forall|p: int, q: int| 0 <= p < i <= q < n ==> v@[p] <= v@[q],
        decreases n - i,
    {
        let mut m: usize = i;
        let mut j: usize = i + 1;
        while j < n
            invariant
                n == v@.len(),
                i <= m < n,
                i < j <= n,
                i < n,
                forall|q: int| i <= q < j ==> v@[m as int] <= v@[q],
            decreases n - j,
        {
            if v[j] < v[m] {
                m = j;
            }
            j = j + 1;
        }
        let a = v[i];
        let b = v[m];
        let ghost s0 = v@;
        v[i] = b;
        v[m] = a;
        proof {
            broadcast use vstd::seq_lib::group_to_multiset_ensures;

            assert(v@ == s0.update(i as int, b).update(m as int, a));
            assert(s0.update(i as int, b)[m as int] == b);
            assert(s0.to_multiset().contains(a));
            assert(s0.update(i as int, b).to_multiset() =~= s0.to_multiset().insert(b).remove(a));
            assert(v@.to_multiset() =~= s0.to_multiset().insert(b).remove(a).insert(a).remove(b));
            assert(v@.to_multiset() =~= s0.to_multiset());
        }
        i = i + 1;
    }
}

/// Reduces a non-empty timing sequence to its summary statistics: sorts
/// ascending, then takes total and mean over the original samples, the
/// upper median `sorted[n / 2]`, min and max as the sorted extremes, and
/// the Bessel-corrected standard deviation (zero for one sample).  The
/// bounds keep all intermediate arithmetic exact in 128 bits.
pub fn compute_stats(times: &mut Vec<u64>) -> (s: Stats)
    requires
        1 <= old(times)@.len() <= 0xffffffff,
        forall|i: int| 0 <= i < old(times)@.len() ==> old(times)@[i] < 0x1000000000000,
    ensures
        final(times)@.len() == old(times)@.len(),
        sorted(final(times)@),
        final(times)@.to_multiset() == old(times)@.to_multiset(),
        s.total == seq_sum(old(times)@),
        s.mean == seq_sum(old(times)@) / (old(times)@.len() as int),
        s.median == final(times)@[old(times)@.len() as int / 2],
        s.min == final(times)@[0],
        s.max == final(times)@[old(times)@.len() - 1],
        s.std_dev as int == floor_sqrt(variance_of(final(times)@, s.mean as int)),
        old(times)@.len() == 1 ==> s.std_dev == 0,
{
    let n: usize = times.len();
    let mut total: u128 = 0;
    let mut i: usize = 0;
    while i < n
        invariant
            n == times@.len(),
            times@ == old(times)@,
            n <= 0xffffffff,
            forall|k: int| 0 <= k < n ==> times@[k] < 0x1000000000000,
            i <= n,
            total == seq_sum(times@.take(i as int)),
            total <= i * 0xffffffffffff,
        decreases n - i,
    {
        proof {
            lemma_seq_sum_take(times@, i as int);
            assert((i + 1) * 0xffffffffffff == i * 0xffffffffffff + 0xffffffffffff)
                by (nonlinear_arith);
        }
        total = total + (times[i] as u128);
        i = i + 1;
    }
    proof {
        assert(times@.take(n as int) =~= times@);
    }
    sort_samples(times);
    proof {
        broadcast use vstd::seq_lib::group_to_multiset_ensures;

        assert forall|k: int| 0 <= k < times@.len() implies times@[k] < 0x1000000000000 by {
            assert(times@.to_multiset().contains(times@[k]));
            assert(old(times)@.to_multiset().contains(times@[k]));
            let j = choose|j: int| 0 <= j < old(times)@.len() && old(times)@[j] == times@[k];
        }
    }
    let mean: u64 = (total / (n as u128)) as u64;
    proof {
        assert(total <= n * 0x1000000000000 - n) by (nonlinear_arith)
            requires
                total <= (n as int) * 0xffffffffffff,
                n >= 1,
        ;
        assert((total as int) / (n as int) < 0x1000000000000) by (nonlinear_arith)
            requires
                1 <= n,
                0 <= total,
                total <= (n as int) * 0x1000000000000 - n,
        ;
    }
    let median: u64 = times[n / 2];
    let min: u64 = times[0];
    let max: u64 = times[n - 1];
    let std_dev: u64 = if n == 1 {
        proof {
            crate::arith::lemma_floor_sqrt_exists(0);
            lemma_floor_sqrt_unique(0, 0, floor_sqrt(0));
        }
        0
    } else {
        let mut ssd: u128 = 0;
        let mut k: usize = 0;
        while k < n
            invariant
                n == times@.len(),
                n <= 0xffffffff,
                forall|p: int| 0 <= p < n ==> times@[p] < 0x1000000000000,
                mean < 0x1000000000000,
                k <= n,
                ssd == seq_sq_dev(times@.take(k as int), mean as int),
                ssd <= k * 0xfffffffffffe000000000001,
            decreases n - k,
        {
            proof {
                lemma_seq_sq_dev_take(times@, mean as int, k as int);
            }
            let x: u64 = times[k];
            let dv: u64 = if x >= mean {
                x - mean
            } else {
                mean - x
            };
            proof {
                assert((dv as int) * (dv as int) == ((x as int) - (mean as int)) * ((x as int) - (
                mean as int))) by (nonlinear_arith)
                    requires
                        dv == if x >= mean {
                            (x - mean) as int
                        } else {
                            (mean - x) as int
                        },
                ;
                assert((dv as int) * (dv as int) <= 0xfffffffffffe000000000001)
                    by (nonlinear_arith)
                    requires
                        0 <= dv < 0x1000000000000,
                ;
                assert((k + 1) * 0xfffffffffffe000000000001 == k * 0xfffffffffffe000000000001
                    + 0xfffffffffffe000000000001) by (nonlinear_arith);
                assert(((k + 1) as int) * 0xfffffffffffe000000000001 <= 0xffffffff
                    * 0xfffffffffffe000000000001) by (nonlinear_arith)
                    requires
                        0 <= k,
                        k + 1 <= 0xffffffff,
                ;
            }
            ssd = ssd + (dv as u128) * (dv as u128);
            k = k + 1;
        }
        proof {
            assert(times@.take(n as int) =~= times@);
            assert((n as int) * 0xfffffffffffe000000000001 <= 2 * ((n as int) - 1)
                * 0xfffffffffffe000000000001) by (nonlinear_arith)
                requires
                    n >= 2,
            ;
        }
        let var: u128 = ssd / ((n - 1) as u128);
        proof {
            assert(var <= 2 * 0xfffffffffffe000000000001) by (nonlinear_arith)
                requires
                    var == (ssd as int) / ((n as int) - 1),
                    0 <= ssd,
                    ssd <= 2 * ((n as int) - 1) * 0xfffffffffffe000000000001,
                    n >= 2,
            ;
        }
        let r = isqrt(var);
        proof {
            crate::arith::lemma_floor_sqrt_exists(var as int);
            lemma_floor_sqrt_unique(var as int, r as int, floor_sqrt(var as int));
        }
        r
    };
    Stats { mean, median, std_dev, min, max, total }
}

} // verus!
