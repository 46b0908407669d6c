//! Latency telemetry: a fixed-bucket histogram with exact percentile
//! lookup over its bucket thresholds.

use vstd::prelude::*;

verus! {

use vstd::pervasive::VecAdditionalExecFns;

/// Number of latency buckets.
pub const HISTOGRAM_BUCKETS: usize = 12;

/// The upper threshold, in microseconds, reported for bucket `i`.
pub open spec fn bucket_threshold(i: int) -> u64 {
    if i == 0 {
        1
    } else if i == 1 {
        10
    } else if i == 2 {
        50
    } else if i == 3 {
        100
    } else if i == 4 {
        200
    } else if i == 5 {
        500
    } else if i == 6 {
        1000
    } else if i == 7 {
        5000
    } else if i == 8 {
        10000
    } else if i == 9 {
        50000
    } else if i == 10 {
        100000
    } else {
        500000
    }
}

/// The bucket a latency of `us` microseconds falls into: the first bucket
/// whose threshold exceeds it, the last bucket catching everything else.
pub open spec fn bucket_of(us: u64) -> int {
    if us < 1 {
        0
    } else if us < 10 {
        1
    } else if us < 50 {
        2
    } else if us < 100 {
        3
    } else if us < 200 {
        4
    } else if us < 500 {
        5
    } else if us < 1000 {
        6
    } else if us < 5000 {
        7
    } else if us < 10000 {
        8
    } else if us < 50000 {
        9
    } else if us < 100000 {
        10
    } else {
        11
    }
}

/// Total samples in buckets `[0, n)`.
pub open spec fn count_upto(buckets: Seq<u64>, n: int) -> int
    decreases n,
{
    if n <= 0 {
        0
    } else {
        count_upto(buckets, n - 1) + buckets[n - 1]
    }
}

/// The percentile answer: the threshold of the first bucket whose
/// cumulative count reaches `target`, or the top threshold when none
/// does.
pub open spec fn percentile_pick(buckets: Seq<u64>, target: int, i: int) -> u64
    decreases HISTOGRAM_BUCKETS - i,
{
    if i >= HISTOGRAM_BUCKETS {
        500000
    } else if count_upto(buckets, i + 1) >= target {
        bucket_threshold(i)
    } else {
        percentile_pick(buckets, target, i + 1)
    }
}

/// The reportable threshold of bucket `i`.
fn threshold_value(i: usize) -> (r: u64)
    ensures
        r == bucket_threshold(i as int),
{
    if i == 0 {
        1
    } else if i == 1 {
        10
    } else if i == 2 {
        50
    } else if i == 3 {
        100
    } else if i == 4 {
        200
    } else if i == 5 {
        500
    } else if i == 6 {
        1000
    } else if i == 7 {
        5000
    } else if i == 8 {
        10000
    } else if i == 9 {
        50000
    } else if i == 10 {
        100000
    } else {
        500000
    }
}

/// A fixed set of latency buckets covering one microsecond up to half a
/// second.
pub struct LiveHistogram {
    buckets: Vec<u64>,
}

impl LiveHistogram {
    /// The recorded counts.
    pub closed spec fn spec_buckets(&self) -> Seq<u64> {
        self.buckets@
    }

    /// Always exactly `HISTOGRAM_BUCKETS` buckets.
    pub closed spec fn wf(&self) -> bool {
        self.buckets@.len() == HISTOGRAM_BUCKETS
    }

    /// An empty histogram.
    pub fn new() -> (r: Self)
        ensures
            r.wf(),
            forall|i: int| 0 <= i < HISTOGRAM_BUCKETS ==> #[trigger] r.spec_buckets()[i] == 0,
    {
        LiveHistogram { buckets: vec![0u64; HISTOGRAM_BUCKETS] }
    }

    /// Records one latency sample of `us` microseconds in its bucket; a
    /// saturated bucket stays at its maximum.
    pub fn record(&mut self, us: u64)
        requires
            old(self).wf(),
        ensures
            final(self).wf(),
            ({
                let b = bucket_of(us);
                let prev = old(self).spec_buckets()[b];
                let next = if prev < u64::MAX {
                    (prev + 1) as u64
                } else {
                    prev
                };
                final(self).spec_buckets() == old(self).spec_buckets().update(b, next)
            }),
    {
        let idx: usize = if us < 1 {
            0
        } else if us < 10 {
            1
        } else if us < 50 {
            2
        } else if us < 100 {
            3
        } else if us < 200 {
            4
        } else if us < 500 {
            5
        } else if us < 1000 {
            6
        } else if us < 5000 {
            7
        } else if us < 10000 {
            8
        } else if us < 50000 {
            9
        } else if us < 100000 {
            10
        } else {
            11
        };
        let prev = self.buckets[idx];
        if prev < u64::MAX {
            self.buckets.set(idx, prev + 1);
        }
        proof {
            if prev == u64::MAX {
                assert(self.buckets@ =~= old(self).buckets@.update(
                    bucket_of(us),
                    old(self).buckets@[bucket_of(us)],
                ));
            }
        }
    }

    /// The latency threshold below which at least `numer/denom` of all
    /// samples fall: walks the buckets and returns the first threshold
    /// whose cumulative count reaches the target. An empty histogram
    /// reports zero.
    pub fn calculate_percentile(&self, numer: u64, denom: u64) -> (r: u64)
        requires
            self.wf(),
            0 < denom <= 1000000,
            numer <= denom,
        ensures
            count_upto(self.spec_buckets(), HISTOGRAM_BUCKETS as int) == 0 ==> r == 0,
            count_upto(self.spec_buckets(), HISTOGRAM_BUCKETS as int) > 0 ==> r
                == percentile_pick(
                self.spec_buckets(),
                (count_upto(self.spec_buckets(), HISTOGRAM_BUCKETS as int) * numer / (
                denom as int)) as int,
                0,
            ),
    {
        let mut total: u128 = 0;
        let mut i: usize = 0;
        while i < HISTOGRAM_BUCKETS
            invariant
                i <= HISTOGRAM_BUCKETS,
                self.wf(),
                total == count_upto(self.spec_buckets(), i as int),
                total <= (i as u128) * (u64::MAX as u128),
            decreases HISTOGRAM_BUCKETS - i,
        {
            proof {
                assert((i as u128 + 1) * (u64::MAX as u128) == (i as u128) * (u64::MAX as u128)
                    + (u64::MAX as u128)) by (nonlinear_arith);
            }
            total = total + self.buckets[i] as u128;
            i += 1;
        }
        if total == 0 {
            return 0;
        }
        proof {
            assert(total * (numer as u128) <= (12 * (u64::MAX as u128)) * 1000000)
                by (nonlinear_arith)
                requires
                    0 <= total <= 12 * (u64::MAX as u128),
                    0 <= (numer as u128) <= 1000000,
            ;
        }
        let target: u128 = total * (numer as u128) / (denom as u128);
        let ghost spec_target = count_upto(self.spec_buckets(), HISTOGRAM_BUCKETS as int) * numer
            / (denom as int);
        proof {
            assert(target == spec_target);
        }
        let mut count: u128 = 0;
        let mut j: usize = 0;
        while j < HISTOGRAM_BUCKETS
            invariant
                j <= HISTOGRAM_BUCKETS,
                self.wf(),
                count == count_upto(self.spec_buckets(), j as int),
                count <= (j as u128) * (u64::MAX as u128),
                target == spec_target,
                count_upto(self.spec_buckets(), HISTOGRAM_BUCKETS as int) > 0,
                spec_target == count_upto(self.spec_buckets(), HISTOGRAM_BUCKETS as int) * numer
                    / (denom as int),
                percentile_pick(self.spec_buckets(), spec_target as int, 0) == percentile_pick(
                    self.spec_buckets(),
                    spec_target as int,
                    j as int,
                ),
            decreases HISTOGRAM_BUCKETS - j,
        {
            proof {
                assert((j as u128 + 1) * (u64::MAX as u128) == (j as u128) * (u64::MAX as u128)
                    + (u64::MAX as u128)) by (nonlinear_arith);
            }
            count = count + self.buckets[j] as u128;
            if count >= target {
                proof {
                    assert(count_upto(self.spec_buckets(), j + 1) >= spec_target);
                    assert(percentile_pick(self.spec_buckets(), spec_target as int, j as int)
                        == bucket_threshold(j as int));
                }
                return threshold_value(j);
            }
            j += 1;
        }
        500000
    }
}

} // verus!
