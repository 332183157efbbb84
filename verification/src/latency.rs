//! Latency histogram for percentile tracking.
//!
//! Samples are counted in fixed-width buckets; the last bucket also takes
//! every sample beyond the tracked range.  Counters wrap around on
//! overflow, as the atomic counters of a lock-free histogram do.
use vstd::prelude::*;
use crate::clock::{duration_nanos, nanos_of};

verus! {

/// Default bucket width in microseconds (10µs).
pub const DEFAULT_BUCKET_WIDTH_US: u64 = 10;

/// Default maximum tracked latency in microseconds (100ms).
pub const DEFAULT_MAX_LATENCY_US: u64 = 100_000;

/// Configuration for a latency histogram.
#[derive(Debug, Clone, Copy)]
pub struct HistogramConfig {
    /// Width of each bucket in microseconds.
    pub bucket_width_us: u64,
    /// Maximum tracked latency in microseconds.  Values above this are
    /// counted in the last bucket.
    pub max_latency_us: u64,
}

impl Default for HistogramConfig {
    fn default() -> (r: Self)
        ensures
            r.bucket_width_us == DEFAULT_BUCKET_WIDTH_US,
            r.max_latency_us == DEFAULT_MAX_LATENCY_US,
    {
        HistogramConfig {
            bucket_width_us: DEFAULT_BUCKET_WIDTH_US,
            max_latency_us: DEFAULT_MAX_LATENCY_US,
        }
    }
}

/// `a + b` wrapped around to 64 bits.
pub open spec fn wrap_add(a: u64, b: u64) -> u64 {
    if a + b > u64::MAX {
        (a + b - u64::MAX - 1) as u64
    } else {
        (a + b) as u64
    }
}

/// Sum of the first `n` counts of `b`.
pub open spec fn prefix_sum(b: Seq<u64>, n: int) -> int
    decreases n,
{
    if n <= 0 {
        0
    } else {
        prefix_sum(b, n - 1) + b[n - 1]
    }
}

/// Bucket `i` is where the cumulative count first reaches `target`, among
/// the buckets that hold samples.
pub open spec fn reaches(b: Seq<u64>, i: int, target: int) -> bool {
    0 <= i < b.len() && b[i] > 0 && prefix_sum(b, i + 1) >= target
}

/// Where a percentile falls: the bucket whose samples contain the target
/// rank, how many samples lie in earlier buckets, and how many in it.
#[derive(Debug, Clone, Copy)]
pub struct PercentilePoint {
    /// The rank of the sample this percentile asks for.
    pub target: u64,
    /// Whether some bucket reaches the target rank.
    pub found: bool,
    /// The bucket that reaches it.
    pub bucket: usize,
    /// Lower bound of that bucket in microseconds.
    pub bucket_start_us: u64,
    /// Samples in earlier buckets.
    pub before: u64,
    /// Samples in the bucket itself.
    pub in_bucket: u64,
}

/// The integer part of a percentile query: totals and, for p50, p95, p99
/// and p99.9 in that order, the bucket each falls in.
#[derive(Debug, Clone)]
pub struct PercentileBuckets {
    /// Number of recorded samples.
    pub count: u64,
    /// Sum of recorded latencies in microseconds.
    pub sum_us: u64,
    /// Minimum recorded latency (0 when there are no samples).
    pub min_us: u64,
    /// Maximum recorded latency (0 when there are no samples).
    pub max_us: u64,
    /// Bucket bucket width in microseconds.
    pub bucket_width_us: u64,
    /// One point per percentile, in the order p50, p95, p99, p99.9.
    pub points: Vec<PercentilePoint>,
}

/// The permille ranks of the four tracked percentiles.
pub open spec fn permille(j: int) -> int {
    if j == 0 {
        500
    } else if j == 1 {
        950
    } else if j == 2 {
        990
    } else {
        999
    }
}

/// Lock-free-style latency histogram.
pub struct LatencyHistogram {
    buckets: Vec<u64>,
    bucket_width_us: u64,
    num_buckets: usize,
    total_count: u64,
    total_sum_us: u64,
    min_us: u64,
    max_us: u64,
}

impl LatencyHistogram {
    /// Counters per bucket; bucket `i` covers `[i * width, (i+1) * width)`.
    pub closed spec fn buckets(&self) -> Seq<u64> {
        self.buckets@
    }

    pub closed spec fn width(&self) -> u64 {
        self.bucket_width_us
    }

    pub closed spec fn total(&self) -> u64 {
        self.total_count
    }

    pub closed spec fn sum(&self) -> u64 {
        self.total_sum_us
    }

    /// Smallest recorded latency, `u64::MAX` before any sample.
    pub closed spec fn min(&self) -> u64 {
        self.min_us
    }

    /// Largest recorded latency, 0 before any sample.
    pub closed spec fn max(&self) -> u64 {
        self.max_us
    }

    /// Well-formedness: the bucket width is positive, the buckets span at
    /// most `u64::MAX` microseconds, and the bucket counts add up to the
    /// total (both counted modulo 2^64, as they wrap alike).
    pub closed spec fn wf(&self) -> bool {
        &&& self.buckets@.len() == self.num_buckets
        &&& self.bucket_width_us > 0
        &&& self.num_buckets * self.bucket_width_us <= u64::MAX
        &&& prefix_sum(self.buckets@, self.buckets@.len() as int) % 0x1_0000_0000_0000_0000
            == self.total_count
    }

    /// A well-formed histogram has positive bucket width and its buckets
    /// span no more than `u64::MAX` microseconds.
    pub proof fn lemma_wf(&self)
        requires
            self.wf(),
        ensures
            self.width() > 0,
            self.buckets().len() * self.width() <= u64::MAX,
            prefix_sum(self.buckets(), self.buckets().len() as int) % 0x1_0000_0000_0000_0000
                == self.total(),
            prefix_sum(self.buckets(), self.buckets().len() as int) <= u64::MAX ==> prefix_sum(
                self.buckets(),
                self.buckets().len() as int,
            ) == self.total(),
    {
        let p = prefix_sum(self.buckets(), self.buckets().len() as int);
        lemma_prefix_monotone(self.buckets(), 0, self.buckets().len() as int);
        if p <= u64::MAX {
            vstd::arithmetic::div_mod::lemma_small_mod(p as nat, 0x1_0000_0000_0000_0000nat);
        }
    }

    /// The bucket a latency is counted in.
    pub open spec fn bucket_of(&self, latency_us: u64) -> int {
        let b = latency_us / self.width();
        if b >= self.buckets().len() {
            self.buckets().len() - 1
        } else {
            b as int
        }
    }

    /// Create a new histogram with default config (10µs buckets, 0–100ms).
    pub fn new() -> (r: Self)
        ensures
            r.wf(),
            r.buckets() == Seq::new(10_000, |i: int| 0u64),
            r.width() == DEFAULT_BUCKET_WIDTH_US,
            r.total() == 0,
            r.sum() == 0,
            r.min() == u64::MAX,
            r.max() == 0,
    {
        Self::with_config(HistogramConfig::default())
    }

    /// Create a new histogram with the given config: one bucket per
    /// `bucket_width_us` up to `max_latency_us`.
    pub fn with_config(config: HistogramConfig) -> (r: Self)
        requires
            config.bucket_width_us > 0,
            config.max_latency_us / config.bucket_width_us <= usize::MAX,
        ensures
            r.wf(),
            r.buckets() == Seq::new(
                (config.max_latency_us / config.bucket_width_us) as nat,
                |i: int| 0u64,
            ),
            r.width() == config.bucket_width_us,
            r.total() == 0,
            r.sum() == 0,
            r.min() == u64::MAX,
            r.max() == 0,
    {
        let num_buckets = (config.max_latency_us / config.bucket_width_us) as usize;
        let mut buckets: Vec<u64> = Vec::with_capacity(num_buckets);
        let mut i: usize = 0;
        while i < num_buckets
            invariant
                i <= num_buckets,
                buckets@ == Seq::new(i as nat, |k: int| 0u64),
            decreases num_buckets - i,
        {
            buckets.push(0);
            i += 1;
            proof {
                assert(buckets@ =~= Seq::new(i as nat, |k: int| 0u64));
            }
        }
        proof {
            assert(num_buckets * config.bucket_width_us <= config.max_latency_us) by (
            nonlinear_arith)
                requires
                    num_buckets == config.max_latency_us / config.bucket_width_us,
                    config.bucket_width_us > 0,
            ;
        }
        proof {
            lemma_prefix_zero(buckets@, buckets@.len() as int);
        }
        LatencyHistogram {
            buckets,
            bucket_width_us: config.bucket_width_us,
            num_buckets,
            total_count: 0,
            total_sum_us: 0,
            min_us: u64::MAX,
            max_us: 0,
        }
    }

    /// Record a latency sample in microseconds: the sample's bucket (the
    /// last one for out-of-range samples), the count and the sum each grow,
    /// wrapping on overflow; min and max follow the sample.
    pub fn record_us(&mut self, latency_us: u64)
        requires
            old(self).wf(),
            old(self).buckets().len() > 0,
        ensures
            final(self).wf(),
            final(self).width() == old(self).width(),
            final(self).buckets().len() == old(self).buckets().len(),
            final(self).buckets() == old(self).buckets().update(
                old(self).bucket_of(latency_us),
                wrap_add(old(self).buckets()[old(self).bucket_of(latency_us)], 1),
            ),
            final(self).total() == wrap_add(old(self).total(), 1),
            final(self).sum() == wrap_add(old(self).sum(), latency_us),
            final(self).min() == if latency_us < old(self).min() {
                latency_us
            } else {
                old(self).min()
            },
            final(self).max() == if latency_us > old(self).max() {
                latency_us
            } else {
                old(self).max()
            },
    {
        let bucket = latency_us / self.bucket_width_us;
        let idx: usize = if bucket >= self.num_buckets as u64 {
            self.num_buckets - 1
        } else {
            bucket as usize
        };
        let c = self.buckets[idx];
        let ghost b0 = self.buckets@;
        let ghost t0 = self.total_count;
        self.buckets.set(idx, c.wrapping_add(1));
        self.total_count = self.total_count.wrapping_add(1);
        proof {
            let n = b0.len() as int;
            let m: int = 0x1_0000_0000_0000_0000;
            lemma_prefix_update(b0, idx as int, wrap_add(c, 1), n);
            let p0 = prefix_sum(b0, n);
            let p1 = prefix_sum(self.buckets@, n);
            assert(self.buckets@ == b0.update(idx as int, wrap_add(c, 1)));
            lemma_prefix_monotone(b0, 0, n);
            if c == u64::MAX {
                assert(p1 == p0 + 1 - m);
                assert(p1 % m == (p0 + 1) % m) by {
                    vstd::arithmetic::div_mod::lemma_mod_add_multiples_vanish(p1, m);
                }
            } else {
                assert(p1 == p0 + 1);
            }
            assert((p0 + 1) % m == (p0 % m + 1) % m) by {
                vstd::arithmetic::div_mod::lemma_add_mod_noop(p0, 1, m);
                vstd::arithmetic::div_mod::lemma_small_mod(1nat, m as nat);
            }
            assert(p0 % m == t0);
            if t0 == u64::MAX {
                vstd::arithmetic::div_mod::lemma_mod_self_0(m);
            } else {
                vstd::arithmetic::div_mod::lemma_small_mod((t0 + 1) as nat, m as nat);
            }
        }
        self.total_sum_us = self.total_sum_us.wrapping_add(latency_us);
        if latency_us < self.min_us {
            self.min_us = latency_us;
        }
        if latency_us > self.max_us {
            self.max_us = latency_us;
        }
    }

    /// Record a latency sample from a `Duration`, counted in whole
    /// microseconds (truncated to 64 bits).
    pub fn record_duration(&mut self, duration: core::time::Duration)
        requires
            old(self).wf(),
            old(self).buckets().len() > 0,
        ensures
            final(self).wf(),
            ({
                let us = duration_micros(duration) as u64;
                &&& final(self).width() == old(self).width()
                &&& final(self).buckets() == old(self).buckets().update(
                    old(self).bucket_of(us),
                    wrap_add(old(self).buckets()[old(self).bucket_of(us)], 1),
                )
                &&& final(self).total() == wrap_add(old(self).total(), 1)
                &&& final(self).sum() == wrap_add(old(self).sum(), us)
                &&& final(self).min() == if us < old(self).min() {
                    us
                } else {
                    old(self).min()
                }
                &&& final(self).max() == if us > old(self).max() {
                    us
                } else {
                    old(self).max()
                }
            }),
    {
        let us = micros_of(&duration);
        self.record_us(us as u64);
    }

    /// Reset all counters to zero.
    pub fn reset(&mut self)
        requires
            old(self).wf(),
        ensures
            final(self).wf(),
            final(self).width() == old(self).width(),
            final(self).buckets() == Seq::new(old(self).buckets().len(), |i: int| 0u64),
            final(self).total() == 0,
            final(self).sum() == 0,
            final(self).min() == u64::MAX,
            final(self).max() == 0,
    {
        let mut i: usize = 0;
        while i < self.buckets.len()
            invariant
                self.buckets@.len() == old(self).buckets@.len(),
                self.bucket_width_us == old(self).bucket_width_us,
                self.num_buckets == old(self).num_buckets,
                old(self).wf(),
                i <= self.buckets@.len(),
                forall|k: int| 0 <= k < i ==> self.buckets@[k] == 0,
            decreases self.buckets@.len() - i,
        {
            self.buckets.set(i, 0);
            i += 1;
        }
        assert(self.buckets@ =~= Seq::new(old(self).buckets@.len(), |i: int| 0u64));
        proof {
            lemma_prefix_zero(self.buckets@, self.buckets@.len() as int);
        }
        self.total_count = 0;
        self.total_sum_us = 0;
        self.min_us = u64::MAX;
        self.max_us = 0;
    }

    /// Get the total number of recorded samples.
    pub fn count(&self) -> (r: u64)
        ensures
            r == self.total(),
    {
        self.total_count
    }

    /// Get the number of buckets.
    pub fn bucket_count(&self) -> (r: usize)
        requires
            self.wf(),
        ensures
            r == self.buckets().len(),
    {
        self.num_buckets
    }

    /// Locate the bucket where the cumulative count first reaches
    /// `target`.
    fn locate(&self, target: u64) -> (p: PercentilePoint)
        requires
            self.wf(),
            prefix_sum(self.buckets(), self.buckets().len() as int) <= u64::MAX,
        ensures
            p.target == target,
            p.found ==> {
                &&& reaches(self.buckets(), p.bucket as int, target as int)
                &&& forall|i: int| 0 <= i < p.bucket ==> !reaches(self.buckets(), i, target as int)
                &&& p.before == prefix_sum(self.buckets(), p.bucket as int)
                &&& p.in_bucket == self.buckets()[p.bucket as int]
                &&& p.bucket_start_us == p.bucket * self.width()
            },
            !p.found ==> forall|i: int|
                0 <= i < self.buckets().len() ==> !reaches(self.buckets(), i, target as int),
    {
        let b = &self.buckets;
        let mut cumulative: u64 = 0;
        let mut i: usize = 0;
        while i < b.len()
            invariant
                i <= b@.len(),
                b@ == self.buckets@,
                self.wf(),
                cumulative == prefix_sum(b@, i as int),
                prefix_sum(b@, b@.len() as int) <= u64::MAX,
                forall|k: int| 0 <= k < i ==> !reaches(b@, k, target as int),
            decreases b@.len() - i,
        {
            proof {
                lemma_prefix_monotone(b@, i + 1, b@.len() as int);
            }
            let c = b[i];
            let prev = cumulative;
            cumulative = cumulative + c;
            if c > 0 && cumulative >= target {
                proof {
                    assert(i < self.num_buckets);
                    assert(i * self.bucket_width_us <= self.num_buckets * self.bucket_width_us)
                        by (nonlinear_arith)
                        requires
                            i < self.num_buckets,
                    ;
                }
                return PercentilePoint {
                    target,
                    found: true,
                    bucket: i,
                    bucket_start_us: i as u64 * self.bucket_width_us,
                    before: prev,
                    in_bucket: c,
                };
            }
            i += 1;
        }
        PercentilePoint {
            target,
            found: false,
            bucket: 0,
            bucket_start_us: 0,
            before: 0,
            in_bucket: 0,
        }
    }

    /// What a percentile query reports of this histogram: its totals, and
    /// for p50, p95, p99 and p99.9 (in that order) the target rank and the
    /// first bucket holding samples whose cumulative count reaches it.
    pub open spec fn reports(&self, r: PercentileBuckets) -> bool {
        &&& (r.count == self.total())
        &&& (r.sum_us == self.sum())
        &&& (r.bucket_width_us == self.width())
        &&& (r.count == 0 ==> r.min_us == 0 && r.max_us == 0 && r.points@.len() == 0)
        &&& (r.count > 0 ==> {
                &&& r.min_us == if self.min() == u64::MAX {
                    0
                } else {
                    self.min()
                }
                &&& r.max_us == self.max()
                &&& r.points@.len() == 4
                &&& forall|j: int|
                    0 <= j < 4 ==> {
                        let p = #[trigger] r.points@[j];
                        let t = self.total() * permille(j) / 1000;
                        &&& p.target == t
                        &&& p.found ==> {
                            &&& reaches(self.buckets(), p.bucket as int, t)
                            &&& forall|i: int|
                                0 <= i < p.bucket ==> !reaches(self.buckets(), i, t)
                            &&& p.before == prefix_sum(self.buckets(), p.bucket as int)
                            &&& p.in_bucket == self.buckets()[p.bucket as int]
                            &&& p.bucket_start_us == p.bucket * self.width()
                        }
                        &&& !p.found ==> forall|i: int|
                            0 <= i < self.buckets().len() ==> !reaches(self.buckets(), i, t)
                    }
                &&& forall|j: int|
                    0 <= j < 3 && (#[trigger] r.points@[j + 1]).found ==> r.points@[j].found
                        && r.points@[j].bucket <= r.points@[j + 1].bucket
            })
    }

    /// Compute, from the current bucket state, where each tracked
    /// percentile falls.  The target rank of percentile `p` (in permille)
    /// is `count * p / 1000`; it falls in the first bucket holding samples
    /// whose cumulative count reaches that rank.
    pub fn percentile_buckets(&self) -> (r: PercentileBuckets)
        requires
            self.wf(),
            prefix_sum(self.buckets(), self.buckets().len() as int) <= u64::MAX,
            self.total() * 999 <= u64::MAX,
        ensures
            self.reports(r),
    {
        let count = self.total_count;
        if count == 0 {
            return PercentileBuckets {
                count: 0,
                sum_us: self.total_sum_us,
                min_us: 0,
                max_us: 0,
                bucket_width_us: self.bucket_width_us,
                points: Vec::new(),
            };
        }
        let mut points: Vec<PercentilePoint> = Vec::new();
        points.push(self.locate(count * 500 / 1000));
        points.push(self.locate(count * 950 / 1000));
        points.push(self.locate(count * 990 / 1000));
        points.push(self.locate(count * 999 / 1000));
        proof {
            let b = self.buckets();
            assert forall|j: int| 0 <= j < 3 && (#[trigger] points@[j + 1]).found implies points@[j].found
                && points@[j].bucket <= points@[j + 1].bucket by {
                let t1 = count * permille(j) / 1000;
                let t2 = count * permille(j + 1) / 1000;
                assert(count * permille(j) <= count * permille(j + 1)) by (nonlinear_arith)
                    requires
                        permille(j) <= permille(j + 1),
                ;
                assert(t1 <= t2) by (nonlinear_arith)
                    requires
                        t1 == count * permille(j) / 1000,
                        t2 == count * permille(j + 1) / 1000,
                        count * permille(j) <= count * permille(j + 1),
                ;
                let i2 = points@[j + 1].bucket as int;
                assert(reaches(b, i2, t1));
            }
        }
        let min_us = if self.min_us == u64::MAX {
            0
        } else {
            self.min_us
        };
        PercentileBuckets {
            count,
            sum_us: self.total_sum_us,
            min_us,
            max_us: self.max_us,
            bucket_width_us: self.bucket_width_us,
            points,
        }
    }

    /// Whether the bucket counts add up to no more than `u64::MAX`.
    fn buckets_fit(&self) -> (r: bool)
        ensures
            r == (prefix_sum(self.buckets(), self.buckets().len() as int) <= u64::MAX),
    {
        let b = &self.buckets;
        let mut acc: u64 = 0;
        let mut i: usize = 0;
        while i < b.len()
            invariant
                i <= b@.len(),
                b@ == self.buckets@,
                acc == prefix_sum(b@, i as int),
            decreases b@.len() - i,
        {
            proof {
                lemma_prefix_monotone(b@, i + 1, b@.len() as int);
            }
            match acc.checked_add(b[i]) {
                Some(x) => acc = x,
                None => {
                    proof {
                        lemma_prefix_monotone(b@, i + 1, b@.len() as int);
                    }
                    return false;
                },
            }
            i += 1;
        }
        true
    }

    /// [`Self::percentile_buckets`] where its bounds hold (the bucket
    /// counts sum to at most `u64::MAX`, and `count * 999` fits), `None`
    /// where counting would overflow.
    pub fn try_percentile_buckets(&self) -> (r: Option<PercentileBuckets>)
        requires
            self.wf(),
        ensures
            r is Some <==> (prefix_sum(self.buckets(), self.buckets().len() as int) <= u64::MAX
                && self.total() * 999 <= u64::MAX),
            r matches Some(b) ==> self.reports(b),
    {
        if self.total_count > u64::MAX / 999 {
            return None;
        }
        if !self.buckets_fit() {
            return None;
        }
        Some(self.percentile_buckets())
    }
}

/// A sequence of zeros sums to zero.
proof fn lemma_prefix_zero(b: Seq<u64>, n: int)
    requires
        0 <= n <= b.len(),
        forall|i: int| 0 <= i < b.len() ==> b[i] == 0,
    ensures
        prefix_sum(b, n) == 0,
    decreases n,
{
    if n > 0 {
        lemma_prefix_zero(b, n - 1);
    }
}

/// Changing one count changes the sum by the difference.
proof fn lemma_prefix_update(b: Seq<u64>, i: int, v: u64, n: int)
    requires
        0 <= i < b.len(),
        0 <= n <= b.len(),
    ensures
        prefix_sum(b.update(i, v), n) == prefix_sum(b, n) + if i < n {
            v - b[i]
        } else {
            0
        },
    decreases n,
{
    if n > 0 {
        lemma_prefix_update(b, i, v, n - 1);
    }
}

/// Prefix sums never decrease.
pub proof fn lemma_prefix_monotone(b: Seq<u64>, m: int, n: int)
    requires
        0 <= m <= n <= b.len(),
    ensures
        prefix_sum(b, m) <= prefix_sum(b, n),
    decreases n - m,
{
    if m < n {
        lemma_prefix_monotone(b, m, n - 1);
    }
}

/// The number of whole microseconds in a duration: its whole nanoseconds
/// divided by 1000.
pub open spec fn duration_micros(d: core::time::Duration) -> u128 {
    duration_nanos(d) / 1000
}

/// `Duration::as_micros`: the whole microseconds a duration holds.
fn micros_of(d: &core::time::Duration) -> (r: u128)
    ensures
        r == duration_micros(*d),
{
    nanos_of(d) / 1000
}

impl Default for LatencyHistogram {
    fn default() -> (r: Self)
        ensures
            r.wf(),
            r.buckets() == Seq::new(10_000, |i: int| 0u64),
            r.width() == DEFAULT_BUCKET_WIDTH_US,
            r.total() == 0,
    {
        Self::new()
    }
}

} // verus!
