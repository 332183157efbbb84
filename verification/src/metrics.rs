//! Distance and similarity metrics: their names and the integer part of
//! the prime (GCD) similarity.
use vstd::prelude::*;

verus! {

/// Greatest common divisor by Euclid's recurrence (gcd(a, 0) = a).
pub open spec fn spec_gcd(a: nat, b: nat) -> nat
    decreases b,
{
    if b == 0 {
        a
    } else {
        spec_gcd(b, a % b)
    }
}

/// The product `k * d`.
pub open spec fn times(k: nat, d: nat) -> nat {
    k * d
}

/// `d` divides `n`.
pub open spec fn divides(d: nat, n: nat) -> bool {
    exists|k: nat| #[trigger] times(k, d) == n
}

/// `spec_gcd(a, b)` is a common divisor of `a` and `b`, and every common
/// divisor of `a` and `b` divides it: it is their greatest common divisor.
pub proof fn lemma_gcd_is_greatest(a: nat, b: nat, d: nat)
    ensures
        divides(spec_gcd(a, b), a),
        divides(spec_gcd(a, b), b),
        divides(d, a) && divides(d, b) ==> divides(d, spec_gcd(a, b)),
    decreases b,
{
    if b == 0 {
        assert(times(1, a) == a);
        assert(times(0, a) == 0);
    } else {
        let r = a % b;
        let q = a / b;
        lemma_gcd_is_greatest(b, r, d);
        let g = spec_gcd(b, r);
        assert(a == q * b + r) by (nonlinear_arith)
            requires
                b > 0,
                r == a % b,
                q == a / b,
        ;
        let kb = choose|k: nat| times(k, g) == b;
        let kr = choose|k: nat| times(k, g) == r;
        assert((q * kb + kr) * g == a) by (nonlinear_arith)
            requires
                kb * g == b,
                kr * g == r,
                a == q * b + r,
        ;
        assert(times((q * kb + kr) as nat, g) == a);
        if divides(d, a) && divides(d, b) {
            let ka = choose|k: nat| times(k, d) == a;
            let kbd = choose|k: nat| times(k, d) == b;
            assert(d > 0) by {
                if d == 0 {
                    assert(kbd * d == 0) by (nonlinear_arith)
                        requires
                            d == 0,
                    ;
                }
            }
            assert(ka * d == (q * kbd) * d + r) by (nonlinear_arith)
                requires
                    ka * d == a,
                    kbd * d == b,
                    a == q * b + r,
            ;
            assert(ka >= q * kbd) by (nonlinear_arith)
                requires
                    ka * d == (q * kbd) * d + r,
                    d > 0,
                    r >= 0,
            ;
            assert((ka - q * kbd) * d == r) by (nonlinear_arith)
                requires
                    ka * d == a,
                    kbd * d == b,
                    a == q * b + r,
                    ka >= q * kbd,
            ;
            assert(times((ka - q * kbd) as nat, d) == r);
        }
    }
}

/// Compute GCD of two u64 values.
pub fn gcd(a0: u64, b0: u64) -> (r: u64)
    ensures
        r == spec_gcd(a0 as nat, b0 as nat),
{
    let mut a = a0;
    let mut b = b0;
    while b != 0
        invariant
            spec_gcd(a as nat, b as nat) == spec_gcd(a0 as nat, b0 as nat),
        decreases b,
    {
        let t = b;
        b = a % b;
        a = t;
    }
    a
}

/// Sum over positions of `gcd(a[i], b[i])`.
pub open spec fn gcd_total(a: Seq<u64>, b: Seq<u64>) -> nat
    decreases a.len(),
{
    if a.len() == 0 {
        0
    } else {
        gcd_total(a.drop_last(), b.drop_last()) + spec_gcd(
            a.last() as nat,
            b[a.len() - 1] as nat,
        )
    }
}

/// Sum over positions of `max(a[i], b[i])`.
pub open spec fn max_total(a: Seq<u64>, b: Seq<u64>) -> nat
    decreases a.len(),
{
    if a.len() == 0 {
        0
    } else {
        max_total(a.drop_last(), b.drop_last()) + if a.last() >= b[a.len() - 1] {
            a.last() as nat
        } else {
            b[a.len() - 1] as nat
        }
    }
}

/// The gcd of a pair never exceeds the larger of the two.
pub proof fn lemma_gcd_le_max(a: nat, b: nat)
    ensures
        spec_gcd(a, b) <= if a >= b { a } else { b },
    decreases b,
{
    if b > 0 {
        lemma_gcd_le_max(b, a % b);
        assert(a % b < b);
    }
}

/// The summed pairwise GCDs never exceed the summed pairwise maxima.
pub proof fn lemma_gcd_total_le(a: Seq<u64>, b: Seq<u64>)
    requires
        a.len() == b.len(),
    ensures
        gcd_total(a, b) <= max_total(a, b),
    decreases a.len(),
{
    if a.len() > 0 {
        lemma_gcd_total_le(a.drop_last(), b.drop_last());
        lemma_gcd_le_max(a.last() as nat, b[a.len() - 1] as nat);
    }
}

/// The integer part of the prime similarity of two vectors already scaled
/// to integers: the sum of the pairwise gcds and the sum of the pairwise
/// maxima.  The similarity is their ratio (0 when the maxima sum to 0).
pub fn prime_totals(a: &[u64], b: &[u64]) -> (r: (u64, u64))
    requires
        a@.len() == b@.len(),
        max_total(a@, b@) <= u64::MAX,
    ensures
        r.0 == gcd_total(a@, b@),
        r.1 == max_total(a@, b@),
{
    let mut total_gcd: u64 = 0;
    let mut total_max: u64 = 0;
    let mut i: usize = 0;
    while i < a.len()
        invariant
            a@.len() == b@.len(),
            i <= a@.len(),
            max_total(a@, b@) <= u64::MAX,
            total_gcd == gcd_total(a@.subrange(0, i as int), b@.subrange(0, i as int)),
            total_max == max_total(a@.subrange(0, i as int), b@.subrange(0, i as int)),
        decreases a@.len() - i,
    {
        let ghost sa = a@.subrange(0, i + 1);
        let ghost sb = b@.subrange(0, i + 1);
        proof {
            assert(sa.drop_last() =~= a@.subrange(0, i as int));
            assert(sb.drop_last() =~= b@.subrange(0, i as int));
            lemma_gcd_total_le(sa, sb);
            lemma_max_total_prefix(a@, b@, i + 1);
        }
        let g = gcd(a[i], b[i]);
        let m = if a[i] >= b[i] {
            a[i]
        } else {
            b[i]
        };
        total_gcd = total_gcd + g;
        total_max = total_max + m;
        i += 1;
    }
    proof {
        assert(a@.subrange(0, a@.len() as int) =~= a@);
        assert(b@.subrange(0, b@.len() as int) =~= b@);
    }
    (total_gcd, total_max)
}

/// A prefix's maxima sum is at most the whole sum.
pub proof fn lemma_max_total_prefix(a: Seq<u64>, b: Seq<u64>, n: int)
    requires
        a.len() == b.len(),
        0 <= n <= a.len(),
    ensures
        max_total(a.subrange(0, n), b.subrange(0, n)) <= max_total(a, b),
    decreases a.len(),
{
    if n < a.len() {
        assert(a.drop_last().subrange(0, n) =~= a.subrange(0, n));
        assert(b.drop_last().subrange(0, n) =~= b.subrange(0, n));
        lemma_max_total_prefix(a.drop_last(), b.drop_last(), n);
    } else {
        assert(a.subrange(0, n) =~= a);
        assert(b.subrange(0, n) =~= b);
    }
}

/// Cosine similarity metric.
#[derive(Debug, Default)]
pub struct CosineMetric;

impl CosineMetric {
    /// Create a new cosine metric.
    pub fn new() -> Self {
        CosineMetric
    }

    /// Name of this metric.
    pub fn name(&self) -> (r: &'static str)
        ensures
            r@ == "cosine"@,
    {
        "cosine"
    }
}

/// Prime / GCD-based similarity metric.
#[derive(Debug, Default)]
pub struct PrimeMetric;

impl PrimeMetric {
    /// Create a new prime metric.
    pub fn new() -> Self {
        PrimeMetric
    }

    /// Compute GCD of two u64 values.
    pub fn gcd(a: u64, b: u64) -> (r: u64)
        ensures
            r == spec_gcd(a as nat, b as nat),
    {
        gcd(a, b)
    }

    /// Name of this metric.
    pub fn name(&self) -> (r: &'static str)
        ensures
            r@ == "prime"@,
    {
        "prime"
    }
}

/// Wasserstein (earth mover's) distance metric.
#[derive(Debug, Default)]
pub struct WassersteinMetric;

impl WassersteinMetric {
    /// Create a new Wasserstein metric.
    pub fn new() -> Self {
        WassersteinMetric
    }

    /// Name of this metric.
    pub fn name(&self) -> (r: &'static str)
        ensures
            r@ == "wasserstein"@,
    {
        "wasserstein"
    }
}

/// Sinkhorn optimal transport distance: its name.
pub fn sinkhorn_name() -> (r: &'static str)
    ensures
        r@ == "sinkhorn"@,
{
    "sinkhorn"
}

} // verus!
