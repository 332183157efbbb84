//! Deterministic pseudo-random numbers: a splitmix64 finalizer to spread
//! the seed, then xorshift64 steps.  xorshift64 maps a non-zero state to
//! a non-zero state, so the generator never gets stuck at zero.
use vstd::prelude::*;

verus! {

/// One xorshift64 step (shifts 13, 7, 17).
pub open spec fn spec_xorshift(x: u64) -> u64 {
    let a = x ^ (x << 13u64);
    let b = a ^ (a >> 7u64);
    b ^ (b << 17u64)
}

/// One xorshift64 step.
pub fn xorshift64(x: u64) -> (r: u64)
    ensures
        r == spec_xorshift(x),
{
    let a = x ^ (x << 13);
    let b = a ^ (a >> 7);
    b ^ (b << 17)
}

/// The splitmix64 finalizer applied to `seed` (before the zero guard).
pub open spec fn spec_splitmix(seed: u64) -> u64 {
    let z0 = vstd::wrapping::u64_specs::wrapping_add(seed, 0x9e3779b97f4a7c15);
    let z1 = vstd::wrapping::u64_specs::wrapping_mul(z0 ^ (z0 >> 30u64), 0xbf58476d1ce4e5b9);
    let z2 = vstd::wrapping::u64_specs::wrapping_mul(z1 ^ (z1 >> 27u64), 0x94d049bb133111eb);
    z2 ^ (z2 >> 31u64)
}

/// The state a generator seeded with `seed` starts from: the splitmix64
/// finalizer of the seed, with zero replaced by 1.
pub open spec fn seed_state(seed: u64) -> u64 {
    if spec_splitmix(seed) == 0 {
        1
    } else {
        spec_splitmix(seed)
    }
}

/// The state of a generator seeded with `seed` after `k` draws; the
/// `k`-th draw returns it.
pub open spec fn state_after(seed: u64, k: nat) -> u64
    decreases k,
{
    if k == 0 {
        seed_state(seed)
    } else {
        spec_xorshift(state_after(seed, (k - 1) as nat))
    }
}

/// A deterministic generator.
pub struct DeterministicRng {
    state: u64,
}

impl DeterministicRng {
    pub closed spec fn state(&self) -> u64 {
        self.state
    }

    /// A generator seeded with `seed`, spread by splitmix64; a zero state
    /// becomes 1.
    pub fn new(seed: u64) -> (r: Self)
        ensures
            r.state() == seed_state(seed),
            r.state() == state_after(seed, 0),
            r.state() != 0,
    {
        let mut z = seed.wrapping_add(0x9e3779b97f4a7c15);
        z = (z ^ (z >> 30)).wrapping_mul(0xbf58476d1ce4e5b9);
        z = (z ^ (z >> 27)).wrapping_mul(0x94d049bb133111eb);
        z = z ^ (z >> 31);
        DeterministicRng { state: if z == 0 { 1 } else { z } }
    }

    /// Advance the state by one xorshift64 step and return it.
    pub fn next_u64(&mut self) -> (r: u64)
        ensures
            r == spec_xorshift(old(self).state()),
            final(self).state() == r,
            old(self).state() != 0 ==> r != 0,
    {
        proof {
            if self.state != 0 {
                lemma_xorshift_nonzero(self.state);
            }
        }
        self.state = xorshift64(self.state);
        self.state
    }
}

/// xorshift64 keeps a non-zero state non-zero.
pub proof fn lemma_xorshift_nonzero(x: u64)
    requires
        x != 0,
    ensures
        spec_xorshift(x) != 0,
{
    let a = x ^ (x << 13u64);
    let b = a ^ (a >> 7u64);
    let c = b ^ (b << 17u64);
    assert(x != 0 ==> x ^ (x << 13u64) != 0) by (bit_vector);
    assert(a != 0 ==> a ^ (a >> 7u64) != 0) by (bit_vector);
    assert(b != 0 ==> b ^ (b << 17u64) != 0) by (bit_vector);
}

/// A generator's state is never zero, before or after a step.
pub proof fn lemma_state_nonzero(seed: u64)
    ensures
        (if spec_splitmix(seed) == 0 {
            1
        } else {
            spec_splitmix(seed)
        }) != 0,
        spec_xorshift(
            if spec_splitmix(seed) == 0 {
                1
            } else {
                spec_splitmix(seed)
            },
        ) != 0,
{
    let s = if spec_splitmix(seed) == 0 {
        1
    } else {
        spec_splitmix(seed)
    };
    lemma_xorshift_nonzero(s);
}

/// Generators are deterministic: every generator made from `seed` is, after
/// `k` draws, in the state `state_after(seed, k)` (its next draw is the
/// xorshift step of it), so two generators from one seed agree at every
/// draw; and that state is never zero.
pub proof fn lemma_draws(seed: u64, k: nat)
    ensures
        state_after(seed, k) != 0,
        state_after(seed, k + 1) == spec_xorshift(state_after(seed, k)),
    decreases k,
{
    if k == 0 {
        lemma_state_nonzero(seed);
    } else {
        lemma_draws(seed, (k - 1) as nat);
        lemma_xorshift_nonzero(state_after(seed, (k - 1) as nat));
    }
}

} // verus!
