use vstd::prelude::*;

verus! {

/// The next state of the linear congruential generator:
/// `1103515245 * (n + 12345)`, both operations wrapping in 32 bits.
pub open spec fn lcg_next(n: i32) -> i32 {
    vstd::wrapping::i32_specs::wrapping_mul(
        1103515245,
        vstd::wrapping::i32_specs::wrapping_add(n, 12345),
    )
}

/// The generator's state after `k` numbers were drawn from state `n`.
pub open spec fn lcg_iter(n: i32, k: nat) -> i32
    decreases k,
{
    if k == 0 {
        n
    } else {
        lcg_next(lcg_iter(n, (k - 1) as nat))
    }
}

/// The seed and the state of a generator after `k` calls of `rand` from seed `seed` and
/// state `n`: each call draws the next state and keeps the seed.
pub open spec fn after_draws(seed: i32, n: i32, k: nat) -> (i32, i32)
    decreases k,
{
    if k == 0 {
        (seed, n)
    } else {
        let prev = after_draws(seed, n, (k - 1) as nat);
        (prev.0, lcg_next(prev.1))
    }
}

/// Drawing never changes the seed: after `set_seed(s)` and any number of `rand` calls,
/// `seed()` gives `s`, and the `k`-th number drawn is `lcg_iter(s, k)`.
pub proof fn lemma_draws_keep_seed(seed: i32, n: i32, k: nat)
    ensures
        after_draws(seed, n, k) == (seed, lcg_iter(n, k)),
    decreases k,
{
    if k > 0 {
        lemma_draws_keep_seed(seed, n, (k - 1) as nat);
    }
}

/// LCG based pseudo-random number generator.
#[derive(Default)]
pub struct RandomNumberGenerator {
    seed: i32,
    n: i32,
}

impl RandomNumberGenerator {
    /// The seed last set.
    pub closed spec fn spec_seed(&self) -> i32 {
        self.seed
    }

    /// The last number produced (or the seed, if none was produced since).
    pub closed spec fn spec_state(&self) -> i32 {
        self.n
    }

    pub fn new() -> (r: Self)
        ensures
            r.spec_seed() == 0,
            r.spec_state() == 0,
    {
        RandomNumberGenerator { seed: 0, n: 0 }
    }

    pub fn rand(&mut self) -> (r: i32)
        ensures
            r == lcg_next(old(self).spec_state()),
            final(self).spec_state() == r,
            final(self).spec_seed() == old(self).spec_seed(),
            (final(self).spec_seed(), final(self).spec_state()) == after_draws(
                old(self).spec_seed(),
                old(self).spec_state(),
                1,
            ),
    {
        self.n = 1103515245i32.wrapping_mul(self.n.wrapping_add(12345));
        proof {
            reveal_with_fuel(after_draws, 2);
        }
        self.n
    }

    /// The number the next `rand` gives, without drawing it.
    pub fn peek_next(&self) -> (r: i32)
        ensures
            r == lcg_next(self.spec_state()),
    {
        1103515245i32.wrapping_mul(self.n.wrapping_add(12345))
    }

    pub fn set_seed(&mut self, seed: i32)
        ensures
            final(self).spec_seed() == seed,
            final(self).spec_state() == seed,
    {
        self.seed = seed;
        self.n = seed;
    }

    pub fn seed(&self) -> (r: i32)
        ensures
            r == self.spec_seed(),
    {
        self.seed
    }
}

} // verus!
