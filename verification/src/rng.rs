//! Deterministic xorshift128 candidate stream.
//!
//! A 128-bit state of four 32-bit words; each step shifts the words down,
//! folds the old first and last word into a new last word, and returns that
//! word.  The stream is a pure function of the seed, which makes every
//! lane's candidate sequence reproducible.

use vstd::prelude::*;

verus! {

/// The shift-xor scramble that one step applies to the outgoing word.
pub open spec fn xs_scramble(t: u32) -> u32 {
    let a = t ^ (t << 11u32);
    a ^ (a >> 8u32)
}

/// The word one step produces from the first and last word of the state.
pub open spec fn xs_out(s0: u32, s3: u32) -> u32 {
    xs_scramble(s0) ^ s3 ^ (s3 >> 19u32)
}

/// The state after one step.
pub open spec fn step_state(s: Seq<u32>) -> Seq<u32>
    recommends
        s.len() == 4,
{
    seq![s[1], s[2], s[3], xs_out(s[0], s[3])]
}

/// The state after `n` steps from `seed`.
pub open spec fn nth_state(seed: Seq<u32>, n: nat) -> Seq<u32>
    decreases n,
{
    if n == 0 {
        seed
    } else {
        step_state(nth_state(seed, (n - 1) as nat))
    }
}

/// The word that the `n`-th step from `seed` returns (counting from 0).
pub open spec fn nth_out(seed: Seq<u32>, n: nat) -> u32 {
    let s = nth_state(seed, n);
    xs_out(s[0], s[3])
}

/// The word that wraps out of adding `x` to the 64-bit seed base.
pub open spec fn seed_word(base: u64, x: u64) -> u32 {
    vstd::wrapping::u64_specs::wrapping_add(base, x) as u32
}

/// A xorshift128 pseudo-random generator.
pub struct XorShift128 {
    /// The four 32-bit words of the state.
    pub state: [u32; 4],
}

impl XorShift128 {
    /// Starts a generator from the given four-word seed.
    pub fn new(seed: [u32; 4]) -> (r: Self)
        ensures
            r.state@ == seed@,
    {
        XorShift128 { state: seed }
    }

    /// Starts the generator of worker lane `lane`: the four seed words are
    /// the shared 64-bit base plus `lane`, `lane + 1`, `lane + 2` and
    /// `lane + 3`, each truncated to 32 bits.
    pub fn new_lane(seed_base: u64, lane: u64) -> (r: Self)
        requires
            lane + 3 <= u64::MAX,
        ensures
            r.state@ =~= seq![
                seed_word(seed_base, lane),
                seed_word(seed_base, (lane + 1) as u64),
                seed_word(seed_base, (lane + 2) as u64),
                seed_word(seed_base, (lane + 3) as u64),
            ],
    {
        XorShift128 {
            state: [
                seed_base.wrapping_add(lane) as u32,
                seed_base.wrapping_add(lane + 1) as u32,
                seed_base.wrapping_add(lane + 2) as u32,
                seed_base.wrapping_add(lane + 3) as u32,
            ],
        }
    }

    /// Advances the state by one xorshift128 step and returns the new last
    /// word.  Both the result and the new state are functions of the old
    /// state alone.
    pub fn next(&mut self) -> (r: u32)
        ensures
            final(self).state@ =~= step_state(old(self).state@),
            r == xs_out(old(self).state[0], old(self).state[3]),
    {
        let mut t = self.state[0];
        let s = self.state[3];
        t = t ^ (t << 11u32);
        t = t ^ (t >> 8u32);
        let n3 = t ^ s ^ (s >> 19u32);
        self.state = [self.state[1], self.state[2], self.state[3], n3];
        n3
    }

    /// Draws one character from `scale`: the next raw word, reduced modulo
    /// the length of `scale`.  The result is always a member of `scale`.
    pub fn next_char(&mut self, scale: &[u8]) -> (r: u8)
        requires
            scale@.len() > 0,
        ensures
            final(self).state@ =~= step_state(old(self).state@),
            r == scale@[xs_out(old(self).state[0], old(self).state[3]) as int % scale@.len() as int],
            scale@.contains(r),
    {
        let index = (self.next() as usize) % scale.len();
        let r = scale[index];
        proof {
            assert(scale@[index as int] == r);
        }
        r
    }
}

/// Determinism of the stream: two generators seeded identically agree on
/// the state and the output of every step, however many steps are taken.
pub proof fn lemma_stream_deterministic(s1: Seq<u32>, s2: Seq<u32>, n: nat)
    requires
        s1 == s2,
    ensures
        nth_state(s1, n) == nth_state(s2, n),
        nth_out(s1, n) == nth_out(s2, n),
{
}

} // verus!
