//! The wyrand generator: a 64-bit state advanced by an odd constant and
//! mixed through a widened multiplication.
use vstd::prelude::*;

use crate::bytes::{
    le_bytes, le_value, lemma_le_value_of_bytes, lemma_le_value_zero_padded, pow256, read_le,
    write_le,
};
use crate::rand::RNG;
use crate::range::full_width_value;

verus! {

/// The odd constant added to the state on each pull.
pub const INCREMENT: u64 = 0xa076_1d64_78bd_642f;

/// The constant that the state is combined with before the multiplication.
pub const MIX: u64 = 0xe703_7ed1_a0b4_28db;

/// The state after one pull: `state + INCREMENT`, wrapping.
pub open spec fn wy_step(state: u64) -> u64 {
    state.wrapping_add(INCREMENT)
}

/// The mixing function: the 128-bit product `state * (state ^ MIX)`, its high
/// half exclusive-or its low half.
pub open spec fn wy_mix(state: u64) -> u64 {
    let t = state as nat * (state ^ MIX) as nat;
    ((t / 0x1_0000_0000_0000_0000) as u64) ^ ((t % 0x1_0000_0000_0000_0000) as u64)
}

/// The state that a seed installs: its first eight bytes read least
/// significant first, a shorter seed standing as if padded with zeros.
pub open spec fn wy_seed_state(seed: Seq<u8>) -> u64 {
    if seed.len() < 8 {
        le_value(seed) as u64
    } else {
        le_value(seed.take(8)) as u64
    }
}

/// An instance of the wyrand generator.
///
/// Each pull yields the mixed 64-bit word least significant byte first, and a
/// seed is read in the same order.
///
/// **This generator is _NOT_ cryptographically secure.**
pub struct WyRand {
    seed: u64,
}

impl View for WyRand {
    type V = u64;

    closed spec fn view(&self) -> u64 {
        self.seed
    }
}

fn mix(state: u64) -> (r: u64)
    ensures
        r == wy_mix(state),
{
    let other = state ^ MIX;
    proof {
        assert(state as nat * other as nat <= 0xffff_ffff_ffff_ffff * 0xffff_ffff_ffff_ffff)
            by (nonlinear_arith)
            requires
                state <= 0xffff_ffff_ffff_ffffu64,
                other <= 0xffff_ffff_ffff_ffffu64,
        ;
    }
    let t: u128 = (state as u128) * (other as u128);
    assert(t >> 64 == t / 0x1_0000_0000_0000_0000) by (bit_vector);
    assert(t as u64 == (t % 0x1_0000_0000_0000_0000) as u64) by (bit_vector);
    ((t >> 64) as u64) ^ (t as u64)
}

/// The state that `seed` installs.
fn seed_state(seed: &[u8]) -> (s: u64)
    ensures
        s == wy_seed_state(seed@),
{
    let n: usize = if seed.len() < 8 {
        seed.len()
    } else {
        8
    };
    let s = read_le(seed, n);
    proof {
        if seed@.len() < 8 {
            assert(seed@.take(n as int) =~= seed@);
        }
    }
    s
}

impl Clone for WyRand {
    fn clone(&self) -> (r: Self)
        ensures
            r@ == self@,
    {
        WyRand { seed: self.seed }
    }
}

impl WyRand {
    /// A generator whose state is `seed`, as drawn from a source of entropy.
    pub fn new(seed: u64) -> (r: WyRand)
        ensures
            r@ == seed,
    {
        WyRand { seed }
    }
}

impl RNG for WyRand {
    open spec fn output_of(state: u64) -> Seq<u8> {
        le_bytes(wy_mix(wy_step(state)) as nat, 8)
    }

    open spec fn step(state: u64) -> u64 {
        wy_step(state)
    }

    open spec fn seeded(seed: Seq<u8>) -> u64 {
        wy_seed_state(seed)
    }

    open spec fn seed_output(seed: Seq<u8>) -> Seq<u8> {
        le_bytes(wy_mix(wy_seed_state(seed).wrapping_add(INCREMENT)) as nat, 8)
    }

    proof fn lemma_seed_output(seed: Seq<u8>) {
    }

    fn rand(&mut self) -> (out: [u8; 8]) {
        self.seed = self.seed.wrapping_add(INCREMENT);
        write_le(mix(self.seed))
    }

    fn rand_with_seed(seed: &[u8]) -> (out: [u8; 8]) {
        let state = seed_state(seed).wrapping_add(INCREMENT);
        write_le(mix(state))
    }

    fn reseed(&mut self, seed: &[u8]) {
        self.seed = seed_state(seed);
    }
}

/// A seed shorter than the state installs the same state as that seed padded
/// with zero bytes to the state's eight.
pub proof fn lemma_short_seed_zero_extended(seed: Seq<u8>)
    requires
        seed.len() < 8,
    ensures
        WyRand::seeded(seed) == WyRand::seeded(seed + Seq::new((8 - seed.len()) as nat, |i: int| 0u8)),
{
    let padded = seed + Seq::new((8 - seed.len()) as nat, |i: int| 0u8);
    lemma_le_value_zero_padded(seed, (8 - seed.len()) as nat);
    assert(padded.take(8) =~= padded);
}

/// A full-width draw of up to eight bytes from WyRand is the mixing
/// function's output word reduced to those bytes.
pub proof fn lemma_full_width_draw(state: u64, width: nat)
    requires
        width <= 8,
    ensures
        full_width_value(WyRand::output_of(state), width) == wy_mix(wy_step(state)) as nat % pow256(width),
{
    let x = wy_mix(wy_step(state)) as nat;
    assert(le_bytes(x, 8).take(width as int) =~= le_bytes(x, width));
    lemma_le_value_of_bytes(x, width);
}

} // verus!
