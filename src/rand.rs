//! The bit-source contract and the generators that meet it.
use vstd::prelude::*;

pub mod wyrand;

pub use wyrand::WyRand;

verus! {

/// A stateful source of pseudo-random bytes, eight per pull.
///
/// The generator's state is its view. Each pull advances the state and
/// returns the output of the new state; the same state always gives the same
/// output and the same successor.
pub trait RNG: Sized + View {
    /// The bytes that a pull from `state` returns.
    spec fn output_of(state: Self::V) -> Seq<u8>;

    /// The state after one pull from `state`.
    spec fn step(state: Self::V) -> Self::V;

    /// The state that `seed` installs.
    spec fn seeded(seed: Seq<u8>) -> Self::V;

    /// The bytes that `rand_with_seed` derives from `seed`.
    spec fn seed_output(seed: Seq<u8>) -> Seq<u8>;

    /// The output derived from a seed is the first output of a generator
    /// reseeded with it.
    proof fn lemma_seed_output(seed: Seq<u8>)
        ensures
            Self::seed_output(seed) == Self::output_of(Self::seeded(seed)),
    ;

    /// Advances the state and returns the bytes of the new one.
    fn rand(&mut self) -> (out: [u8; 8])
        ensures
            out@ == Self::output_of(old(self)@),
            final(self)@ == Self::step(old(self)@),
    ;

    /// The first output of a generator freshly seeded with `seed`, without
    /// touching any generator.
    fn rand_with_seed(seed: &[u8]) -> (out: [u8; 8])
        ensures
            out@ == Self::seed_output(seed@),
    ;

    /// Replaces the state with the one that `seed` installs.
    fn reseed(&mut self, seed: &[u8])
        ensures
            final(self)@ == Self::seeded(seed@),
    ;
}

/// The first `n` outputs of a generator in `state`, in the order pulled.
pub open spec fn outputs<R: RNG>(state: R::V, n: nat) -> Seq<Seq<u8>>
    decreases n,
{
    if n == 0 {
        seq![]
    } else {
        seq![R::output_of(state)] + outputs::<R>(R::step(state), (n - 1) as nat)
    }
}

/// A seed fixes the whole sequence of outputs: two generators reseeded with
/// it pull the same `n` outputs, and the first is the output derived from the
/// seed without a generator.
pub proof fn lemma_seeded_outputs<R: RNG>(a: R, b: R, seed: Seq<u8>, n: nat)
    requires
        n > 0,
        a@ == R::seeded(seed),
        b@ == R::seeded(seed),
    ensures
        outputs::<R>(a@, n) == outputs::<R>(b@, n),
        outputs::<R>(a@, n).len() == n,
        outputs::<R>(a@, n)[0] == R::seed_output(seed),
{
    R::lemma_seed_output(seed);
    lemma_outputs_len::<R>(a@, n);
}

/// There are `n` of the first `n` outputs.
pub proof fn lemma_outputs_len<R: RNG>(state: R::V, n: nat)
    ensures
        outputs::<R>(state, n).len() == n,
    decreases n,
{
    if n > 0 {
        lemma_outputs_len::<R>(R::step(state), (n - 1) as nat);
    }
}

} // verus!
