//! Little-endian byte strings and the numbers they spell.
use vstd::prelude::*;

verus! {

/// 256 raised to the power `n`.
pub open spec fn pow256(n: nat) -> nat
    decreases n,
{
    if n == 0 {
        1
    } else {
        256 * pow256((n - 1) as nat)
    }
}

/// The number that `bytes` spell, least significant byte first.
pub open spec fn le_value(bytes: Seq<u8>) -> nat
    decreases bytes.len(),
{
    if bytes.len() == 0 {
        0
    } else {
        bytes[0] as nat + 256 * le_value(bytes.drop_first())
    }
}

/// The `n` low-order bytes of `x`, least significant first.
pub open spec fn le_bytes(x: nat, n: nat) -> Seq<u8> {
    Seq::new(n, |i: int| ((x / pow256(i as nat)) % 256) as u8)
}

pub proof fn lemma_pow256_values()
    ensures
        pow256(1) == 0x100,
        pow256(2) == 0x1_0000,
        pow256(4) == 0x1_0000_0000,
        pow256(8) == 0x1_0000_0000_0000_0000,
        pow256(16) == 0x1_0000_0000_0000_0000_0000_0000_0000_0000,
{
    reveal_with_fuel(pow256, 17);
}

pub proof fn lemma_pow256_positive(n: nat)
    ensures
        pow256(n) > 0,
    decreases n,
{
    if n > 0 {
        lemma_pow256_positive((n - 1) as nat);
    }
}

pub proof fn lemma_pow256_monotonic(m: nat, n: nat)
    requires
        m <= n,
    ensures
        pow256(m) <= pow256(n),
    decreases n,
{
    if m < n {
        lemma_pow256_monotonic(m, (n - 1) as nat);
        lemma_pow256_positive((n - 1) as nat);
    }
}

/// A string of `n` bytes spells a number below `256^n`.
pub proof fn lemma_le_value_bound(bytes: Seq<u8>)
    ensures
        le_value(bytes) < pow256(bytes.len()),
    decreases bytes.len(),
{
    if bytes.len() > 0 {
        let rest = bytes.drop_first();
        lemma_le_value_bound(rest);
        assert(le_value(rest) + 1 <= pow256(rest.len()));
        assert(256 * le_value(rest) + 256 <= 256 * pow256(rest.len())) by (nonlinear_arith)
            requires
                le_value(rest) + 1 <= pow256(rest.len()),
        ;
    }
}

/// Bytes of value zero appended at the high end leave the number unchanged.
pub proof fn lemma_le_value_zero_padded(bytes: Seq<u8>, k: nat)
    ensures
        le_value(bytes + Seq::new(k, |i: int| 0u8)) == le_value(bytes),
    decreases bytes.len() + k,
{
    let zeros = Seq::new(k, |i: int| 0u8);
    if bytes.len() > 0 {
        lemma_le_value_zero_padded(bytes.drop_first(), k);
        assert((bytes + zeros).drop_first() =~= bytes.drop_first() + zeros);
    } else if k > 0 {
        let fewer = Seq::new((k - 1) as nat, |i: int| 0u8);
        lemma_le_value_zero_padded(bytes, (k - 1) as nat);
        assert((bytes + zeros).drop_first() =~= bytes + fewer);
        assert(bytes + zeros =~= zeros);
    } else {
        assert(bytes + zeros =~= bytes);
    }
}

/// Spelling out the `n` low bytes of `x` and reading them back gives `x mod 256^n`.
pub proof fn lemma_le_value_of_bytes(x: nat, n: nat)
    ensures
        le_value(le_bytes(x, n)) == x % pow256(n),
    decreases n,
{
    if n == 0 {
        assert(le_value(le_bytes(x, n)) == 0);
    } else {
        let m = (n - 1) as nat;
        let q = x / 256;
        lemma_le_value_of_bytes(q, m);
        assert forall|i: int| 0 <= i < m implies #[trigger] le_bytes(x, n).drop_first()[i]
            == le_bytes(q, m)[i] by {
            lemma_pow256_positive(i as nat);
            vstd::arithmetic::div_mod::lemma_div_denominator(x as int, 256, pow256(i as nat) as int);
            assert(pow256((i + 1) as nat) == 256 * pow256(i as nat));
        }
        assert(le_bytes(x, n).drop_first() =~= le_bytes(q, m));
        assert(pow256(0) == 1);
        assert(x / 1 == x);
        assert(le_bytes(x, n)[0] == (x % 256) as u8);
        lemma_pow256_positive(m);
        vstd::arithmetic::div_mod::lemma_breakdown(x as int, 256, pow256(m) as int);
    }
}

/// The number that the first `n` bytes of `bytes` spell, least significant
/// first.
pub fn read_le(bytes: &[u8], n: usize) -> (v: u64)
    requires
        n <= 8,
        n <= bytes@.len(),
    ensures
        v == le_value(bytes@.take(n as int)),
{
    let mut v: u64 = 0;
    let mut i: usize = n;
    while i > 0
        invariant
            i <= n <= 8,
            n <= bytes@.len(),
            v == le_value(bytes@.subrange(i as int, n as int)),
        decreases i,
    {
        i = i - 1;
        let ghost rest = bytes@.subrange(i + 1, n as int);
        proof {
            lemma_le_value_bound(rest);
            lemma_pow256_monotonic(rest.len(), 7);
            reveal_with_fuel(pow256, 8);
            assert(bytes@.subrange(i as int, n as int).drop_first() =~= rest);
        }
        v = v * 256 + bytes[i] as u64;
    }
    assert(bytes@.subrange(0, n as int) =~= bytes@.take(n as int));
    v
}

/// The eight bytes of `x`, least significant first.
pub fn write_le(x: u64) -> (out: [u8; 8])
    ensures
        out@ == le_bytes(x as nat, 8),
{
    let mut out: [u8; 8] = [0u8; 8];
    let mut rest: u64 = x;
    let mut i: usize = 0;
    assert(pow256(0) == 1);
    while i < 8
        invariant
            i <= 8,
            out@.len() == 8,
            rest == x as nat / pow256(i as nat),
            forall|j: int| 0 <= j < i ==> out@[j] == le_bytes(x as nat, 8)[j],
        decreases 8 - i,
    {
        out[i] = (rest % 256) as u8;
        proof {
            lemma_pow256_positive(i as nat);
            vstd::arithmetic::div_mod::lemma_div_denominator(x as int, pow256(i as nat) as int, 256);
            assert(pow256((i + 1) as nat) == 256 * pow256(i as nat));
        }
        rest = rest / 256;
        i = i + 1;
    }
    assert(out@ =~= le_bytes(x as nat, 8));
    out
}

} // verus!
