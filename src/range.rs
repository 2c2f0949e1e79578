//! Unbiased draws below a bound by Lemire's multiply-and-reject method.
use vstd::prelude::*;

use crate::bytes::{le_value, lemma_le_value_bound, lemma_pow256_monotonic, lemma_pow256_values, pow256, read_le};
use crate::rand::RNG;
use vstd::arithmetic::div_mod::{lemma_fundamental_div_mod, lemma_fundamental_div_mod_converse};
use vstd::set_lib::{lemma_int_range, set_int_range};

verus! {

/// How many times a rejected draw is drawn again before the last one is
/// kept as it is. No run of a sound generator comes near it.
pub const MAX_REDRAWS: u64 = 0xffff_ffff_ffff_ffff;

/// The value of `width` bytes built from a pull's `output`: its first
/// `min(width, len)` bytes, least significant first, the rest zero.
pub open spec fn full_width_value(output: Seq<u8>, width: nat) -> nat {
    if width <= output.len() {
        le_value(output.take(width as int))
    } else {
        le_value(output)
    }
}

/// The size of the biased region for a draw below `bound` from `width`
/// bytes: `(-bound) mod bound` in that width.
pub open spec fn biased_region(bound: nat, width: nat) -> nat {
    ((pow256(width) - bound) as nat) % bound
}

/// Whether the low `width` bytes of `x * bound` leave the biased region.
pub open spec fn accepts(x: nat, bound: nat, width: nat) -> bool {
    (x * bound) % pow256(width) >= biased_region(bound, width)
}

/// The draw below `bound` that `x` gives: the high `width` bytes of
/// `x * bound`.
pub open spec fn scaled(x: nat, bound: nat, width: nat) -> nat {
    (x * bound) / pow256(width)
}

/// The value below `bound` drawn from a generator in `state` with draws of
/// `width` bytes, and the state it leaves: draws are taken until one is
/// accepted, or until `redraws` further draws have been rejected, when the
/// last is kept.
pub open spec fn bounded_pick<R: RNG>(state: R::V, bound: nat, width: nat, redraws: nat) -> (nat, R::V)
    decreases redraws,
{
    let x = full_width_value(R::output_of(state), width);
    if accepts(x, bound, width) || redraws == 0 {
        (scaled(x, bound, width), R::step(state))
    } else {
        bounded_pick::<R>(R::step(state), bound, width, (redraws - 1) as nat)
    }
}

/// The result of the widest draws, where no wider type holds the product:
/// the product's low bytes themselves.
pub open spec fn wrapped(x: nat, bound: nat, width: nat) -> nat {
    (x * bound) % pow256(width)
}

/// As `bounded_pick`, for the widest type: the kept value is the product's
/// low `width` bytes.
pub open spec fn wide_pick<R: RNG>(state: R::V, bound: nat, width: nat, redraws: nat) -> (nat, R::V)
    decreases redraws,
{
    let x = full_width_value(R::output_of(state), width);
    if accepts(x, bound, width) || redraws == 0 {
        (wrapped(x, bound, width), R::step(state))
    } else {
        wide_pick::<R>(R::step(state), bound, width, (redraws - 1) as nat)
    }
}

/// The draws of `width` bytes that are accepted and give `v` below `bound`.
pub open spec fn givers(bound: nat, width: nat, v: nat) -> Set<int> {
    Set::new(
        |x: int|
            0 <= x < pow256(width) && accepts(x as nat, bound, width) && scaled(x as nat, bound, width)
                == v,
    )
}

/// The debiasing is exact: over all draws of `width` bytes, each value below
/// `bound` is given by the same number, `256^width / bound`, of accepted draws.
/// A uniform draw therefore gives a uniform value below `bound`.
pub proof fn lemma_unbiased(bound: nat, width: nat, v: nat)
    requires
        0 < bound < pow256(width),
        v < bound,
    ensures
        givers(bound, width, v).finite(),
        givers(bound, width, v).len() == pow256(width) / bound,
{
    let m = pow256(width) as int;
    let n = bound as int;
    let q = m / n;
    let t = m % n;
    lemma_fundamental_div_mod(m, n);
    assert(q >= 1) by (nonlinear_arith)
        requires
            m == n * q + t,
            0 <= t < n,
            n < m,
    ;
    assert(m - n == (q - 1) * n + t) by (nonlinear_arith)
        requires
            m == n * q + t,
    ;
    lemma_fundamental_div_mod_converse(m - n, n, q - 1, t);
    assert(biased_region(bound, width) == t);
    let a = v * m + t;
    let c = (a + n - 1) / n;
    lemma_fundamental_div_mod(a + n - 1, n);
    assert(n * (c - 1) < a <= n * c) by (nonlinear_arith)
        requires
            a + n - 1 == n * c + (a + n - 1) % n,
            0 <= (a + n - 1) % n < n,
    ;
    assert(v * m + m == a + q * n) by (nonlinear_arith)
        requires
            a == v * m + t,
            m == n * q + t,
    ;
    assert(c >= 0) by (nonlinear_arith)
        requires
            a <= n * c,
            n * (c - 1) < a,
            a >= 0,
            n > 0,
    ;
    assert forall|x: int| #[trigger] givers(bound, width, v).contains(x) <==> set_int_range(c, c + q).contains(x) by {
        let p = x * n;
        if givers(bound, width, v).contains(x) {
            lemma_fundamental_div_mod(p, m);
            assert(p / m == v);
            assert(p % m >= t);
            assert(a <= p < a + q * n) by (nonlinear_arith)
                requires
                    p == m * (p / m) + p % m,
                    p / m == v,
                    t <= p % m < m,
                    a == v * m + t,
                    v * m + m == a + q * n,
            ;
            assert(c <= x < c + q) by (nonlinear_arith)
                requires
                    a <= x * n < a + q * n,
                    n * (c - 1) < a <= n * c,
                    n > 0,
            ;
        }
        if set_int_range(c, c + q).contains(x) {
            assert(a <= p < a + q * n) by (nonlinear_arith)
                requires
                    c <= x < c + q,
                    p == x * n,
                    n * (c - 1) < a <= n * c,
                    n > 0,
            ;
            assert(x < m) by (nonlinear_arith)
                requires
                    x * n < v * m + m,
                    v < n,
                    n > 0,
                    m > 0,
            ;
            lemma_fundamental_div_mod_converse(p, m, v as int, p - v * m);
            assert(x as nat * bound == p);
        }
    }
    assert(givers(bound, width, v) =~= set_int_range(c, c + q));
    lemma_int_range(c, c + q);
}

/// A full-width value of at most eight bytes from one pull.
pub fn draw_le<R: RNG>(r: &mut R, width: usize) -> (x: u64)
    requires
        width <= 8,
    ensures
        x == full_width_value(R::output_of(old(r)@), width as nat),
        final(r)@ == R::step(old(r)@),
        x < pow256(width as nat),
{
    let out = r.rand();
    let x = read_le(out.as_slice(), width);
    proof {
        lemma_le_value_bound(out@.take(width as int));
    }
    x
}

/// `256^width` for the widths that `bounded` takes.
fn modulus(width: usize) -> (m: u128)
    requires
        width == 1 || width == 2 || width == 4 || width == 8,
    ensures
        m == pow256(width as nat),
{
    proof {
        lemma_pow256_values();
    }
    if width == 1 {
        0x100
    } else if width == 2 {
        0x1_0000
    } else if width == 4 {
        0x1_0000_0000
    } else {
        0x1_0000_0000_0000_0000
    }
}

proof fn lemma_product_bounds(x: nat, bound: nat, m: nat)
    requires
        x < m,
        0 < bound < m,
        m <= 0x1_0000_0000_0000_0000,
    ensures
        x * bound < 0x1_0000_0000_0000_0000_0000_0000_0000_0000,
        (x * bound) / m < bound,
{
    assert(x * bound < m * m) by (nonlinear_arith)
        requires
            x < m,
            0 < bound < m,
    ;
    assert(m * m <= 0x1_0000_0000_0000_0000 * 0x1_0000_0000_0000_0000) by (nonlinear_arith)
        requires
            0 < m <= 0x1_0000_0000_0000_0000,
    ;
    assert(x * bound < m * bound) by (nonlinear_arith)
        requires
            x < m,
            0 < bound,
    ;
    vstd::arithmetic::div_mod::lemma_div_by_multiple_is_strongly_ordered(
        (x * bound) as int,
        (m * bound) as int,
        bound as int,
        m as int,
    );
    vstd::arithmetic::div_mod::lemma_div_multiples_vanish(bound as int, m as int);
    assert(m * bound == bound * m) by (nonlinear_arith);
}

/// A value below `bound`, uniform where the generator is, from draws of
/// `width` bytes.
pub fn bounded<R: RNG>(r: &mut R, bound: u64, width: usize) -> (v: u64)
    requires
        width == 1 || width == 2 || width == 4 || width == 8,
        0 < bound < pow256(width as nat),
    ensures
        (v as nat, final(r)@) == bounded_pick::<R>(old(r)@, bound as nat, width as nat, MAX_REDRAWS as nat),
        v < bound,
{
    let m = modulus(width);
    let ghost start = r@;
    let ghost before = r@;
    let x = draw_le(r, width);
    proof {
        lemma_pow256_values();
        lemma_pow256_monotonic(width as nat, 8);
        lemma_product_bounds(x as nat, bound as nat, m as nat);
    }
    let mut product: u128 = (x as u128) * (bound as u128);
    let mut leftover: u128 = product % m;
    if leftover < bound as u128 {
        let threshold: u128 = (m - bound as u128) % (bound as u128);
        let mut redraws: u64 = MAX_REDRAWS;
        while leftover < threshold && redraws > 0
            invariant
                width == 1 || width == 2 || width == 4 || width == 8,
                0 < bound < pow256(width as nat),
                m == pow256(width as nat),
                m <= 0x1_0000_0000_0000_0000,
                threshold == biased_region(bound as nat, width as nat),
                r@ == R::step(before),
                full_width_value(R::output_of(before), width as nat) < m,
                product == full_width_value(R::output_of(before), width as nat) * bound,
                product < 0x1_0000_0000_0000_0000_0000_0000_0000_0000,
                leftover == product % m,
                bounded_pick::<R>(start, bound as nat, width as nat, MAX_REDRAWS as nat)
                    == bounded_pick::<R>(before, bound as nat, width as nat, redraws as nat),
            decreases redraws,
        {
            proof {
                before = r@;
            }
            let x = draw_le(r, width);
            proof {
                lemma_product_bounds(x as nat, bound as nat, m as nat);
            }
            product = (x as u128) * (bound as u128);
            leftover = product % m;
            redraws = redraws - 1;
        }
    }
    proof {
        lemma_product_bounds(full_width_value(R::output_of(before), width as nat), bound as nat, m as nat);
    }
    (product / m) as u64
}

/// A full-width sixteen-byte value from one pull: the pull's eight bytes,
/// the high half zero.
pub fn draw_wide<R: RNG>(r: &mut R) -> (x: u128)
    ensures
        x == full_width_value(R::output_of(old(r)@), 16),
        final(r)@ == R::step(old(r)@),
{
    let out = r.rand();
    let x = read_le(out.as_slice(), 8);
    assert(out@.take(8) =~= out@);
    x as u128
}

/// The draw of the widest type, with no wider type for the product: the
/// product's low sixteen bytes, once out of the biased region.
pub fn bounded_wide<R: RNG>(r: &mut R, bound: u128) -> (v: u128)
    requires
        0 < bound,
    ensures
        (v as nat, final(r)@) == wide_pick::<R>(old(r)@, bound as nat, 16, MAX_REDRAWS as nat),
{
    proof {
        lemma_pow256_values();
    }
    let ghost start = r@;
    let ghost before = r@;
    let x = draw_wide(r);
    let mut product: u128 = x.wrapping_mul(bound);
    if product < bound {
        let threshold: u128 = (u128::MAX - bound + 1) % bound;
        let mut redraws: u64 = MAX_REDRAWS;
        while product < threshold && redraws > 0
            invariant
                0 < bound,
                pow256(16) == 0x1_0000_0000_0000_0000_0000_0000_0000_0000,
                threshold == biased_region(bound as nat, 16),
                r@ == R::step(before),
                product == wrapped(full_width_value(R::output_of(before), 16), bound as nat, 16),
                wide_pick::<R>(start, bound as nat, 16, MAX_REDRAWS as nat)
                    == wide_pick::<R>(before, bound as nat, 16, redraws as nat),
            decreases redraws,
        {
            proof {
                before = r@;
            }
            let x = draw_wide(r);
            product = x.wrapping_mul(bound);
            redraws = redraws - 1;
        }
    }
    product
}

} // verus!
