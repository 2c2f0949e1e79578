//! Typed values drawn from a bit source: full-width integers and characters,
//! and unbiased integers in a half-open range.
use vstd::prelude::*;

use crate::bytes::{lemma_pow256_values, pow256};
use crate::rand::RNG;
use crate::range::{
    bounded, bounded_pick, bounded_wide, draw_le, draw_wide, full_width_value, wide_pick,
    MAX_REDRAWS,
};

verus! {

/// Whether `x` is a Unicode scalar value: not a surrogate, and no greater than
/// the largest code point.
pub open spec fn is_scalar(x: nat) -> bool {
    x < 0xD800 || (0xE000 <= x && x <= 0x10FFFF)
}

/// Relies on `char::from_u32`: it returns the character with code `i`
/// exactly when `i` is a Unicode scalar value, and `None` otherwise.
pub assume_specification[ core::char::from_u32 ](i: u32) -> (r: Option<char>)
    ensures
        r == (if i < 0xD800 || (0xE000 <= i && i <= 0x10FFFF) {
            Some(i as char)
        } else {
            None
        }),
;

/// The character kept when every draw allowed has been rejected.
pub const FALLBACK_CHAR: char = '\u{FFFD}';

/// The character drawn from a generator in `state`, and the state it leaves:
/// four-byte draws are taken until one is a scalar value; after `redraws`
/// further rejected draws the fallback character is kept.
pub open spec fn char_pick<R: RNG>(state: R::V, redraws: nat) -> (char, R::V)
    decreases redraws,
{
    let x = full_width_value(R::output_of(state), 4);
    if is_scalar(x) {
        (x as char, R::step(state))
    } else if redraws == 0 {
        (FALLBACK_CHAR, R::step(state))
    } else {
        char_pick::<R>(R::step(state), (redraws - 1) as nat)
    }
}

/// The number of bytes in a `usize`.
pub open spec fn usize_width() -> nat {
    (usize::BITS / 8) as nat
}

/// The widths that the integer types draw, in bytes, as powers of 256.
proof fn lemma_widths()
    ensures
        pow256(1) == 0x100,
        pow256(2) == 0x1_0000,
        pow256(4) == 0x1_0000_0000,
        pow256(8) == 0x1_0000_0000_0000_0000,
        pow256(16) == 0x1_0000_0000_0000_0000_0000_0000_0000_0000,
        usize_width() == 4 || usize_width() == 8,
        pow256(usize_width()) == usize::MAX + 1,
        usize::MAX == isize::MAX * 2 + 1,
        isize::MIN == -isize::MAX - 1,
{
    lemma_pow256_values();
}

proof fn lemma_reinterpret_i8(x: u64)
    requires
        x < 0x100,
    ensures
        x as u8 as i8 == x as i8,
{
    assert(x < 0x100 ==> x as u8 as i8 == x as i8) by (bit_vector);
}

proof fn lemma_reinterpret_i16(x: u64)
    requires
        x < 0x1_0000,
    ensures
        x as u16 as i16 == x as i16,
{
    assert(x < 0x1_0000 ==> x as u16 as i16 == x as i16) by (bit_vector);
}

proof fn lemma_reinterpret_i32(x: u64)
    requires
        x < 0x1_0000_0000,
    ensures
        x as u32 as i32 == x as i32,
{
    assert(x < 0x1_0000_0000 ==> x as u32 as i32 == x as i32) by (bit_vector);
}

proof fn lemma_reinterpret_i64(x: u64)
    ensures
        x as u64 as i64 == x as i64,
{
}

proof fn lemma_reinterpret_isize(x: u64)
    requires
        x <= usize::MAX,
    ensures
        x as usize as isize == x as isize,
{
    assert(x as usize as u64 == x);
    assert(x as usize as u64 == x ==> x as usize as isize == x as isize) by (bit_vector);
}

/// A trait used for generating a random object with an RNG.
pub trait RandomGen<R: RNG>: Sized {
    /// The value that `random` draws from a generator in `state`, and the
    /// state that it leaves.
    spec fn generated(state: R::V) -> (Self, R::V);

    /// Return a random instance of the implementing type, from the specified
    /// RNG instance.
    fn random(r: &mut R) -> (v: Self)
        ensures
            (v, final(r)@) == Self::generated(old(r)@),
    ;
}

/// A trait used for generating a random number within a range, with an RNG.
pub trait RandomRange<R: RNG>: RandomGen<R> {
    /// Whether `lower` lies below `upper`.
    spec fn below(lower: Self, upper: Self) -> bool;

    /// The value that `random_range` draws from a generator in `state`, and
    /// the state that it leaves.
    spec fn ranged(state: R::V, lower: Self, upper: Self) -> (Self, R::V);

    /// Return a number in `[lower, upper)` of the implementing type, from the
    /// specified RNG instance.
    ///
    /// A debiased draw below `upper - lower` is shifted up by `lower`. For the
    /// 128-bit types no wider type holds the product, and the draw is the
    /// product's low half.
    fn random_range(r: &mut R, lower: Self, upper: Self) -> (v: Self)
        requires
            Self::below(lower, upper),
        ensures
            (v, final(r)@) == Self::ranged(old(r)@, lower, upper),
    ;
}

impl<R: RNG> RandomGen<R> for char {
    open spec fn generated(state: R::V) -> (char, R::V) {
        char_pick::<R>(state, MAX_REDRAWS as nat)
    }

    fn random(r: &mut R) -> (c: char)
        ensures
            is_scalar(c as nat),
    {
        let ghost start = r@;
        let mut redraws: u64 = MAX_REDRAWS;
        loop
            invariant
                start == old(r)@,
                char_pick::<R>(start, MAX_REDRAWS as nat) == char_pick::<R>(r@, redraws as nat),
            decreases redraws,
        {
            let ghost before = r@;
            let x = draw_le(r, 4);
            proof {
                lemma_pow256_values();
                assert(x as u32 as nat == x);
            }
            match core::char::from_u32(x as u32) {
                Some(c) => {
                    assert(is_scalar(x as nat));
                    assert(c == x as char);
                    assert(c as nat == x);
                    return c;
                },
                None => {},
            }
            if redraws == 0 {
                assert(FALLBACK_CHAR as nat == 0xFFFD);
                return FALLBACK_CHAR;
            }
            redraws = redraws - 1;
        }
    }
}

impl<R: RNG> RandomGen<R> for u8 {
    open spec fn generated(state: R::V) -> (u8, R::V) {
        (full_width_value(R::output_of(state), 1) as u8, R::step(state))
    }

    fn random(r: &mut R) -> (v: u8) {
        proof {
            lemma_widths();
        }
        draw_le(r, 1) as u8
    }
}

impl<R: RNG> RandomRange<R> for u8 {
    open spec fn below(lower: u8, upper: u8) -> bool {
        lower < upper
    }

    open spec fn ranged(state: R::V, lower: u8, upper: u8) -> (u8, R::V) {
        let (d, next) = bounded_pick::<R>(state, (upper - lower) as nat, 1, MAX_REDRAWS as nat);
        ((lower + d) as u8, next)
    }

    fn random_range(r: &mut R, lower: u8, upper: u8) -> (v: u8)
        ensures
            lower <= v < upper,
    {
        proof {
            lemma_widths();
        }
        let d = bounded(r, (upper - lower) as u64, 1);
        lower + d as u8
    }
}

impl<R: RNG> RandomGen<R> for u16 {
    open spec fn generated(state: R::V) -> (u16, R::V) {
        (full_width_value(R::output_of(state), 2) as u16, R::step(state))
    }

    fn random(r: &mut R) -> (v: u16) {
        proof {
            lemma_widths();
        }
        draw_le(r, 2) as u16
    }
}

impl<R: RNG> RandomRange<R> for u16 {
    open spec fn below(lower: u16, upper: u16) -> bool {
        lower < upper
    }

    open spec fn ranged(state: R::V, lower: u16, upper: u16) -> (u16, R::V) {
        let (d, next) = bounded_pick::<R>(state, (upper - lower) as nat, 2, MAX_REDRAWS as nat);
        ((lower + d) as u16, next)
    }

    fn random_range(r: &mut R, lower: u16, upper: u16) -> (v: u16)
        ensures
            lower <= v < upper,
    {
        proof {
            lemma_widths();
        }
        let d = bounded(r, (upper - lower) as u64, 2);
        lower + d as u16
    }
}

impl<R: RNG> RandomGen<R> for u32 {
    open spec fn generated(state: R::V) -> (u32, R::V) {
        (full_width_value(R::output_of(state), 4) as u32, R::step(state))
    }

    fn random(r: &mut R) -> (v: u32) {
        proof {
            lemma_widths();
        }
        draw_le(r, 4) as u32
    }
}

impl<R: RNG> RandomRange<R> for u32 {
    open spec fn below(lower: u32, upper: u32) -> bool {
        lower < upper
    }

    open spec fn ranged(state: R::V, lower: u32, upper: u32) -> (u32, R::V) {
        let (d, next) = bounded_pick::<R>(state, (upper - lower) as nat, 4, MAX_REDRAWS as nat);
        ((lower + d) as u32, next)
    }

    fn random_range(r: &mut R, lower: u32, upper: u32) -> (v: u32)
        ensures
            lower <= v < upper,
    {
        proof {
            lemma_widths();
        }
        let d = bounded(r, (upper - lower) as u64, 4);
        lower + d as u32
    }
}

impl<R: RNG> RandomGen<R> for u64 {
    open spec fn generated(state: R::V) -> (u64, R::V) {
        (full_width_value(R::output_of(state), 8) as u64, R::step(state))
    }

    fn random(r: &mut R) -> (v: u64) {
        proof {
            lemma_widths();
        }
        draw_le(r, 8) as u64
    }
}

impl<R: RNG> RandomRange<R> for u64 {
    open spec fn below(lower: u64, upper: u64) -> bool {
        lower < upper
    }

    open spec fn ranged(state: R::V, lower: u64, upper: u64) -> (u64, R::V) {
        let (d, next) = bounded_pick::<R>(state, (upper - lower) as nat, 8, MAX_REDRAWS as nat);
        ((lower + d) as u64, next)
    }

    fn random_range(r: &mut R, lower: u64, upper: u64) -> (v: u64)
        ensures
            lower <= v < upper,
    {
        proof {
            lemma_widths();
        }
        let d = bounded(r, (upper - lower) as u64, 8);
        lower + d as u64
    }
}

impl<R: RNG> RandomGen<R> for usize {
    open spec fn generated(state: R::V) -> (usize, R::V) {
        (full_width_value(R::output_of(state), usize_width()) as usize, R::step(state))
    }

    fn random(r: &mut R) -> (v: usize) {
        proof {
            lemma_widths();
        }
        draw_le(r, (usize::BITS / 8) as usize) as usize
    }
}

impl<R: RNG> RandomRange<R> for usize {
    open spec fn below(lower: usize, upper: usize) -> bool {
        lower < upper
    }

    open spec fn ranged(state: R::V, lower: usize, upper: usize) -> (usize, R::V) {
        let (d, next) = bounded_pick::<R>(state, (upper - lower) as nat, usize_width(), MAX_REDRAWS as nat);
        ((lower + d) as usize, next)
    }

    fn random_range(r: &mut R, lower: usize, upper: usize) -> (v: usize)
        ensures
            lower <= v < upper,
    {
        proof {
            lemma_widths();
        }
        let d = bounded(r, (upper - lower) as u64, (usize::BITS / 8) as usize);
        lower + d as usize
    }
}

impl<R: RNG> RandomGen<R> for i8 {
    open spec fn generated(state: R::V) -> (i8, R::V) {
        (full_width_value(R::output_of(state), 1) as i8, R::step(state))
    }

    fn random(r: &mut R) -> (v: i8) {
        proof {
            lemma_widths();
        }
        let x = draw_le(r, 1);
        proof {
            lemma_reinterpret_i8(x);
        }
        x as u8 as i8
    }
}

impl<R: RNG> RandomRange<R> for i8 {
    open spec fn below(lower: i8, upper: i8) -> bool {
        lower < upper
    }

    open spec fn ranged(state: R::V, lower: i8, upper: i8) -> (i8, R::V) {
        let (d, next) = bounded_pick::<R>(state, (upper - lower) as nat, 1, MAX_REDRAWS as nat);
        ((lower + d) as i8, next)
    }

    fn random_range(r: &mut R, lower: i8, upper: i8) -> (v: i8)
        ensures
            lower <= v < upper,
    {
        proof {
            lemma_widths();
        }
        let d = bounded(r, (upper as i16 - lower as i16) as u64, 1);
        (lower as i16 + d as i16) as i8
    }
}

impl<R: RNG> RandomGen<R> for i16 {
    open spec fn generated(state: R::V) -> (i16, R::V) {
        (full_width_value(R::output_of(state), 2) as i16, R::step(state))
    }

    fn random(r: &mut R) -> (v: i16) {
        proof {
            lemma_widths();
        }
        let x = draw_le(r, 2);
        proof {
            lemma_reinterpret_i16(x);
        }
        x as u16 as i16
    }
}

impl<R: RNG> RandomRange<R> for i16 {
    open spec fn below(lower: i16, upper: i16) -> bool {
        lower < upper
    }

    open spec fn ranged(state: R::V, lower: i16, upper: i16) -> (i16, R::V) {
        let (d, next) = bounded_pick::<R>(state, (upper - lower) as nat, 2, MAX_REDRAWS as nat);
        ((lower + d) as i16, next)
    }

    fn random_range(r: &mut R, lower: i16, upper: i16) -> (v: i16)
        ensures
            lower <= v < upper,
    {
        proof {
            lemma_widths();
        }
        let d = bounded(r, (upper as i32 - lower as i32) as u64, 2);
        (lower as i32 + d as i32) as i16
    }
}

impl<R: RNG> RandomGen<R> for i32 {
    open spec fn generated(state: R::V) -> (i32, R::V) {
        (full_width_value(R::output_of(state), 4) as i32, R::step(state))
    }

    fn random(r: &mut R) -> (v: i32) {
        proof {
            lemma_widths();
        }
        let x = draw_le(r, 4);
        proof {
            lemma_reinterpret_i32(x);
        }
        x as u32 as i32
    }
}

impl<R: RNG> RandomRange<R> for i32 {
    open spec fn below(lower: i32, upper: i32) -> bool {
        lower < upper
    }

    open spec fn ranged(state: R::V, lower: i32, upper: i32) -> (i32, R::V) {
        let (d, next) = bounded_pick::<R>(state, (upper - lower) as nat, 4, MAX_REDRAWS as nat);
        ((lower + d) as i32, next)
    }

    fn random_range(r: &mut R, lower: i32, upper: i32) -> (v: i32)
        ensures
            lower <= v < upper,
    {
        proof {
            lemma_widths();
        }
        let d = bounded(r, (upper as i64 - lower as i64) as u64, 4);
        (lower as i64 + d as i64) as i32
    }
}

impl<R: RNG> RandomGen<R> for i64 {
    open spec fn generated(state: R::V) -> (i64, R::V) {
        (full_width_value(R::output_of(state), 8) as i64, R::step(state))
    }

    fn random(r: &mut R) -> (v: i64) {
        proof {
            lemma_widths();
        }
        let x = draw_le(r, 8);
        proof {
            lemma_reinterpret_i64(x);
        }
        x as u64 as i64
    }
}

impl<R: RNG> RandomRange<R> for i64 {
    open spec fn below(lower: i64, upper: i64) -> bool {
        lower < upper
    }

    open spec fn ranged(state: R::V, lower: i64, upper: i64) -> (i64, R::V) {
        let (d, next) = bounded_pick::<R>(state, (upper - lower) as nat, 8, MAX_REDRAWS as nat);
        ((lower + d) as i64, next)
    }

    fn random_range(r: &mut R, lower: i64, upper: i64) -> (v: i64)
        ensures
            lower <= v < upper,
    {
        proof {
            lemma_widths();
        }
        let d = bounded(r, (upper as i128 - lower as i128) as u64, 8);
        (lower as i128 + d as i128) as i64
    }
}

impl<R: RNG> RandomGen<R> for isize {
    open spec fn generated(state: R::V) -> (isize, R::V) {
        (full_width_value(R::output_of(state), usize_width()) as isize, R::step(state))
    }

    fn random(r: &mut R) -> (v: isize) {
        proof {
            lemma_widths();
        }
        let x = draw_le(r, (usize::BITS / 8) as usize);
        proof {
            lemma_reinterpret_isize(x);
        }
        x as usize as isize
    }
}

impl<R: RNG> RandomRange<R> for isize {
    open spec fn below(lower: isize, upper: isize) -> bool {
        lower < upper
    }

    open spec fn ranged(state: R::V, lower: isize, upper: isize) -> (isize, R::V) {
        let (d, next) = bounded_pick::<R>(state, (upper - lower) as nat, usize_width(), MAX_REDRAWS as nat);
        ((lower + d) as isize, next)
    }

    fn random_range(r: &mut R, lower: isize, upper: isize) -> (v: isize)
        ensures
            lower <= v < upper,
    {
        proof {
            lemma_widths();
        }
        let d = bounded(r, (upper as i128 - lower as i128) as u64, (usize::BITS / 8) as usize);
        (lower as i128 + d as i128) as isize
    }
}

impl<R: RNG> RandomGen<R> for u128 {
    open spec fn generated(state: R::V) -> (u128, R::V) {
        (full_width_value(R::output_of(state), 16) as u128, R::step(state))
    }

    fn random(r: &mut R) -> (v: u128) {
        draw_wide(r)
    }
}

impl<R: RNG> RandomRange<R> for u128 {
    open spec fn below(lower: u128, upper: u128) -> bool {
        lower < upper
    }

    open spec fn ranged(state: R::V, lower: u128, upper: u128) -> (u128, R::V) {
        let (d, next) = wide_pick::<R>(state, (upper - lower) as nat, 16, MAX_REDRAWS as nat);
        (lower.wrapping_add(d as u128), next)
    }

    fn random_range(r: &mut R, lower: u128, upper: u128) -> (v: u128) {
        let d = bounded_wide(r, upper - lower);
        lower.wrapping_add(d)
    }
}

impl<R: RNG> RandomGen<R> for i128 {
    open spec fn generated(state: R::V) -> (i128, R::V) {
        (full_width_value(R::output_of(state), 16) as i128, R::step(state))
    }

    fn random(r: &mut R) -> (v: i128) {
        draw_wide(r) as i128
    }
}

impl<R: RNG> RandomRange<R> for i128 {
    open spec fn below(lower: i128, upper: i128) -> bool {
        lower < upper
    }

    open spec fn ranged(state: R::V, lower: i128, upper: i128) -> (i128, R::V) {
        let bound = (upper as u128).wrapping_sub(lower as u128);
        let (d, next) = wide_pick::<R>(state, bound as nat, 16, MAX_REDRAWS as nat);
        ((lower as u128).wrapping_add(d as u128) as i128, next)
    }

    fn random_range(r: &mut R, lower: i128, upper: i128) -> (v: i128) {
        assert(lower < upper ==> upper as u128 != lower as u128) by (bit_vector);
        let d = bounded_wide(r, (upper as u128).wrapping_sub(lower as u128));
        (lower as u128).wrapping_add(d) as i128
    }
}

} // verus!
