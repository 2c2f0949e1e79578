use nanorand::{RandomGen, RandomRange, WyRand, RNG};

fn lemire_u8(r: &mut WyRand, bound: u8) -> u8 {
    loop {
        let x = r.rand()[0];
        let product = x as u16 * bound as u16;
        let leftover = product as u8;
        let threshold = bound.wrapping_neg() % bound;
        if leftover >= threshold {
            return (product >> 8) as u8;
        }
    }
}

fn lemire_u64(r: &mut WyRand, bound: u64) -> u64 {
    loop {
        let x = u64::from_le_bytes(r.rand());
        let product = x as u128 * bound as u128;
        let leftover = product as u64;
        let threshold = bound.wrapping_neg() % bound;
        if leftover >= threshold {
            return (product >> 64) as u64;
        }
    }
}

#[test]
fn full_width_values_take_the_low_bytes() {
    let mut r = WyRand::new(2024);
    let mut twin = r.clone();
    for _ in 0..50 {
        let b = twin.rand();
        assert_eq!(u8::random(&mut r), b[0]);
        let b = twin.rand();
        assert_eq!(u16::random(&mut r), u16::from_le_bytes([b[0], b[1]]));
        let b = twin.rand();
        assert_eq!(u32::random(&mut r), u32::from_le_bytes([b[0], b[1], b[2], b[3]]));
        let b = twin.rand();
        assert_eq!(u64::random(&mut r), u64::from_le_bytes(b));
        let b = twin.rand();
        assert_eq!(i8::random(&mut r), b[0] as i8);
        let b = twin.rand();
        assert_eq!(i16::random(&mut r), i16::from_le_bytes([b[0], b[1]]));
        let b = twin.rand();
        assert_eq!(i32::random(&mut r), i32::from_le_bytes([b[0], b[1], b[2], b[3]]));
        let b = twin.rand();
        assert_eq!(i64::random(&mut r), i64::from_le_bytes(b));
    }
}

#[test]
fn wide_full_width_values_have_zero_high_half() {
    let mut r = WyRand::new(11);
    let mut twin = r.clone();
    for _ in 0..50 {
        let b = twin.rand();
        let v = u128::random(&mut r);
        assert_eq!(v, u64::from_le_bytes(b) as u128);
        assert_eq!(v >> 64, 0);
        let b = twin.rand();
        assert_eq!(i128::random(&mut r), u64::from_le_bytes(b) as i128);
    }
}

#[test]
fn pointer_sized_values_follow_their_width() {
    let mut r = WyRand::new(3);
    let mut twin = r.clone();
    let width = (usize::BITS / 8) as usize;
    for _ in 0..20 {
        let b = twin.rand();
        let mut bytes = [0u8; 8];
        bytes[..width].copy_from_slice(&b[..width]);
        assert_eq!(usize::random(&mut r), u64::from_le_bytes(bytes) as usize);
        let b = twin.rand();
        let mut bytes = [0u8; 8];
        bytes[..width].copy_from_slice(&b[..width]);
        assert_eq!(isize::random(&mut r), u64::from_le_bytes(bytes) as usize as isize);
    }
}

#[test]
fn full_width_u8_covers_every_value() {
    let mut r = WyRand::new(0x5eed);
    let mut seen = [false; 256];
    for _ in 0..100_000 {
        seen[u8::random(&mut r) as usize] = true;
    }
    assert!(seen.iter().all(|s| *s));
}

#[test]
fn characters_are_scalar_values() {
    let mut r = WyRand::new(8);
    for _ in 0..300 {
        let c = char::random(&mut r);
        let code = c as u32;
        assert!(code <= 0x10FFFF);
        assert!(!(0xD800..=0xDFFF).contains(&code));
    }
}

#[test]
fn character_is_first_valid_four_byte_draw() {
    let mut r = WyRand::new(1);
    let mut twin = r.clone();
    let c = char::random(&mut r);
    let expected = loop {
        let b = twin.rand();
        if let Some(c) = char::from_u32(u32::from_le_bytes([b[0], b[1], b[2], b[3]])) {
            break c;
        }
    };
    assert_eq!(c, expected);
    assert_eq!(r.rand(), twin.rand());
}

#[test]
fn ranged_u64_matches_debiased_multiplication() {
    let mut r = WyRand::new(17);
    let mut twin = r.clone();
    for _ in 0..1000 {
        assert_eq!(u64::random_range(&mut r, 10, 20), 10 + lemire_u64(&mut twin, 10));
    }
    for _ in 0..1000 {
        let bound = u64::MAX / 2 + 7;
        assert_eq!(u64::random_range(&mut r, 0, bound), lemire_u64(&mut twin, bound));
    }
}

#[test]
fn ranged_u8_redraws_biased_samples() {
    let mut r = WyRand::new(23);
    let mut twin = r.clone();
    for _ in 0..2000 {
        assert_eq!(u8::random_range(&mut r, 50, 250), 50 + lemire_u8(&mut twin, 200));
    }
    assert_eq!(r.rand(), twin.rand());
}

#[test]
fn ranged_signed_shifts_by_lower() {
    let mut r = WyRand::new(29);
    let mut twin = r.clone();
    for _ in 0..1000 {
        let v = i64::random_range(&mut r, -5, 5);
        assert_eq!(v, -5 + lemire_u64(&mut twin, 10) as i64);
    }
    for _ in 0..1000 {
        let v = i8::random_range(&mut r, -100, 100);
        assert_eq!(v as i16, -100 + lemire_u8(&mut twin, 200) as i16);
    }
}

#[test]
fn ranged_values_stay_in_range() {
    let mut r = WyRand::new(0xdead_beef);
    for _ in 0..10_000 {
        let v = u8::random_range(&mut r, 3, 7);
        assert!((3..7).contains(&v));
        let v = u16::random_range(&mut r, 1000, 60000);
        assert!((1000..60000).contains(&v));
        let v = u32::random_range(&mut r, 0, 1);
        assert_eq!(v, 0);
        let v = u64::random_range(&mut r, 5, u64::MAX);
        assert!((5..u64::MAX).contains(&v));
        let v = usize::random_range(&mut r, 100, 200);
        assert!((100..200).contains(&v));
        let v = i8::random_range(&mut r, i8::MIN, i8::MAX);
        assert!((i8::MIN..i8::MAX).contains(&v));
        let v = i16::random_range(&mut r, -300, -200);
        assert!((-300..-200).contains(&v));
        let v = i32::random_range(&mut r, -1, 1);
        assert!((-1..1).contains(&v));
        let v = i64::random_range(&mut r, i64::MIN, i64::MAX);
        assert!((i64::MIN..i64::MAX).contains(&v));
        let v = isize::random_range(&mut r, -7, 9);
        assert!((-7..9).contains(&v));
    }
}

#[test]
fn ranged_wide_keeps_low_half_of_product() {
    let mut r = WyRand::new(41);
    let mut twin = r.clone();
    let threshold = 10u128.wrapping_neg() % 10;
    assert_eq!(threshold, 6);
    for _ in 0..100 {
        let x = u64::from_le_bytes(twin.rand()) as u128;
        let product = x.wrapping_mul(10);
        assert!(product >= threshold);
        assert_eq!(u128::random_range(&mut r, 0, 10), product);
    }
    let mut r = WyRand::new(43);
    let mut twin = r.clone();
    let x = u64::from_le_bytes(twin.rand()) as u128;
    assert!(x * 6 >= 6u128.wrapping_neg() % 6);
    assert_eq!(i128::random_range(&mut r, -3, 3), (x * 6) as i128 - 3);
}

#[test]
fn uniform_over_power_of_two_range() {
    let mut r = WyRand::new(0x0123_4567_89ab_cdef);
    let mut counts = [0u64; 16];
    let draws = 160_000u64;
    for _ in 0..draws {
        counts[u32::random_range(&mut r, 0, 16) as usize] += 1;
    }
    let expected = draws as f64 / 16.0;
    let chi: f64 = counts
        .iter()
        .map(|c| {
            let d = *c as f64 - expected;
            d * d / expected
        })
        .sum();
    // 15 degrees of freedom, significance 0.001.
    assert!(chi < 37.7, "chi-squared {}", chi);
}

#[test]
fn uniform_over_small_range_of_bytes() {
    let mut r = WyRand::new(77);
    let mut counts = [0u64; 8];
    let draws = 100_000u64;
    for _ in 0..draws {
        counts[u8::random_range(&mut r, 0, 8) as usize] += 1;
    }
    let expected = draws as f64 / 8.0;
    let chi: f64 = counts
        .iter()
        .map(|c| {
            let d = *c as f64 - expected;
            d * d / expected
        })
        .sum();
    // 7 degrees of freedom, significance 0.001.
    assert!(chi < 24.3, "chi-squared {}", chi);
}
