use nanorand::{WyRand, RNG};

const INCREMENT: u64 = 0xa076_1d64_78bd_642f;
const MIX: u64 = 0xe703_7ed1_a0b4_28db;

fn expected_output(state: u64) -> [u8; 8] {
    let s = state.wrapping_add(INCREMENT);
    let t = (s as u128) * ((s ^ MIX) as u128);
    (((t >> 64) ^ t) as u64).to_le_bytes()
}

#[test]
fn known_answer_for_state_zero() {
    let mut r = WyRand::new(0);
    assert_eq!(r.rand(), expected_output(0));
    let s = INCREMENT;
    let t = (s as u128) * ((s ^ MIX) as u128);
    let word = ((t >> 64) as u64) ^ (t as u64);
    assert_eq!(u64::from_le_bytes(expected_output(0)), word);
}

#[test]
fn successive_outputs_follow_the_state() {
    let mut r = WyRand::new(12345);
    let mut state: u64 = 12345;
    for _ in 0..1000 {
        assert_eq!(r.rand(), expected_output(state));
        state = state.wrapping_add(INCREMENT);
    }
}

#[test]
fn outputs_change_from_pull_to_pull() {
    let mut r = WyRand::new(7);
    let a = r.rand();
    let b = r.rand();
    assert_ne!(a, b);
}

#[test]
fn same_seed_gives_same_sequence() {
    let seed = [1u8, 2, 3, 4, 5, 6, 7, 8];
    let mut a = WyRand::new(99);
    let mut b = WyRand::new(4242);
    a.reseed(&seed);
    b.reseed(&seed);
    for _ in 0..100 {
        assert_eq!(a.rand(), b.rand());
    }
}

#[test]
fn seed_output_matches_reseeded_generator() {
    let seeds: [&[u8]; 5] = [&[], &[0xff], &[1, 2, 3], &[9, 8, 7, 6, 5, 4, 3, 2], &[1; 12]];
    for seed in seeds {
        let mut r = WyRand::new(31337);
        r.reseed(seed);
        assert_eq!(WyRand::rand_with_seed(seed), r.rand());
    }
}

#[test]
fn seed_output_leaves_generators_alone() {
    let mut r = WyRand::new(5);
    let mut twin = r.clone();
    let _ = WyRand::rand_with_seed(&[1, 2, 3]);
    assert_eq!(r.rand(), twin.rand());
}

#[test]
fn short_seed_is_zero_extended() {
    let mut a = WyRand::new(0);
    let mut b = WyRand::new(0);
    a.reseed(&[0xab, 0xcd, 0xef]);
    b.reseed(&[0xab, 0xcd, 0xef, 0, 0, 0, 0, 0]);
    for _ in 0..10 {
        assert_eq!(a.rand(), b.rand());
    }
    assert_eq!(
        WyRand::rand_with_seed(&[0xab, 0xcd, 0xef]),
        WyRand::rand_with_seed(&[0xab, 0xcd, 0xef, 0, 0, 0, 0, 0])
    );
}

#[test]
fn reseed_reads_seed_least_significant_first() {
    let mut a = WyRand::new(0);
    a.reseed(&[0x01, 0x02]);
    let mut b = WyRand::new(0x0201);
    assert_eq!(a.rand(), b.rand());
}

#[test]
fn long_seed_is_truncated() {
    let mut a = WyRand::new(0);
    let mut b = WyRand::new(0);
    a.reseed(&[1, 2, 3, 4, 5, 6, 7, 8, 9, 10, 11]);
    b.reseed(&[1, 2, 3, 4, 5, 6, 7, 8]);
    assert_eq!(a.rand(), b.rand());
    assert_eq!(
        WyRand::rand_with_seed(&[1, 2, 3, 4, 5, 6, 7, 8, 0xff]),
        WyRand::rand_with_seed(&[1, 2, 3, 4, 5, 6, 7, 8])
    );
}

#[test]
fn empty_seed_is_state_zero() {
    let mut a = WyRand::new(77);
    a.reseed(&[]);
    assert_eq!(a.rand(), expected_output(0));
    assert_eq!(WyRand::rand_with_seed(&[]), expected_output(0));
}
