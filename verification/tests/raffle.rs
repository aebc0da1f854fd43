use std::collections::HashSet;

use rand::{Rng, SeedableRng};
use rand_xorshift::XorShiftRng;

use tenk::raffle::{append_slice, Raffle};
use tenk::util::get_random_number;

#[test]
fn raffle_test_swap_remove() {
    let mut rng = XorShiftRng::seed_from_u64(2);
    let mut vec = Raffle::new(b"v".to_vec(), 100);
    let mut set: HashSet<u64> = HashSet::new();
    for _ in 0..100 {
        let len = vec.len();
        assert!(set.insert(vec.draw(rng.gen::<u64>())));
        assert_eq!(len - 1, vec.len());
    }
    assert!(vec.is_empty());
}

#[test]
fn exhaustion_is_a_permutation() {
    let mut rng = XorShiftRng::seed_from_u64(7);
    let n: u64 = 37;
    let mut pool = Raffle::new(b"p".to_vec(), n);
    let mut drawn: Vec<u64> = Vec::new();
    for _ in 0..n {
        drawn.push(pool.draw(rng.gen::<u64>()));
    }
    assert_eq!(pool.len(), 0);
    assert!(pool.is_empty());
    drawn.sort();
    let expected: Vec<u64> = (0..n).collect();
    assert_eq!(drawn, expected);
}

#[test]
fn length_decreases_by_one_per_draw() {
    let mut rng = XorShiftRng::seed_from_u64(11);
    let mut pool = Raffle::new(b"p".to_vec(), 25);
    for step in 0..25u64 {
        assert_eq!(pool.len(), 25 - step);
        pool.draw(rng.gen::<u64>());
        assert_eq!(pool.len(), 25 - step - 1);
    }
}

#[test]
fn concrete_five_token_trace() {
    // Hand-checked swap-remove trace on a pool of five: positions 2, 0, 2,
    // 1, 0 of the shrinking pool yield the values 2, 0, 4, 1, 3.
    let mut pool = Raffle::new(b"t".to_vec(), 5);
    let seeds: [u64; 5] = [2, 0, 2, 1, 0];
    let mut drawn: Vec<u64> = Vec::new();
    for s in seeds {
        drawn.push(pool.draw(s));
    }
    assert_eq!(drawn, vec![2, 0, 4, 1, 3]);
    assert!(pool.is_empty());
}

#[test]
fn seeds_reduce_modulo_length() {
    // A seed far above the remaining length picks the same position as its
    // remainder does.
    let mut a = Raffle::new(b"a".to_vec(), 5);
    let mut b = Raffle::new(b"b".to_vec(), 5);
    assert_eq!(a.draw(2), b.draw(5 * 1_000_000 + 2));
    assert_eq!(a.draw(3), b.draw(4 * 9_999 + 3));
}

#[test]
fn single_identity_pool_drains_in_one_draw() {
    let mut pool = Raffle::new(b"one".to_vec(), 1);
    assert_eq!(pool.len(), 1);
    assert_eq!(pool.draw(0xdead_beef), 0);
    assert!(pool.is_empty());
}

#[test]
fn determinism_under_fixed_seeds() {
    let mut rng = XorShiftRng::seed_from_u64(3);
    let seeds: Vec<u64> = (0..50).map(|_| rng.gen::<u64>()).collect();
    let mut runs: Vec<Vec<u64>> = Vec::new();
    for _ in 0..3 {
        let mut pool = Raffle::new(b"d".to_vec(), 50);
        let mut drawn: Vec<u64> = Vec::new();
        for s in &seeds {
            drawn.push(pool.draw(*s));
        }
        runs.push(drawn);
    }
    assert_eq!(runs[0], runs[1]);
    assert_eq!(runs[1], runs[2]);
}

#[test]
fn a_huge_pool_needs_no_materialisation() {
    // A pool of four billion identities is created and drawn from without
    // ever laying the identities out.
    let n: u64 = u32::MAX as u64;
    let mut pool = Raffle::new(b"big".to_vec(), n);
    let a = pool.draw(17);
    let b = pool.draw(u64::MAX);
    let c = pool.draw(0);
    assert_eq!(pool.len(), n - 3);
    assert!(a < n && b < n && c < n);
    assert!(a != b && b != c && a != c);
    assert_eq!(pool.entries().len() <= 3, true);
}

#[test]
fn append_slice_concatenates() {
    assert_eq!(append_slice(b"ab", b"cd"), b"abcd".to_vec());
    assert_eq!(append_slice(b"", b"xy"), b"xy".to_vec());
    assert_eq!(append_slice(b"xy", b""), b"xy".to_vec());
}

#[test]
fn lookup_key_is_prefix_then_le_bytes() {
    let pool = Raffle::new(vec![9, 8], 1000);
    assert_eq!(pool.index_to_lookup_key(0), vec![9, 8, 0, 0, 0, 0, 0, 0, 0, 0]);
    assert_eq!(pool.index_to_lookup_key(513), vec![9, 8, 1, 2, 0, 0, 0, 0, 0, 0]);
    assert_eq!(
        pool.index_to_lookup_key(u64::MAX),
        vec![9, 8, 255, 255, 255, 255, 255, 255, 255, 255]
    );
}

#[test]
fn restore_resumes_where_the_pool_left_off() {
    let mut rng = XorShiftRng::seed_from_u64(21);
    let seeds: Vec<u64> = (0..30).map(|_| rng.gen::<u64>()).collect();

    let mut whole = Raffle::new(b"w".to_vec(), 30);
    let mut expected: Vec<u64> = Vec::new();
    for s in &seeds {
        expected.push(whole.draw(*s));
    }

    let mut first = Raffle::new(b"w".to_vec(), 30);
    let mut drawn: Vec<u64> = Vec::new();
    for s in &seeds[..12] {
        drawn.push(first.draw(*s));
    }
    let stored_prefix = first.prefix().clone();
    let stored_len = first.len();
    let stored_entries = first.entries().clone();

    let mut resumed = Raffle::restore(stored_prefix, stored_len, stored_entries).unwrap();
    for s in &seeds[12..] {
        drawn.push(resumed.draw(*s));
    }
    assert_eq!(drawn, expected);
}

#[test]
fn restore_refuses_a_repeated_slot() {
    assert!(Raffle::restore(b"r".to_vec(), 10, vec![(1, 5), (1, 6)]).is_none());
    assert!(Raffle::restore(b"r".to_vec(), 10, vec![(1, 5), (2, 6)]).is_some());
}

#[test]
fn random_word_reads_four_bytes_little_endian() {
    let seed = vec![1, 2, 3, 4, 5, 6, 7, 8];
    assert_eq!(
        get_random_number(&seed, 0),
        1 + 2 * 0x100 + 3 * 0x1_0000 + 4 * 0x100_0000
    );
    assert_eq!(
        get_random_number(&seed, 3),
        4 + 5 * 0x100 + 6 * 0x1_0000 + 7 * 0x100_0000
    );
}

#[test]
fn random_word_rotation_wraps() {
    let seed = vec![10, 20, 30, 40];
    // Rotating by two puts the last two bytes first.
    assert_eq!(
        get_random_number(&seed, 2),
        30 + 40 * 0x100 + 10 * 0x1_0000 + 20 * 0x100_0000
    );
    // A shift is taken modulo the seed's length.
    assert_eq!(get_random_number(&seed, 6), get_random_number(&seed, 2));
    let zeros = vec![0u8; 32];
    assert_eq!(get_random_number(&zeros, 5), 0);
}
