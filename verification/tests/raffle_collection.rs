use std::collections::HashSet;

use rand::{Rng, SeedableRng};
use rand_xorshift::XorShiftRng;

use tenk::raffle_collection::RaffleCollection;

#[test]
fn raffle_collection_test_swap_remove() {
    let mut rng = XorShiftRng::seed_from_u64(2);
    let mut vec = RaffleCollection::new(b"v".to_vec(), 100, 99);
    let mut set: HashSet<u32> = HashSet::new();
    for i in 0..50 {
        let len = vec.len();
        let val = vec.draw(rng.gen::<u32>()).unwrap();
        assert!(set.insert(val));
        let winner = vec.get_winners(Some(i), Some(1));
        assert_eq!(winner, vec![val]);
        assert_eq!(len - 1, vec.len());
    }

    for _ in 0..49 {
        let len = vec.len();
        let val = vec.draw(rng.gen::<u32>()).unwrap();
        assert!(set.insert(val));
        assert_eq!(len - 1, vec.len());
    }
    let val = vec.draw(rng.gen::<u32>());
    assert!(val.is_none());
    assert_eq!(vec.num_winners(), 99);
}

#[test]
fn cap_respects_history() {
    let mut rng = XorShiftRng::seed_from_u64(5);
    let mut pool = RaffleCollection::new(b"c".to_vec(), 100, 99);
    let mut drawn: Vec<u32> = Vec::new();
    for _ in 0..99 {
        let before = pool.num_winners();
        let val = pool.draw(rng.gen::<u32>()).expect("under the cap every draw succeeds");
        drawn.push(val);
        assert_eq!(pool.num_winners(), before + 1);
        let logged = pool.get_winners(Some(before), Some(1));
        assert_eq!(logged, vec![val]);
    }
    // The hundredth draw hits the cap: no result, one identity untouched.
    assert_eq!(pool.draw(rng.gen::<u32>()), None);
    assert_eq!(pool.len(), 1);
    assert_eq!(pool.num_winners(), 99);
    assert_eq!(pool.get_winners(None, None), drawn);
}

#[test]
fn history_round_trip() {
    let mut rng = XorShiftRng::seed_from_u64(9);
    let mut pool = RaffleCollection::new(b"h".to_vec(), 40, 40);
    let mut drawn: Vec<u32> = Vec::new();
    for _ in 0..25 {
        drawn.push(pool.draw(rng.gen::<u32>()).unwrap());
    }
    let n = pool.num_winners();
    assert_eq!(n, 25);
    assert_eq!(pool.get_winners(Some(0), Some(n)), drawn);
    assert_eq!(pool.get_winners(None, None), drawn);
}

#[test]
fn pagination_boundaries() {
    let mut rng = XorShiftRng::seed_from_u64(13);
    let mut pool = RaffleCollection::new(b"g".to_vec(), 30, 30);
    for _ in 0..10 {
        pool.draw(rng.gen::<u32>()).unwrap();
    }
    let all = pool.get_winners(None, None);
    assert_eq!(all.len(), 10);

    // Offsets at or past the log's end give an empty page, never an error.
    assert_eq!(pool.get_winners(Some(10), None), Vec::<u32>::new());
    assert_eq!(pool.get_winners(Some(11), Some(3)), Vec::<u32>::new());
    assert_eq!(pool.get_winners(Some(u32::MAX), None), Vec::<u32>::new());

    // A zero-length page is empty.
    assert_eq!(pool.get_winners(Some(0), Some(0)), Vec::<u32>::new());
    assert_eq!(pool.get_winners(None, Some(0)), Vec::<u32>::new());

    // Any valid page is the contiguous slice that direct indexing gives.
    assert_eq!(pool.get_winners(Some(3), Some(4)), all[3..7].to_vec());
    assert_eq!(pool.get_winners(Some(7), Some(100)), all[7..].to_vec());
    assert_eq!(pool.get_winners(Some(0), Some(10)), all);
}

#[test]
fn collection_exhaustion_is_a_permutation() {
    let mut rng = XorShiftRng::seed_from_u64(17);
    let mut pool = RaffleCollection::new(b"e".to_vec(), 64, 64);
    let mut drawn: Vec<u32> = Vec::new();
    for _ in 0..64 {
        drawn.push(pool.draw(rng.gen::<u32>()).unwrap());
    }
    assert!(pool.is_empty());
    drawn.sort();
    let expected: Vec<u32> = (0..64).collect();
    assert_eq!(drawn, expected);
}

#[test]
fn cap_of_one_on_a_huge_pool() {
    let mut pool = RaffleCollection::new(b"big".to_vec(), u32::MAX, 1);
    let first = pool.draw(12345);
    assert!(first.is_some());
    assert_eq!(pool.draw(67890), None);
    assert_eq!(pool.len(), u32::MAX - 1);
    assert_eq!(pool.num_winners(), 1);
    assert_eq!(pool.get_winners(None, None), vec![first.unwrap()]);
}

#[test]
fn restore_resumes_the_capped_pool() {
    let mut rng = XorShiftRng::seed_from_u64(23);
    let seeds: Vec<u32> = (0..20).map(|_| rng.gen::<u32>()).collect();

    let mut whole = RaffleCollection::new(b"k".to_vec(), 20, 15);
    for s in &seeds[..15] {
        whole.draw(*s).unwrap();
    }

    let mut first = RaffleCollection::new(b"k".to_vec(), 20, 15);
    for s in &seeds[..8] {
        first.draw(*s).unwrap();
    }
    let entries = first.entries().clone();
    let winners = first.get_winners(None, None);
    let mut resumed = RaffleCollection::restore(
        b"k".to_vec(),
        b"k\x64".to_vec(),
        first.len(),
        first.max_winners(),
        entries,
        winners,
    )
    .unwrap();
    for s in &seeds[8..15] {
        resumed.draw(*s).unwrap();
    }
    assert_eq!(resumed.draw(seeds[15]), None);
    assert_eq!(resumed.get_winners(None, None), whole.get_winners(None, None));
    assert_eq!(resumed.len(), whole.len());
}

#[test]
fn restore_refuses_broken_state() {
    // A repeated slot index.
    assert!(RaffleCollection::restore(
        b"r".to_vec(),
        b"rw".to_vec(),
        10,
        5,
        vec![(0, 1), (0, 2)],
        Vec::new()
    )
    .is_none());
    // A stored value outside the 32-bit identity space.
    assert!(RaffleCollection::restore(
        b"r".to_vec(),
        b"rw".to_vec(),
        10,
        5,
        vec![(0, u64::MAX)],
        Vec::new()
    )
    .is_none());
    // A log and pool that together outgrow the identity space.
    assert!(RaffleCollection::restore(
        b"r".to_vec(),
        b"rw".to_vec(),
        u32::MAX,
        5,
        Vec::new(),
        vec![1, 2, 3]
    )
    .is_none());
    // A winner log already past the cap.
    assert!(RaffleCollection::restore(
        b"r".to_vec(),
        b"rw".to_vec(),
        10,
        2,
        Vec::new(),
        vec![1, 2, 3]
    )
    .is_none());
    assert!(RaffleCollection::restore(
        b"r".to_vec(),
        b"rw".to_vec(),
        10,
        5,
        vec![(0, 7)],
        vec![1, 2, 3]
    )
    .is_some());
}
