use tenk::payout::{apply_percent, royalties_valid, take_fee};
use tenk::price::{compute_price, price, E24};
use tenk::types::Status;

fn compute_price_h(counter: u32, num: u16, start_price: u128) -> u128 {
    compute_price(counter, num, start_price * E24) / E24
}

#[test]
fn test_compute_price_1() {
    assert_eq!(compute_price_h(0, 1, 10), 10);
    assert_eq!(compute_price_h(1, 1, 10), 10);
    assert_eq!(compute_price_h(500, 1, 10), 10);
    assert_eq!(compute_price_h(554, 1, 10), 10);

    assert_eq!(compute_price_h(555, 1, 10), 11, "minting 1 in gen2");
    assert_eq!(compute_price_h(556, 1, 10), 11, "minting 1 in gen2");
    assert_eq!(compute_price_h(654, 1, 10), 11, "minting 1 in gen2");
    assert_eq!(compute_price_h(655, 1, 10), 12, "minting 1 in gen3");
    assert_eq!(compute_price_h(5554, 1, 10), 60, "minting 1 in gen51");
    assert_eq!(compute_price_h(5555, 1, 10), 61, "minting 1 in gen52");
}

#[test]
fn test_compute_price_2() {
    assert_eq!(compute_price_h(754, 1, 10), 12);
    assert_eq!(compute_price_h(755, 1, 10), 13);
    assert_eq!(compute_price_h(754, 3, 10), 12 + 2 * 13);
}

#[test]
fn test_compute_price_3() {
    assert_eq!(compute_price_h(0, 10, 10), 100);
    assert_eq!(compute_price_h(1, 10, 10), 100);
    assert_eq!(compute_price_h(500, 10, 10), 100);

    assert_eq!(compute_price_h(0, 555, 10), 555 * 10);

    assert_eq!(compute_price_h(0, 560, 10), 555 * 10 + 5 * 11);
    assert_eq!(
        compute_price_h(0, 860, 10),
        555 * 10 + 100 * 11 + 100 * 12 + 100 * 13 + 5 * 14
    );
    assert_eq!(compute_price_h(500, 100, 10), 55 * 10 + 45 * 11);
    assert_eq!(
        compute_price_h(500, 300, 10),
        55 * 10 + 100 * 11 + 100 * 12 + 45 * 13
    );

    assert_eq!(compute_price_h(554, 10, 10), 10 + 9 * 11);
    assert_eq!(compute_price_h(555, 10, 10), 10 * 11);
}

#[test]
fn compute_price_of_nothing_is_zero() {
    assert_eq!(compute_price(0, 0, 10 * E24), 0);
    assert_eq!(compute_price(1234, 0, 0), 0);
    assert_eq!(compute_price(0, 3, 0), 0);
}

#[test]
fn price_picks_the_phase_base() {
    let sale = 10 * E24;
    let presale = 7 * E24;
    assert_eq!(price(Status::Open, Some(presale), sale, 0, 1), sale);
    assert_eq!(price(Status::SoldOut, Some(presale), sale, 0, 1), sale);
    assert_eq!(price(Status::Presale, Some(presale), sale, 0, 1), presale);
    assert_eq!(price(Status::Closed, Some(presale), sale, 0, 1), presale);
    assert_eq!(price(Status::Presale, None, sale, 0, 1), sale);
    assert_eq!(price(Status::Closed, None, sale, 0, 2), 2 * sale);
}

#[test]
fn apply_percent_takes_basis_points() {
    assert_eq!(apply_percent(480, 1_000_000), 48_000);
    assert_eq!(apply_percent(10_000, 1_000_000), 1_000_000);
    assert_eq!(apply_percent(0, 1_000_000), 0);
    assert_eq!(apply_percent(1, 9_999), 0);
    assert_eq!(apply_percent(9_520, 250), 238);
    // Any pair whose product fits is accepted, however large the amount.
    assert_eq!(apply_percent(2, u128::MAX / 2), (u128::MAX / 2) * 2 / 10_000);
    assert_eq!(apply_percent(1, u128::MAX), u128::MAX / 10_000);
}

#[test]
fn take_fee_keeps_the_complement_of_each_amount() {
    let amounts = vec![1_000_000u128, 10_000u128, 3u128];
    let (kept, fee) = take_fee(&amounts, 480);
    assert_eq!(kept, vec![952_000, 9_520, 2]);
    assert_eq!(fee, 48_000 + 480 + 1);

    let (kept, fee) = take_fee(&vec![], 480);
    assert_eq!(kept, Vec::<u128>::new());
    assert_eq!(fee, 0);

    let (kept, fee) = take_fee(&vec![500u128], 10_000);
    assert_eq!(kept, vec![0]);
    assert_eq!(fee, 500);
}

#[test]
fn royalty_splits_must_sum_to_one_hundred_percent() {
    assert!(royalties_valid(1_000, &vec![5_000, 5_000]));
    assert!(royalties_valid(10_000, &vec![10_000]));
    assert!(royalties_valid(0, &vec![1_000, 2_000, 3_000, 4_000]));

    // The shares fall short of or pass one hundred percent.
    assert!(!royalties_valid(1_000, &vec![5_000, 4_999]));
    assert!(!royalties_valid(1_000, &vec![5_000, 5_001]));
    assert!(!royalties_valid(1_000, &vec![]));
    // One share alone is over one hundred percent.
    assert!(!royalties_valid(1_000, &vec![10_001]));
    // The overall percentage is over one hundred percent.
    assert!(!royalties_valid(10_001, &vec![5_000, 5_000]));
    // More than ten accounts.
    let eleven: Vec<u16> = vec![1_000, 1_000, 1_000, 1_000, 1_000, 1_000, 1_000, 1_000, 1_000, 500, 500];
    assert!(!royalties_valid(1_000, &eleven));
}
