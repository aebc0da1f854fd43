//! Royalty-split arithmetic and its soundness rule.
//!
//! A royalty split names a number of accounts, each with a share in basis
//! points, plus the overall royalty percentage.  Before a split is
//! accepted, it must be sound: the overall percentage at most one hundred
//! percent, at most ten accounts sharing it, every share itself at most one
//! hundred percent, and the shares summing to exactly one hundred percent.

use vstd::arithmetic::div_mod::{lemma_div_by_multiple, lemma_div_is_ordered};
use vstd::prelude::*;

verus! {

/// One hundred percent, in basis points.
pub const ONE_HUNDRED_PERCENT_IN_BPS: u16 = 10_000;

/// The sum of a list of shares.
pub open spec fn sum_shares(shares: Seq<u16>) -> int
    decreases shares.len(),
{
    if shares.len() == 0 {
        0
    } else {
        sum_shares(shares.drop_last()) + shares.last()
    }
}

/// Whether a royalty split is sound: overall percentage at most one
/// hundred percent, at most ten shares, every share at most one hundred
/// percent, and the shares summing to exactly one hundred percent.
pub fn royalties_valid(percent: u16, shares: &Vec<u16>) -> (ok: bool)
    ensures
        ok <==> (percent <= ONE_HUNDRED_PERCENT_IN_BPS && shares@.len() <= 10 && (forall|j: int|
            0 <= j < shares@.len() ==> shares@[j] <= ONE_HUNDRED_PERCENT_IN_BPS) && sum_shares(
            shares@,
        ) == ONE_HUNDRED_PERCENT_IN_BPS),
{
    if percent > ONE_HUNDRED_PERCENT_IN_BPS {
        return false;
    }
    if shares.len() > 10 {
        return false;
    }
    let mut total: u32 = 0;
    let mut i: usize = 0;
    while i < shares.len()
        invariant
            i <= shares@.len(),
            shares@.len() <= 10,
            forall|j: int| 0 <= j < i ==> shares@[j] <= ONE_HUNDRED_PERCENT_IN_BPS,
            total == sum_shares(shares@.subrange(0, i as int)),
            total <= 10_000 * i,
        decreases shares@.len() - i,
    {
        if shares[i] > ONE_HUNDRED_PERCENT_IN_BPS {
            return false;
        }
        total = total + shares[i] as u32;
        i = i + 1;
        proof {
            assert(shares@.subrange(0, i as int).drop_last() =~= shares@.subrange(0, i - 1));
        }
    }
    proof {
        assert(shares@.subrange(0, shares@.len() as int) =~= shares@);
    }
    total == ONE_HUNDRED_PERCENT_IN_BPS as u32
}

/// What one payout amount keeps after a fee of `fee_bps` basis points.
pub open spec fn spec_kept(amount: int, fee_bps: int) -> int {
    amount * (10_000 - fee_bps) / 10_000
}

/// The fee pot collected over a list of payout amounts.
pub open spec fn spec_fee_total(amounts: Seq<u128>, fee_bps: int) -> int
    decreases amounts.len(),
{
    if amounts.len() == 0 {
        0
    } else {
        spec_fee_total(amounts.drop_last(), fee_bps) + (amounts.last() - spec_kept(
            amounts.last() as int,
            fee_bps,
        ))
    }
}

/// Takes a fee of `fee_bps` basis points out of every payout amount: each
/// amount keeps its complement, and what the amounts lose, the fee pot
/// collects, to the rounding of each share.
pub fn take_fee(amounts: &Vec<u128>, fee_bps: u16) -> (r: (Vec<u128>, u128))
    requires
        fee_bps <= ONE_HUNDRED_PERCENT_IN_BPS,
        amounts@.len() <= 10,
        forall|i: int| 0 <= i < amounts@.len() ==> amounts@[i] <= u128::MAX / 10_000,
    ensures
        r.0@.len() == amounts@.len(),
        forall|i: int|
            0 <= i < amounts@.len() ==> r.0@[i] == spec_kept(amounts@[i] as int, fee_bps as int),
        r.1 == spec_fee_total(amounts@, fee_bps as int),
{
    let mut kept: Vec<u128> = Vec::new();
    let mut fee: u128 = 0;
    let mut i: usize = 0;
    while i < amounts.len()
        invariant
            i <= amounts@.len(),
            amounts@.len() <= 10,
            fee_bps <= 10_000,
            forall|j: int| 0 <= j < amounts@.len() ==> amounts@[j] <= u128::MAX / 10_000,
            kept@.len() == i,
            forall|j: int|
                0 <= j < i ==> kept@[j] == spec_kept(amounts@[j] as int, fee_bps as int),
            fee == spec_fee_total(amounts@.subrange(0, i as int), fee_bps as int),
            fee <= i * (u128::MAX / 10_000),
        decreases amounts@.len() - i,
    {
        let a = amounts[i];
        proof {
            assert(a as int * (10_000 - fee_bps) <= u128::MAX) by (nonlinear_arith)
                requires
                    0 <= a as int <= u128::MAX as int / 10_000,
                    0 <= fee_bps <= 10_000,
            ;
        }
        let share = apply_percent(ONE_HUNDRED_PERCENT_IN_BPS - fee_bps, a);
        proof {
            assert(a as int * (10_000 - fee_bps) <= a as int * 10_000) by (nonlinear_arith)
                requires
                    0 <= a as int,
                    0 <= fee_bps <= 10_000,
            ;
            lemma_div_is_ordered(a as int * (10_000 - fee_bps), a as int * 10_000, 10_000);
            lemma_div_by_multiple(a as int, 10_000);
            assert(share <= a);
        }
        fee = fee + (a - share);
        kept.push(share);
        i = i + 1;
        proof {
            assert(amounts@.subrange(0, i as int).drop_last() =~= amounts@.subrange(0, i - 1));
        }
    }
    proof {
        assert(amounts@.subrange(0, amounts@.len() as int) =~= amounts@);
    }
    (kept, fee)
}

/// `percent` basis points of `amount`, for any pair whose product fits.
pub fn apply_percent(percent: u16, amount: u128) -> (r: u128)
    requires
        amount * percent <= u128::MAX,
    ensures
        r == amount * percent / 10_000,
{
    amount * percent as u128 / 10_000u128
}

} // verus!
