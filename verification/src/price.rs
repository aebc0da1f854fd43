//! Price of minting.
//!
//! Tokens are sold in price generations: the first `GEN0` tokens cost the
//! starting price, and each further `GEN_NEXT` tokens cost one NEAR more
//! than the generation before.  The cost of a batch is the sum of the
//! per-token prices over the positions it occupies.

use vstd::arithmetic::div_mod::{
    lemma_div_is_ordered, lemma_div_pos_is_pos, lemma_fundamental_div_mod,
    lemma_fundamental_div_mod_converse_div,
};
use vstd::prelude::*;

use crate::types::Status;

verus! {

/// One NEAR, in yocto.
pub const E24: u128 = 1_000_000_000_000_000_000_000_000;

/// Tokens sold at the starting price before the price first rises.
pub const GEN0: u32 = 555;

/// Tokens sold per price step after that.
pub const GEN_NEXT: u32 = 100;

/// The highest starting price the computation accepts, in yocto; far above
/// any real price, it keeps every intermediate sum inside `u128` whatever
/// the counter and batch size.
pub const MAX_START_PRICE: u128 = 1_000_000_000_000_000_000_000_000_000_000;

/// The price generation of the token minted at position `counter`: the
/// first `GEN0` tokens form generation zero, and every `GEN_NEXT` tokens
/// after that raise the generation by one.
pub open spec fn generation(counter: int) -> int {
    if counter < GEN0 {
        0
    } else {
        1 + (counter - GEN0) / (GEN_NEXT as int)
    }
}

/// The position at which the next price generation starts.
pub open spec fn generation_end(counter: int) -> int {
    if counter < GEN0 {
        GEN0 as int
    } else {
        GEN0 + GEN_NEXT * (1 + (counter - GEN0) / (GEN_NEXT as int))
    }
}

/// The price of the token minted at position `counter`: one more NEAR per
/// generation on top of the starting price.
pub open spec fn token_price(start_price: int, counter: int) -> int {
    start_price + generation(counter) * E24
}

/// The price of `num` tokens minted consecutively from position `counter`.
pub open spec fn batch_price(start_price: int, counter: int, num: nat) -> int
    decreases num,
{
    if num == 0 {
        0
    } else {
        token_price(start_price, counter) + batch_price(start_price, counter + 1, (num - 1) as nat)
    }
}

/// A bound every intermediate sum stays under once the starting price is
/// accepted: the starting price plus the highest reachable generation
/// step-up.
pub open spec fn price_cap(start_price: int) -> int {
    start_price + 43_000_000 * (E24 as int)
}

/// The price is flat within one generation, steps up by exactly one NEAR at
/// `generation_end`, and the following step is `GEN_NEXT` tokens away.
pub proof fn lemma_generation_run(c: int)
    requires
        0 <= c,
    ensures
        c < generation_end(c),
        generation_end(c) - c <= GEN0,
        forall|j: int| c <= j < generation_end(c) ==> generation(j) == generation(c),
        generation(generation_end(c)) == generation(c) + 1,
        generation_end(generation_end(c)) == generation_end(c) + GEN_NEXT,
{
    if c < GEN0 {
        assert(0int / 100 == 0);
        assert(generation(GEN0 as int) == 1);
        assert(generation_end(GEN0 as int) == GEN0 + GEN_NEXT);
    } else {
        let x = c - GEN0;
        lemma_fundamental_div_mod(x, 100);
        let q = x / 100;
        let r = x % 100;
        assert(0 <= r < 100) by (nonlinear_arith)
            requires
                x >= 0,
                r == x % 100,
        ;
        assert(generation_end(c) == GEN0 + 100 * (q + 1));
        assert forall|j: int| c <= j < generation_end(c) implies generation(j) == generation(
            c,
        ) by {
            let y = j - GEN0;
            lemma_fundamental_div_mod_converse_div(y, 100, q, y - 100 * q);
        }
        let e = generation_end(c);
        lemma_fundamental_div_mod_converse_div(e - GEN0, 100, q + 1, 0);
        assert(generation(e) == q + 2);
        assert(generation_end(e) == GEN0 + 100 * (1 + (q + 1)));
    }
}

/// No position a 32-bit counter and a 16-bit batch can reach leaves
/// generation 43 million.
pub proof fn lemma_generation_cap(c: int)
    requires
        0 <= c <= 4_295_100_000,
    ensures
        0 <= generation(c) <= 43_000_000,
{
    if c >= GEN0 {
        lemma_div_pos_is_pos(c - GEN0, 100);
        lemma_div_is_ordered(c - GEN0, 4_295_100_000 - GEN0, 100);
        assert((4_295_100_000int - GEN0) / 100 < 43_000_000);
    }
}

/// A batch splits at any point: the first `a` tokens and the `b` after them
/// cost together what the whole run of `a + b` costs.
pub proof fn lemma_batch_price_split(start_price: int, counter: int, a: nat, b: nat)
    ensures
        batch_price(start_price, counter, (a + b) as nat) == batch_price(start_price, counter, a)
            + batch_price(start_price, counter + a, b),
    decreases a,
{
    if a > 0 {
        lemma_batch_price_split(start_price, counter + 1, (a - 1) as nat, b);
    }
}

/// Within one generation every token costs the same, so a run of `k` tokens
/// costs `k` times the price at its start.
pub proof fn lemma_batch_price_constant_run(start_price: int, counter: int, k: nat)
    requires
        forall|j: int| counter <= j < counter + k ==> generation(j) == generation(counter),
    ensures
        batch_price(start_price, counter, k) == k * token_price(start_price, counter),
    decreases k,
{
    let t = token_price(start_price, counter);
    if k == 0 {
        assert(0nat * t == 0) by (nonlinear_arith);
    } else {
        assert(generation(counter + 1) == generation(counter) || k == 1) by {
            if k > 1 {
                assert(counter <= counter + 1 < counter + k);
            }
        }
        assert forall|j: int|
            counter + 1 <= j < counter + 1 + (k - 1) implies #[trigger] generation(j) == generation(
            counter + 1,
        ) by {
            assert(counter <= j < counter + k);
            if k > 1 {
                assert(generation(counter + 1) == generation(counter));
            }
        }
        lemma_batch_price_constant_run(start_price, counter + 1, (k - 1) as nat);
        if k == 1 {
            assert(batch_price(start_price, counter + 1, 0) == 0);
            assert(1nat * t == t) by (nonlinear_arith);
        } else {
            assert(token_price(start_price, counter + 1) == t);
            assert(k as int * t == t + (k as int - 1) * t) by (nonlinear_arith);
        }
    }
}

/// The cost of the `num` tokens minted next, when `counter` tokens were
/// minted before and generation zero sells at `start_price` yocto each.
pub fn compute_price(counter: u32, num: u16, start_price: u128) -> (cost: u128)
    requires
        start_price <= MAX_START_PRICE,
    ensures
        cost == batch_price(start_price as int, counter as int, num as nat),
{
    let mut left: u32 = num as u32;
    let mut cost: u128 = 0;
    let mut gen_diff: u32;
    let mut p: u128 = start_price;
    proof {
        lemma_generation_run(counter as int);
        lemma_generation_cap(counter as int);
    }
    if counter < GEN0 {
        gen_diff = GEN0 - counter;
        proof {
            assert(generation(counter as int) == 0);
            assert(0int * (E24 as int) == 0) by (nonlinear_arith);
            assert(p == token_price(start_price as int, counter as int));
        }
    } else {
        let gen: u32 = 1 + (counter - GEN0) / GEN_NEXT;
        proof {
            assert(gen == generation(counter as int));
        }
        let gen_end: u64 = GEN0 as u64 + gen as u64 * GEN_NEXT as u64;
        proof {
            assert(gen_end == generation_end(counter as int));
            assert(1 <= gen_end - counter <= GEN0);
        }
        gen_diff = (gen_end - counter as u64) as u32;
        proof {
            assert((E24 as int) * (gen as int) <= 43_000_000 * (E24 as int)) by (nonlinear_arith)
                requires
                    0 <= gen as int <= 43_000_000,
            ;
        }
        p = p + E24 * gen as u128;
        proof {
            assert(p == token_price(start_price as int, counter as int));
        }
    }
    proof {
        assert(p as int <= price_cap(start_price as int));
        assert(0int * price_cap(start_price as int) == 0) by (nonlinear_arith);
    }
    while left > 0
        invariant
            start_price <= MAX_START_PRICE,
            num <= 0xffff,
            left <= num,
            cost == batch_price(start_price as int, counter as int, (num - left) as nat),
            cost as int <= (num - left) * price_cap(start_price as int),
            left > 0 ==> p == token_price(start_price as int, counter + num - left),
            left > 0 ==> gen_diff == generation_end(counter + num - left) - (counter + num
                - left),
            p as int <= price_cap(start_price as int),
        decreases left,
    {
        let ghost s = start_price as int;
        let ghost cur = counter + num - left;
        let ghost cap = price_cap(s);
        proof {
            lemma_generation_run(cur);
            assert(cap <= 44_000_000_000_000_000_000_000_000_000_000int);
        }
        if left < gen_diff {
            proof {
                lemma_batch_price_constant_run(s, cur, left as nat);
                lemma_batch_price_split(s, counter as int, (num - left) as nat, left as nat);
                assert(cost as int + left as int * p as int <= num as int * cap) by (
                nonlinear_arith)
                    requires
                        cost as int <= (num as int - left as int) * cap,
                        0 <= p as int <= cap,
                        0 < left as int <= num as int,
                        0 <= cap,
                ;
                assert(num as int * cap <= 65536int * 44_000_000_000_000_000_000_000_000_000_000int)
                    by (nonlinear_arith)
                    requires
                        0 <= num as int <= 65536,
                        0 <= cap <= 44_000_000_000_000_000_000_000_000_000_000int,
                ;
                assert(left as int * p as int == left as int * token_price(s, cur));
            }
            cost = cost + left as u128 * p;
            left = 0;
        } else {
            let ghost gd = gen_diff as int;
            proof {
                lemma_batch_price_constant_run(s, cur, gen_diff as nat);
                lemma_batch_price_split(s, counter as int, (num - left) as nat, gen_diff as nat);
                assert(cost as int + gen_diff as int * p as int <= num as int * cap) by (
                nonlinear_arith)
                    requires
                        cost as int <= (num as int - left as int) * cap,
                        0 <= p as int <= cap,
                        0 < gen_diff as int <= left as int,
                        left as int <= num as int,
                        0 <= cap,
                ;
                assert(num as int * cap <= 65536int * 44_000_000_000_000_000_000_000_000_000_000int)
                    by (nonlinear_arith)
                    requires
                        0 <= num as int <= 65536,
                        0 <= cap <= 44_000_000_000_000_000_000_000_000_000_000int,
                ;
                assert(gen_diff as int * p as int == gen_diff as int * token_price(s, cur));
                assert(cost as int + gd * p as int <= (num as int - (left as int - gd)) * cap) by (
                nonlinear_arith)
                    requires
                        cost as int <= (num as int - left as int) * cap,
                        0 <= p as int <= cap,
                        0 < gd <= left as int,
                        0 <= cap,
                ;
            }
            cost = cost + gen_diff as u128 * p;
            left = left - gen_diff;
            proof {
                let next = cur + gd;
                assert(next == generation_end(cur));
                assert(generation(next) == generation(cur) + 1);
                lemma_generation_cap(next);
                assert((generation(cur) + 1) * (E24 as int) == generation(cur) * (E24 as int) + (
                E24 as int)) by (nonlinear_arith);
                assert(generation(next) * (E24 as int) <= 43_000_000 * (E24 as int)) by (
                nonlinear_arith)
                    requires
                        0 <= generation(next) <= 43_000_000,
                ;
            }
            p = p + E24;
            gen_diff = GEN_NEXT;
            proof {
                let next = cur + gd;
                assert(p == token_price(s, next));
                assert(next == counter + num - left);
                assert(generation_end(next) == next + GEN_NEXT);
            }
        }
    }
    cost
}

/// The starting price in effect for a phase: the presale price where one is
/// set and the sale is not yet public, the public price otherwise.
pub open spec fn spec_base_price(
    status: Status,
    presale_price: Option<u128>,
    sale_price: u128,
) -> u128 {
    match status {
        Status::Presale | Status::Closed => match presale_price {
            Some(p) => p,
            None => sale_price,
        },
        Status::Open | Status::SoldOut => sale_price,
    }
}

/// The cost of the next `num` tokens under the phase's starting price.
pub fn price(
    status: Status,
    presale_price: Option<u128>,
    sale_price: u128,
    counter: u32,
    num: u16,
) -> (r: u128)
    requires
        sale_price <= MAX_START_PRICE,
        presale_price matches Some(p) ==> p <= MAX_START_PRICE,
    ensures
        r == batch_price(
            spec_base_price(status, presale_price, sale_price) as int,
            counter as int,
            num as nat,
        ),
{
    let base = match status {
        Status::Presale | Status::Closed => match presale_price {
            Some(p) => p,
            None => sale_price,
        },
        Status::Open | Status::SoldOut => sale_price,
    };
    compute_price(counter, num, base)
}

} // verus!
