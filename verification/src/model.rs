//! The mathematical model of the draw engine.
//!
//! A pool's logical contents are a sequence: the effective values at
//! positions `0 .. len`.  One draw removes the value at a chosen position by
//! the swap-remove step.  The spec functions here describe single draws and
//! whole runs of draws, and the lemmas state the engine's headline laws:
//! each draw takes exactly one occurrence of one value out of the pool, and
//! a pool drawn down to empty hands out its original contents exactly, with
//! no value repeated and none left out.

use vstd::multiset::Multiset;
use vstd::prelude::*;

verus! {

/// The pool's logical contents after removing position `i`: the last value
/// overwrites position `i` and the length shrinks by one.  When `i` is the
/// last position itself this is simply dropping the last value.
pub open spec fn swap_removed<T>(s: Seq<T>, i: int) -> Seq<T> {
    s.update(i, s.last()).drop_last()
}

/// A swap-remove takes exactly one occurrence of the value at position `i`
/// out of the pool and keeps every other value.
pub proof fn lemma_swap_removed_multiset<T>(s: Seq<T>, i: int)
    requires
        0 <= i < s.len(),
    ensures
        swap_removed(s, i).len() == s.len() - 1,
        swap_removed(s, i).to_multiset() == s.to_multiset().remove(s[i]),
        s.to_multiset().count(s[i]) >= 1,
    decreases s.len(),
{
    broadcast use vstd::seq_lib::group_to_multiset_ensures;

    let t = s.update(i, s.last());
    assert(t.last() == s.last());
    assert(t.drop_last() =~= t.remove(t.len() - 1));
    assert(t.remove(t.len() - 1).to_multiset() == t.to_multiset().remove(t.last()));
    assert(t.to_multiset() == s.to_multiset().remove(s[i]).insert(s.last()));
    assert(s.contains(s[i]));
    assert(s.to_multiset().count(s[i]) >= 1);
    assert(s.contains(s.last()));
    assert(s.to_multiset().remove(s[i]).insert(s.last()).remove(s.last()) =~= s.to_multiset()
        .remove(s[i]));
}

/// What a fresh pool of length `n` holds before any draw: the identities
/// `0, 1, ..., n-1`, each at its own position.
pub open spec fn identity_pool(n: nat) -> Seq<u64> {
    Seq::new(n, |i: int| i as u64)
}

/// A fresh pool holds each identity below `n` exactly once and nothing else.
pub proof fn lemma_identity_pool_count(n: nat, v: u64)
    requires
        n <= u64::MAX,
    ensures
        identity_pool(n).to_multiset().count(v) == if (v as nat) < n {
            1nat
        } else {
            0nat
        },
    decreases n,
{
    broadcast use vstd::seq_lib::group_to_multiset_ensures;

    if n == 0 {
        assert(identity_pool(0).to_multiset() =~= Multiset::<u64>::empty());
    } else {
        let m = (n - 1) as nat;
        lemma_identity_pool_count(m, v);
        assert(identity_pool(n) =~= identity_pool(m).push(m as u64));
        assert(identity_pool(n).to_multiset() =~= identity_pool(m).to_multiset().insert(m as u64));
    }
}

/// What a fresh capped pool of length `n` holds before any draw.
pub open spec fn identity_pool_u32(n: nat) -> Seq<u32> {
    Seq::new(n, |i: int| i as u32)
}

/// A fresh capped pool holds each identity below `n` exactly once and
/// nothing else.
pub proof fn lemma_identity_pool_u32_count(n: nat, v: u32)
    requires
        n <= u32::MAX,
    ensures
        identity_pool_u32(n).to_multiset().count(v) == if (v as nat) < n {
            1nat
        } else {
            0nat
        },
    decreases n,
{
    broadcast use vstd::seq_lib::group_to_multiset_ensures;

    if n == 0 {
        assert(identity_pool_u32(0).to_multiset() =~= Multiset::<u32>::empty());
    } else {
        let m = (n - 1) as nat;
        lemma_identity_pool_u32_count(m, v);
        assert(identity_pool_u32(n) =~= identity_pool_u32(m).push(m as u32));
        assert(identity_pool_u32(n).to_multiset() =~= identity_pool_u32(m).to_multiset().insert(
            m as u32,
        ));
    }
}

/// One position per draw: the `j`-th draw removes position `idxs[j]` of a
/// pool that has already shrunk by `j` values.
pub open spec fn valid_draw_indices(idxs: Seq<int>, len: nat) -> bool {
    forall|j: int| 0 <= j < idxs.len() ==> 0 <= #[trigger] idxs[j] < len - j
}

/// The values a pool holding `s` hands out over the draws `idxs`, in order.
pub open spec fn draw_results<T>(s: Seq<T>, idxs: Seq<int>) -> Seq<T>
    decreases idxs.len(),
{
    if idxs.len() == 0 || s.len() == 0 {
        Seq::empty()
    } else {
        seq![s[idxs[0]]] + draw_results(swap_removed(s, idxs[0]), idxs.drop_first())
    }
}

/// What is left of a pool holding `s` after the draws `idxs`.
pub open spec fn remaining_pool<T>(s: Seq<T>, idxs: Seq<int>) -> Seq<T>
    decreases idxs.len(),
{
    if idxs.len() == 0 || s.len() == 0 {
        s
    } else {
        remaining_pool(swap_removed(s, idxs[0]), idxs.drop_first())
    }
}

/// A log that a run of draws appends to, one value per draw, the way the
/// winner log is grown: `log` before the run, then each drawn value as it
/// comes.
pub open spec fn log_after_run<T>(log: Seq<T>, s: Seq<T>, idxs: Seq<int>) -> Seq<T>
    decreases idxs.len(),
{
    if idxs.len() == 0 || s.len() == 0 {
        log
    } else {
        log_after_run(log.push(s[idxs[0]]), swap_removed(s, idxs[0]), idxs.drop_first())
    }
}

/// History ordering: a log grown by one value per draw ends up holding what
/// it held before, followed by exactly the values the draws returned, in
/// draw order.
pub proof fn lemma_log_records_draws<T>(log: Seq<T>, s: Seq<T>, idxs: Seq<int>)
    ensures
        log_after_run(log, s, idxs) == log + draw_results(s, idxs),
    decreases idxs.len(),
{
    if idxs.len() == 0 || s.len() == 0 {
        assert(log_after_run(log, s, idxs) =~= log + draw_results(s, idxs));
    } else {
        let x = s[idxs[0]];
        let s1 = swap_removed(s, idxs[0]);
        let rest = idxs.drop_first();
        lemma_log_records_draws(log.push(x), s1, rest);
        assert(log.push(x) + draw_results(s1, rest) =~= log + (seq![x] + draw_results(s1, rest)));
    }
}

/// Over any run of draws, the values handed out and the values still in the
/// pool together are exactly the pool's original contents: draws never
/// repeat a value, never invent one, and never lose one.
pub proof fn lemma_draws_partition_pool<T>(s: Seq<T>, idxs: Seq<int>)
    requires
        idxs.len() <= s.len(),
        valid_draw_indices(idxs, s.len()),
    ensures
        draw_results(s, idxs).len() == idxs.len(),
        remaining_pool(s, idxs).len() == s.len() - idxs.len(),
        draw_results(s, idxs).to_multiset().add(remaining_pool(s, idxs).to_multiset()) == s
            .to_multiset(),
    decreases idxs.len(),
{
    broadcast use vstd::seq_lib::group_to_multiset_ensures;
    broadcast use vstd::seq_lib::lemma_multiset_commutative;

    if idxs.len() == 0 {
        assert(draw_results(s, idxs).to_multiset() =~= Multiset::<T>::empty());
        assert(Multiset::<T>::empty().add(s.to_multiset()) =~= s.to_multiset());
    } else {
        let i = idxs[0];
        let x = s[i];
        let s1 = swap_removed(s, i);
        let rest = idxs.drop_first();
        lemma_swap_removed_multiset(s, i);
        assert(valid_draw_indices(rest, s1.len())) by {
            assert forall|j: int| 0 <= j < rest.len() implies 0 <= #[trigger] rest[j] < s1.len()
                - j by {
                assert(rest[j] == idxs[j + 1]);
            }
        }
        lemma_draws_partition_pool(s1, rest);
        let r1 = draw_results(s1, rest);
        assert(draw_results(s, idxs) == seq![x] + r1);
        assert((seq![x] + r1).to_multiset() == seq![x].to_multiset().add(r1.to_multiset()));
        assert(seq![x].to_multiset() =~= Multiset::<T>::empty().insert(x)) by {
            assert(seq![x] =~= Seq::<T>::empty().push(x));
            assert(Seq::<T>::empty().to_multiset() =~= Multiset::<T>::empty());
        }
        assert(remaining_pool(s, idxs) == remaining_pool(s1, rest));
        let m_rem = remaining_pool(s1, rest).to_multiset();
        assert(draw_results(s, idxs).to_multiset().add(m_rem) =~= r1.to_multiset().add(
            m_rem,
        ).insert(x));
        assert(r1.to_multiset().add(m_rem) == s1.to_multiset());
        assert(s1.to_multiset().insert(x) =~= s.to_multiset()) by {
            assert(s1.to_multiset() == s.to_multiset().remove(x));
            assert(s.to_multiset().count(x) >= 1);
        }
    }
}

/// Exhaustion completeness: as many draws as the pool has values empty the
/// pool, and the values handed out are exactly the original contents.  A
/// further draw is then excluded by `draw`'s precondition, which rules out
/// the empty pool — the one input on which the host operation is fatal.
pub proof fn lemma_exhaustion_completeness<T>(s: Seq<T>, idxs: Seq<int>)
    requires
        idxs.len() == s.len(),
        valid_draw_indices(idxs, s.len()),
    ensures
        draw_results(s, idxs).to_multiset() == s.to_multiset(),
        remaining_pool(s, idxs) =~= Seq::<T>::empty(),
{
    broadcast use vstd::seq_lib::group_to_multiset_ensures;

    lemma_draws_partition_pool(s, idxs);
    assert(remaining_pool(s, idxs).to_multiset() =~= Multiset::<T>::empty());
    assert(draw_results(s, idxs).to_multiset().add(Multiset::<T>::empty()) =~= draw_results(
        s,
        idxs,
    ).to_multiset());
}

/// The headline law for a fresh pool of length `n`: drawing it down to
/// empty yields each identity below `n` exactly once — a permutation of
/// `0, 1, ..., n-1` with no repeats and no omissions.
pub proof fn lemma_fresh_pool_permutation(n: nat, idxs: Seq<int>)
    requires
        n <= u64::MAX,
        idxs.len() == n,
        valid_draw_indices(idxs, n),
    ensures
        forall|v: u64|
            draw_results(identity_pool(n), idxs).to_multiset().count(v) == if (v as nat) < n {
                1nat
            } else {
                0nat
            },
{
    lemma_exhaustion_completeness(identity_pool(n), idxs);
    assert forall|v: u64|
        draw_results(identity_pool(n), idxs).to_multiset().count(v) == if (v as nat) < n {
            1nat
        } else {
            0nat
        } by {
        lemma_identity_pool_count(n, v);
    }
}

/// The same headline law for a fresh capped pool of length `n`: drawn down
/// to empty, it yields each identity below `n` exactly once.
pub proof fn lemma_fresh_capped_pool_permutation(n: nat, idxs: Seq<int>)
    requires
        n <= u32::MAX,
        idxs.len() == n,
        valid_draw_indices(idxs, n),
    ensures
        forall|v: u32|
            draw_results(identity_pool_u32(n), idxs).to_multiset().count(v) == if (v as nat) < n {
                1nat
            } else {
                0nat
            },
{
    lemma_exhaustion_completeness(identity_pool_u32(n), idxs);
    assert forall|v: u32|
        draw_results(identity_pool_u32(n), idxs).to_multiset().count(v) == if (v as nat) < n {
            1nat
        } else {
            0nat
        } by {
        lemma_identity_pool_u32_count(n, v);
    }
}

} // verus!
