//! The draw pool with a winner log and a draw cap.
//!
//! A `RaffleCollection` removes identities by the very same swap-remove
//! algorithm as the plain pool, and in addition appends every value it hands
//! out to an ordered, append-only log of past winners, which callers can
//! read back in pages.  Successful draws can also be capped at a total
//! independent of the pool's size: once the log has reached `max_winners`
//! entries, further draws yield no result while the pool keeps what it
//! still holds.

use vstd::prelude::*;

use crate::model::{identity_pool_u32, lemma_swap_removed_multiset, swap_removed};
use crate::raffle::{effective_value, Raffle};
use crate::slot_map::{distinct_keys, entries_map};

verus! {

/// The page of a winner log `w` that starts after `start` entries and holds
/// at most `limit` of them: empty whenever `start` is past the log's end.
pub open spec fn winners_slice(w: Seq<u32>, start: int, limit: int) -> Seq<u32> {
    if start >= w.len() {
        Seq::empty()
    } else if start + limit >= w.len() {
        w.subrange(start, w.len() as int)
    } else {
        w.subrange(start, start + limit)
    }
}

/// The remaining identities together with the ordered log of past winners.
pub struct RaffleCollection {
    pool: Raffle,
    winners: Vec<u32>,
    winners_prefix: Vec<u8>,
    max_winners: u32,
}

impl RaffleCollection {
    /// The pool's logical contents, one effective value per position.
    pub closed spec fn pool_view(&self) -> Seq<u32> {
        self.pool@.map_values(|v: u64| v as u32)
    }

    /// The winner log, in draw order.
    pub closed spec fn winners_view(&self) -> Seq<u32> {
        self.winners@
    }

    /// The cap on how many draws may ever succeed.
    pub closed spec fn spec_max_winners(&self) -> u32 {
        self.max_winners
    }

    /// The key prefixes of the pool's slots and of the winner log.
    pub closed spec fn spec_prefix(&self) -> Seq<u8> {
        self.pool.spec_prefix()
    }

    pub closed spec fn spec_winners_prefix(&self) -> Seq<u8> {
        self.winners_prefix@
    }

    /// The written pool slots as a map.
    pub closed spec fn spec_slots(&self) -> Map<u64, u64> {
        self.pool.spec_slots()
    }

    /// The pool is held consistently, every value in it fits the 32-bit
    /// identity space, and pool and log together never outgrow it.
    pub closed spec fn wf(&self) -> bool {
        &&& self.pool.wf()
        &&& self.pool@.len() <= u32::MAX
        &&& (forall|i: int| 0 <= i < self.pool@.len() ==> self.pool@[i] <= u32::MAX)
        &&& self.winners@.len() + self.pool@.len() <= u32::MAX
    }

    /// How many identities are still in the pool.
    pub fn len(&self) -> (r: u32)
        requires
            self.wf(),
        ensures
            r == self.pool_view().len(),
    {
        self.pool.len() as u32
    }

    /// Whether the pool itself is exhausted.
    pub fn is_empty(&self) -> (r: bool)
        ensures
            r == (self.pool_view().len() == 0),
    {
        self.pool.is_empty()
    }

    /// A fresh capped pool of `len` identities.  The pool's slots live under
    /// the prefix itself; the winner log lives under the prefix with one
    /// byte appended, so the two never collide.
    pub fn new(prefix: Vec<u8>, len: u32, max_winners: u32) -> (r: RaffleCollection)
        ensures
            r.wf(),
            r.pool_view() == identity_pool_u32(len as nat),
            r.pool_view().len() == len,
            r.winners_view() == Seq::<u32>::empty(),
            r.spec_max_winners() == max_winners,
            r.spec_prefix() == prefix@,
            r.spec_winners_prefix() == prefix@.push(100u8),
            r.spec_slots() == Map::<u64, u64>::empty(),
    {
        let inner_map_key = prefix;
        let mut winners_key = inner_map_key.clone();
        winners_key.push(100);
        let r = RaffleCollection {
            pool: Raffle::new(inner_map_key, len as u64),
            winners: Vec::new(),
            winners_prefix: winners_key,
            max_winners,
        };
        proof {
            assert(r.pool_view() =~= identity_pool_u32(len as nat));
        }
        r
    }

    /// Removes and returns the effective value at `index`, moving the last
    /// effective value into its place, and appends it to the winner log.
    pub fn swap_remove(&mut self, index: u32) -> (r: u32)
        requires
            old(self).wf(),
            index < old(self).pool_view().len(),
        ensures
            final(self).wf(),
            r == old(self).pool_view()[index as int],
            final(self).pool_view() == swap_removed(old(self).pool_view(), index as int),
            final(self).winners_view() == old(self).winners_view().push(r),
            final(self).spec_max_winners() == old(self).spec_max_winners(),
            final(self).spec_prefix() == old(self).spec_prefix(),
            final(self).spec_winners_prefix() == old(self).spec_winners_prefix(),
            index + 1 == old(self).pool_view().len() ==> final(self).spec_slots() == old(
                self,
            ).spec_slots().remove(((old(self).pool_view().len() - 1) as u64)),
            index + 1 < old(self).pool_view().len() ==> final(self).spec_slots() == old(
                self,
            ).spec_slots().remove(((old(self).pool_view().len() - 1) as u64)).insert(
                index as u64,
                (old(self).pool_view().last() as u64),
            ),
    {
        let value64 = self.pool.swap_remove_raw(index as u64);
        assert(value64 <= u32::MAX as u64);
        let value = value64 as u32;
        self.winners.push(value);
        proof {
            assert forall|i: int| 0 <= i < self.pool@.len() implies self.pool@[i]
                <= u32::MAX by {
                assert(self.pool@[i] == swap_removed(old(self).pool@, index as int)[i]);
            }
            assert(self.pool_view() =~= swap_removed(old(self).pool_view(), index as int));
        }
        value
    }

    /// One fair draw with no cap check: the injected random word picks the
    /// position, and the removed value is logged and returned.
    pub fn draw_raw(&mut self, seed: u32) -> (r: u32)
        requires
            old(self).wf(),
            old(self).pool_view().len() > 0,
        ensures
            final(self).wf(),
            r == old(self).pool_view()[(seed % (old(self).pool_view().len() as u32)) as int],
            final(self).pool_view() == swap_removed(
                old(self).pool_view(),
                (seed % (old(self).pool_view().len() as u32)) as int,
            ),
            final(self).pool_view().len() == old(self).pool_view().len() - 1,
            final(self).pool_view().to_multiset() == old(self).pool_view().to_multiset().remove(r),
            final(self).winners_view() == old(self).winners_view().push(r),
            final(self).spec_max_winners() == old(self).spec_max_winners(),
            final(self).spec_prefix() == old(self).spec_prefix(),
            final(self).spec_winners_prefix() == old(self).spec_winners_prefix(),
            final(self).spec_slots() == ({
                let last = (old(self).pool_view().len() - 1) as u64;
                let index = (seed % (old(self).pool_view().len() as u32)) as u64;
                if index == last {
                    old(self).spec_slots().remove(last)
                } else {
                    old(self).spec_slots().remove(last).insert(
                        index,
                        (old(self).pool_view().last() as u64),
                    )
                }
            }),
    {
        let index = seed % self.len();
        let value = self.swap_remove(index);
        proof {
            lemma_swap_removed_multiset(old(self).pool_view(), index as int);
        }
        value
    }

    /// One capped fair draw.  On a pool that still holds identities, this
    /// yields no result exactly when the log has already reached the cap —
    /// the pool is then left untouched — and otherwise draws as `draw_raw`
    /// does and logs the value.
    pub fn draw(&mut self, seed: u32) -> (r: Option<u32>)
        requires
            old(self).wf(),
            old(self).pool_view().len() > 0,
        ensures
            final(self).wf(),
            final(self).spec_max_winners() == old(self).spec_max_winners(),
            final(self).spec_prefix() == old(self).spec_prefix(),
            final(self).spec_winners_prefix() == old(self).spec_winners_prefix(),
            old(self).winners_view().len() == old(self).spec_max_winners() ==> r is None
                && final(self).pool_view() == old(self).pool_view() && final(self).winners_view()
                == old(self).winners_view() && final(self).spec_slots() == old(self).spec_slots(),
            old(self).winners_view().len() != old(self).spec_max_winners() ==> {
                let index = (seed % (old(self).pool_view().len() as u32)) as int;
                let last = (old(self).pool_view().len() - 1) as u64;
                &&& r == Some(old(self).pool_view()[index])
                &&& final(self).pool_view() == swap_removed(old(self).pool_view(), index)
                &&& final(self).winners_view() == old(self).winners_view().push(
                    old(self).pool_view()[index],
                )
                &&& final(self).spec_slots() == (if index == last {
                    old(self).spec_slots().remove(last)
                } else {
                    old(self).spec_slots().remove(last).insert(
                        index as u64,
                        (old(self).pool_view().last() as u64),
                    )
                })
            },
    {
        if self.num_winners() == self.max_winners {
            return None;
        }
        let res = self.draw_raw(seed);
        Some(res)
    }

    /// The page of the winner log that skips the first `index` entries and
    /// holds at most `limit` of them, in draw order; `index` defaults to the
    /// log's start and `limit` to its whole length.  A page beyond the end
    /// is empty, never an error.
    pub fn get_winners(&self, index: Option<u32>, limit: Option<u32>) -> (r: Vec<u32>)
        requires
            self.wf(),
        ensures
            r@ == winners_slice(
                self.winners_view(),
                match index {
                    Some(i) => i as int,
                    None => 0,
                },
                match limit {
                    Some(l) => l as int,
                    None => self.winners_view().len() as int,
                },
            ),
    {
        let total = self.num_winners();
        let lim = match limit {
            Some(l) => l,
            None => total,
        };
        let start = match index {
            Some(i) => i,
            None => 0,
        };
        let mut out: Vec<u32> = Vec::new();
        if start >= total {
            assert(out@ =~= winners_slice(
                self.winners_view(),
                start as int,
                lim as int,
            ));
            return out;
        }
        let end = if lim >= total - start {
            total
        } else {
            start + lim
        };
        let mut i: usize = start as usize;
        while i < end as usize
            invariant
                start <= end <= self.winners@.len(),
                start as usize <= i <= end as usize,
                out@ == self.winners@.subrange(start as int, i as int),
            decreases end as usize - i,
        {
            out.push(self.winners[i]);
            i = i + 1;
        }
        proof {
            assert(out@ == self.winners@.subrange(start as int, end as int));
            assert(out@ =~= winners_slice(self.winners_view(), start as int, lim as int));
        }
        out
    }

    /// The cap on successful draws this pool was created with.
    pub fn max_winners(&self) -> (r: u32)
        ensures
            r == self.spec_max_winners(),
    {
        self.max_winners
    }

    /// The pool's key prefix, for a caller that stores it between runs.
    pub fn prefix(&self) -> (r: &Vec<u8>)
        ensures
            r@ == self.spec_prefix(),
    {
        self.pool.prefix()
    }

    /// The winner log's key prefix.
    pub fn winners_prefix(&self) -> (r: &Vec<u8>)
        ensures
            r@ == self.spec_winners_prefix(),
    {
        &self.winners_prefix
    }

    /// The written pool slots as plain pairs, for a caller that stores the
    /// pool between runs.
    pub fn entries(&self) -> (r: &Vec<(u64, u64)>)
        requires
            self.wf(),
        ensures
            distinct_keys(r@),
            entries_map(r@) == self.spec_slots(),
    {
        self.pool.entries()
    }

    /// A capped pool resumed from its stored parts; refused when a slot
    /// index repeats, a stored value does not fit the 32-bit identity
    /// space, or log and pool together outgrow it.
    pub fn restore(
        prefix: Vec<u8>,
        winners_prefix: Vec<u8>,
        len: u32,
        max_winners: u32,
        entries: Vec<(u64, u64)>,
        winners: Vec<u32>,
    ) -> (r: Option<RaffleCollection>)
        ensures
            r is Some <==> distinct_keys(entries@) && (forall|i: int|
                0 <= i < entries@.len() ==> (#[trigger] entries@[i]).1 <= u32::MAX)
                && winners@.len() + len <= u32::MAX && winners@.len() <= max_winners,
            r matches Some(c) ==> c.wf() && c.spec_prefix() == prefix@ && c.spec_winners_prefix()
                == winners_prefix@ && c.spec_max_winners() == max_winners && c.winners_view()
                == winners@ && c.spec_slots() == entries_map(entries@) && c.pool_view().len()
                == len && c.pool_view() == Seq::new(
                len as nat,
                |i: int| (effective_value(entries_map(entries@), i as u64) as u32),
            ),
    {
        let n = entries.len();
        let mut i: usize = 0;
        while i < n
            invariant
                n == entries.len(),
                i <= n,
                forall|j: int| 0 <= j < i ==> (#[trigger] entries@[j]).1 <= u32::MAX,
            decreases n - i,
        {
            if entries[i].1 > u32::MAX as u64 {
                return None;
            }
            i = i + 1;
        }
        if winners.len() as u64 > (u32::MAX - len) as u64 {
            return None;
        }
        if winners.len() as u64 > max_winners as u64 {
            return None;
        }
        match Raffle::restore(prefix, len as u64, entries) {
            Some(pool) => {
                let c = RaffleCollection { pool, winners, winners_prefix, max_winners };
                proof {
                    assert forall|k: int| 0 <= k < c.pool@.len() implies c.pool@[k]
                        <= u32::MAX by {
                        assert(c.pool@[k] == effective_value(entries_map(entries@), k as u64));
                        if entries_map(entries@).contains_key(k as u64) {
                            crate::slot_map::lemma_entries_map_is_listed(entries@, k as u64);
                            let w = choose|j: int|
                                0 <= j < entries@.len() && entries@[j] == (
                                k as u64,
                                entries_map(entries@)[k as u64],
                                );
                            assert((entries@[w]).1 <= u32::MAX);
                        }
                    }
                    assert(c.pool_view() =~= Seq::new(
                        len as nat,
                        |i: int| (effective_value(entries_map(entries@), i as u64) as u32),
                    ));
                }
                Some(c)
            },
            None => None,
        }
    }

    /// How many draws have succeeded so far: the winner log's length.
    pub fn num_winners(&self) -> (r: u32)
        requires
            self.wf(),
        ensures
            r == self.winners_view().len(),
    {
        self.winners.len() as u32
    }
}

/// The whole winner log read back as one page is the log itself.  Each
/// draw's contract appends its value to the log, and what a whole run of
/// draws leaves there is stated by `crate::model::lemma_log_records_draws`:
/// so the page `0 .. num_winners` equals, in order, exactly the values the
/// draws returned.
pub proof fn lemma_history_round_trip(w: Seq<u32>)
    ensures
        winners_slice(w, 0, w.len() as int) == w,
{
    assert(winners_slice(w, 0, w.len() as int) =~= w);
}

/// Pagination boundaries: a page starting at or past the log's end is
/// empty, a page of zero length is empty, and any page within the log is
/// the contiguous slice that direct indexing gives.
pub proof fn lemma_pagination(w: Seq<u32>, start: int, limit: int)
    requires
        0 <= start,
        0 <= limit,
    ensures
        start >= w.len() ==> winners_slice(w, start, limit) == Seq::<u32>::empty(),
        limit == 0 ==> winners_slice(w, start, limit) == Seq::<u32>::empty(),
        winners_slice(w, start, limit).len() == if start >= w.len() {
            0int
        } else if limit >= w.len() - start {
            w.len() - start
        } else {
            limit
        },
        forall|j: int|
            0 <= j < winners_slice(w, start, limit).len() ==> winners_slice(w, start, limit)[j]
                == w[start + j],
{
    if start < w.len() && limit == 0 {
        assert(winners_slice(w, start, limit) =~= Seq::<u32>::empty());
    }
}

} // verus!
