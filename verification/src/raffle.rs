//! The plain draw pool.
//!
//! A `Raffle` stands for the identities `0, 1, ..., len-1` minus everything
//! already drawn, without ever materialising a slot that was not touched: a
//! slot with no written value is read as its own index, so a fresh pool of
//! any size needs no writes at all.  Each draw picks a position from an
//! injected random word, hands out the effective value there, and moves the
//! last effective value into the freed position (swap-remove), keeping the
//! remaining values dense at positions `0 .. len`.

use vstd::prelude::*;

use crate::model::{identity_pool, lemma_swap_removed_multiset, swap_removed};
use crate::slot_map::{distinct_keys, entries_map, SlotMap};

verus! {

/// One storage key joined from a pool's prefix and an encoded index.
pub fn append_slice(id: &[u8], extra: &[u8]) -> (r: Vec<u8>)
    ensures
        r@ == id@ + extra@,
{
    let mut out: Vec<u8> = Vec::new();
    let mut i: usize = 0;
    while i < id.len()
        invariant
            i <= id@.len(),
            out@ == id@.subrange(0, i as int),
        decreases id@.len() - i,
    {
        out.push(id[i]);
        i = i + 1;
    }
    assert(out@ == id@);
    let mut j: usize = 0;
    while j < extra.len()
        invariant
            j <= extra@.len(),
            out@ == id@ + extra@.subrange(0, j as int),
        decreases extra@.len() - j,
    {
        out.push(extra[j]);
        j = j + 1;
    }
    assert(out@ == id@ + extra@);
    out
}

/// The little-endian bytes of a 64-bit index, as they are laid down in a
/// storage key.
pub open spec fn u64_le_bytes(x: u64) -> Seq<u8> {
    seq![
        (x % 0x100) as u8,
        ((x / 0x100) % 0x100) as u8,
        ((x / 0x1_0000) % 0x100) as u8,
        ((x / 0x100_0000) % 0x100) as u8,
        ((x / 0x1_0000_0000) % 0x100) as u8,
        ((x / 0x100_0000_0000) % 0x100) as u8,
        ((x / 0x1_0000_0000_0000) % 0x100) as u8,
        ((x / 0x100_0000_0000_0000) % 0x100) as u8,
    ]
}

/// The effective value of slot `i`: what was written there, or the slot's
/// own index where nothing ever was.
pub open spec fn effective_value(m: Map<u64, u64>, i: u64) -> u64 {
    if m.contains_key(i) {
        m[i]
    } else {
        i
    }
}

/// The remaining identities, one effective value per position `0 .. len`.
pub struct Raffle {
    len: u64,
    prefix: Vec<u8>,
    slots: SlotMap,
}

impl View for Raffle {
    type V = Seq<u64>;

    /// The pool's logical contents: the effective values at `0 .. len`.
    closed spec fn view(&self) -> Seq<u64> {
        Seq::new(self.len as nat, |i: int| effective_value(self.slots@, i as u64))
    }
}

impl Raffle {
    /// The written slots are held consistently.
    pub closed spec fn wf(&self) -> bool {
        self.slots.wf()
    }

    /// The storage-key prefix this pool was created with.
    pub closed spec fn spec_prefix(&self) -> Seq<u8> {
        self.prefix@
    }

    /// The written slots as a map.
    pub closed spec fn spec_slots(&self) -> Map<u64, u64> {
        self.slots@
    }

    /// How many identities are still in the pool.
    pub fn len(&self) -> (r: u64)
        ensures
            r == self@.len(),
    {
        self.len
    }

    /// Whether the pool is exhausted.
    pub fn is_empty(&self) -> (r: bool)
        ensures
            r == (self@.len() == 0),
    {
        self.len == 0
    }

    /// A fresh pool of `len` identities under the key prefix `prefix`.  No
    /// slot is written: the pool already reads as `0, 1, ..., len-1`.
    pub fn new(prefix: Vec<u8>, len: u64) -> (r: Raffle)
        ensures
            r.wf(),
            r@ == identity_pool(len as nat),
            r@.len() == len,
            r.spec_prefix() == prefix@,
            r.spec_slots() == Map::<u64, u64>::empty(),
    {
        let r = Raffle { len, prefix, slots: SlotMap::new() };
        proof {
            assert(r@ =~= identity_pool(len as nat));
        }
        r
    }

    /// The storage key of slot `index`: the pool's prefix followed by the
    /// index's little-endian bytes.
    pub fn index_to_lookup_key(&self, index: u64) -> (r: Vec<u8>)
        ensures
            r@ == self.spec_prefix() + u64_le_bytes(index),
    {
        let bytes: [u8; 8] = [
            (index % 0x100) as u8,
            ((index / 0x100) % 0x100) as u8,
            ((index / 0x1_0000) % 0x100) as u8,
            ((index / 0x100_0000) % 0x100) as u8,
            ((index / 0x1_0000_0000) % 0x100) as u8,
            ((index / 0x100_0000_0000) % 0x100) as u8,
            ((index / 0x1_0000_0000_0000) % 0x100) as u8,
            ((index / 0x100_0000_0000_0000) % 0x100) as u8,
        ];
        let r = append_slice(self.prefix.as_slice(), bytes.as_slice());
        proof {
            assert(bytes@ =~= u64_le_bytes(index));
        }
        r
    }

    /// Removes and returns the pool's last effective value, clearing its
    /// slot; `None` on an empty pool, which it leaves unchanged.
    pub fn pop_raw(&mut self) -> (r: Option<u64>)
        requires
            old(self).wf(),
        ensures
            final(self).wf(),
            final(self).spec_prefix() == old(self).spec_prefix(),
            old(self)@.len() == 0 ==> r is None && final(self)@ == old(self)@
                && final(self).spec_slots() == old(self).spec_slots(),
            old(self)@.len() > 0 ==> r == Some(old(self)@.last()) && final(self)@ == old(
                self,
            )@.drop_last() && final(self).spec_slots() == old(self).spec_slots().remove(
                ((old(self)@.len() - 1) as u64),
            ),
    {
        if self.is_empty() {
            None
        } else {
            self.len = self.len - 1;
            let last_index = self.len;
            let value = self.slots.remove(last_index).unwrap_or(last_index);
            proof {
                assert(value == old(self)@.last());
                assert(self@ =~= old(self)@.drop_last());
            }
            Some(value)
        }
    }

    /// Removes and returns the effective value at `index`; the last
    /// effective value moves into its place and the pool shrinks by one.
    pub fn swap_remove_raw(&mut self, index: u64) -> (r: u64)
        requires
            old(self).wf(),
            index < old(self)@.len(),
        ensures
            final(self).wf(),
            final(self).spec_prefix() == old(self).spec_prefix(),
            r == old(self)@[index as int],
            final(self)@ == swap_removed(old(self)@, index as int),
            index + 1 == old(self)@.len() ==> final(self).spec_slots() == old(self).spec_slots(
            ).remove(((old(self)@.len() - 1) as u64)),
            index + 1 < old(self)@.len() ==> final(self).spec_slots() == old(self).spec_slots(
            ).remove(((old(self)@.len() - 1) as u64)).insert(index, old(self)@.last()),
    {
        if index + 1 == self.len {
            let value = self.pop_raw().unwrap();
            proof {
                assert(self@ =~= swap_removed(old(self)@, index as int));
            }
            value
        } else {
            let last_value = self.pop_raw().unwrap();
            let ghost mid_view = self@;
            let ghost mid_slots = self.slots@;
            let value = self.slots.insert(index, last_value).unwrap_or(index);
            proof {
                assert(mid_view == old(self)@.drop_last());
                assert(mid_view.len() == old(self)@.len() - 1);
                assert(index < mid_view.len());
                assert(mid_view[index as int] == effective_value(mid_slots, index));
                assert(value == old(self)@[index as int]);
                assert(self@.len() == mid_view.len());
                let target = swap_removed(old(self)@, index as int);
                assert(target.len() == mid_view.len());
                assert forall|i: int| 0 <= i < self@.len() implies self@[i] == target[i] by {
                    assert(self@[i] == effective_value(self.slots@, i as u64));
                    if i == index {
                        assert(self@[i] == last_value);
                        assert(target[i] == old(self)@.last());
                    } else {
                        assert(self@[i] == effective_value(mid_slots, i as u64));
                        assert(mid_view[i] == effective_value(mid_slots, i as u64));
                        assert(target[i] == old(self)@[i]);
                    }
                }
                assert(self@ =~= target);
            }
            value
        }
    }

    /// The pool's key prefix, for a caller that stores it between runs.
    pub fn prefix(&self) -> (r: &Vec<u8>)
        ensures
            r@ == self.spec_prefix(),
    {
        &self.prefix
    }

    /// The written slots as plain pairs, for a caller that stores the pool
    /// between runs.
    pub fn entries(&self) -> (r: &Vec<(u64, u64)>)
        requires
            self.wf(),
        ensures
            distinct_keys(r@),
            entries_map(r@) == self.spec_slots(),
    {
        self.slots.entries()
    }

    /// A pool resumed from its stored length and written slots; refused
    /// when a slot index repeats.
    pub fn restore(prefix: Vec<u8>, len: u64, entries: Vec<(u64, u64)>) -> (r: Option<Raffle>)
        ensures
            r is Some <==> distinct_keys(entries@),
            r matches Some(p) ==> p.wf() && p.spec_prefix() == prefix@ && p.spec_slots()
                == entries_map(entries@) && p@.len() == len && p@ == Seq::new(
                len as nat,
                |i: int| effective_value(entries_map(entries@), i as u64),
            ),
    {
        match SlotMap::from_entries(entries) {
            Some(slots) => {
                let p = Raffle { len, prefix, slots };
                proof {
                    assert(p@ =~= Seq::new(
                        len as nat,
                        |i: int| effective_value(entries_map(entries@), i as u64),
                    ));
                }
                Some(p)
            },
            None => None,
        }
    }

    /// One fair draw.  The injected random word `seed` is reduced modulo the
    /// remaining length to pick a position uniformly; the value there is
    /// removed by swap-remove and returned.  The result and the new state
    /// are functions of the pool's contents and `seed` alone, and exactly
    /// one occurrence of the returned value leaves the pool.
    pub fn draw(&mut self, seed: u64) -> (r: u64)
        requires
            old(self).wf(),
            old(self)@.len() > 0,
        ensures
            final(self).wf(),
            final(self).spec_prefix() == old(self).spec_prefix(),
            r == old(self)@[(seed % (old(self)@.len() as u64)) as int],
            final(self)@ == swap_removed(old(self)@, (seed % (old(self)@.len() as u64)) as int),
            final(self)@.len() == old(self)@.len() - 1,
            final(self)@.to_multiset() == old(self)@.to_multiset().remove(r),
            final(self).spec_slots() == ({
                let last = (old(self)@.len() - 1) as u64;
                let index = seed % (old(self)@.len() as u64);
                if index == last {
                    old(self).spec_slots().remove(last)
                } else {
                    old(self).spec_slots().remove(last).insert(index, old(self)@.last())
                }
            }),
    {
        let index = seed % self.len;
        let value = self.swap_remove_raw(index);
        proof {
            lemma_swap_removed_multiset(old(self)@, index as int);
        }
        value
    }
}

} // verus!
