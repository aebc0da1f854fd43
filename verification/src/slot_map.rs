//! A small map from slot indices to stored values.
//!
//! On chain, a pool's perturbed slots live in the host's key-value store;
//! each pool owns one key namespace there and no other code touches it.
//! Inside the verified engine that namespace is therefore modelled as a map
//! of the pool's own: an association list of the slots that were actually
//! written, viewed as a mathematical `Map<u64, u64>`.

use vstd::prelude::*;

verus! {

/// The slots of one pool namespace that have been explicitly written.
pub struct SlotMap {
    entries: Vec<(u64, u64)>,
}

/// The mathematical map described by a list of key-value pairs (a later pair
/// with the same key wins, though a well-formed list holds each key once).
pub open spec fn entries_map(s: Seq<(u64, u64)>) -> Map<u64, u64>
    decreases s.len(),
{
    if s.len() == 0 {
        Map::empty()
    } else {
        entries_map(s.drop_last()).insert(s.last().0, s.last().1)
    }
}

/// No key appears twice in the list.
pub open spec fn distinct_keys(s: Seq<(u64, u64)>) -> bool {
    forall|i: int, j: int| 0 <= i < j < s.len() ==> s[i].0 != s[j].0
}

proof fn lemma_entries_map_domain(s: Seq<(u64, u64)>, k: u64)
    ensures
        entries_map(s).contains_key(k) <==> exists|i: int| 0 <= i < s.len() && s[i].0 == k,
    decreases s.len(),
{
    if s.len() > 0 {
        lemma_entries_map_domain(s.drop_last(), k);
        if s.last().0 == k {
            assert(s[s.len() - 1].0 == k);
        } else if entries_map(s).contains_key(k) {
            let i = choose|i: int| 0 <= i < s.drop_last().len() && s.drop_last()[i].0 == k;
            assert(s[i].0 == k);
        } else if exists|i: int| 0 <= i < s.len() && s[i].0 == k {
            let i = choose|i: int| 0 <= i < s.len() && s[i].0 == k;
            assert(s.drop_last()[i].0 == k);
        }
    }
}

proof fn lemma_entries_map_value(s: Seq<(u64, u64)>, i: int)
    requires
        distinct_keys(s),
        0 <= i < s.len(),
    ensures
        entries_map(s).contains_key(s[i].0),
        entries_map(s)[s[i].0] == s[i].1,
    decreases s.len(),
{
    if i < s.len() - 1 {
        assert(s.drop_last()[i] == s[i]);
        lemma_entries_map_value(s.drop_last(), i);
    }
}

proof fn lemma_entries_map_update(s: Seq<(u64, u64)>, i: int, v: u64)
    requires
        distinct_keys(s),
        0 <= i < s.len(),
    ensures
        entries_map(s.update(i, (s[i].0, v))) == entries_map(s).insert(s[i].0, v),
        distinct_keys(s.update(i, (s[i].0, v))),
    decreases s.len(),
{
    let k = s[i].0;
    let t = s.update(i, (k, v));
    if i == s.len() - 1 {
        assert(t.drop_last() =~= s.drop_last());
        assert(entries_map(t) =~= entries_map(s).insert(k, v));
    } else {
        assert(t.drop_last() =~= s.drop_last().update(i, (k, v)));
        assert(s.drop_last()[i] == s[i]);
        lemma_entries_map_update(s.drop_last(), i, v);
        assert(s.last().0 != k);
        assert(entries_map(t) =~= entries_map(s).insert(k, v));
    }
}

proof fn lemma_entries_map_remove(s: Seq<(u64, u64)>, i: int)
    requires
        distinct_keys(s),
        0 <= i < s.len(),
    ensures
        entries_map(s.remove(i)) == entries_map(s).remove(s[i].0),
        distinct_keys(s.remove(i)),
    decreases s.len(),
{
    let k = s[i].0;
    let t = s.remove(i);
    assert forall|a: int, b: int| 0 <= a < b < t.len() implies t[a].0 != t[b].0 by {
        if b < i {
            assert(t[a] == s[a] && t[b] == s[b]);
        } else if a < i {
            assert(t[a] == s[a] && t[b] == s[b + 1]);
        } else {
            assert(t[a] == s[a + 1] && t[b] == s[b + 1]);
        }
    }
    if i == s.len() - 1 {
        assert(t =~= s.drop_last());
        lemma_entries_map_domain(s.drop_last(), k);
        assert(forall|j: int| 0 <= j < s.len() - 1 ==> s.drop_last()[j] == s[j]);
        assert(!entries_map(s.drop_last()).contains_key(k));
        assert(entries_map(t) =~= entries_map(s).remove(k));
    } else {
        assert(t.drop_last() =~= s.drop_last().remove(i));
        assert(s.drop_last()[i] == s[i]);
        lemma_entries_map_remove(s.drop_last(), i);
        assert(t.last() == s.last());
        assert(s.last().0 != k);
        assert(entries_map(t) =~= entries_map(s).remove(k));
    }
}

/// Every key the map holds was listed, with its value, as one of the pairs.
pub proof fn lemma_entries_map_is_listed(s: Seq<(u64, u64)>, k: u64)
    requires
        distinct_keys(s),
        entries_map(s).contains_key(k),
    ensures
        exists|i: int| 0 <= i < s.len() && s[i] == (k, entries_map(s)[k]),
{
    lemma_entries_map_domain(s, k);
    let i = choose|i: int| 0 <= i < s.len() && s[i].0 == k;
    lemma_entries_map_value(s, i);
    assert(s[i] == (k, entries_map(s)[k]));
}

impl View for SlotMap {
    type V = Map<u64, u64>;

    closed spec fn view(&self) -> Map<u64, u64> {
        entries_map(self.entries@)
    }
}

impl SlotMap {
    /// Each written slot is listed exactly once.
    pub closed spec fn wf(&self) -> bool {
        distinct_keys(self.entries@)
    }

    /// A namespace with no written slots.
    pub fn new() -> (r: SlotMap)
        ensures
            r.wf(),
            r@ == Map::<u64, u64>::empty(),
    {
        SlotMap { entries: Vec::new() }
    }

    /// The value written under `key`, if any.
    pub fn get(&self, key: u64) -> (r: Option<u64>)
        requires
            self.wf(),
        ensures
            match r {
                Some(v) => self@.contains_key(key) && self@[key] == v,
                None => !self@.contains_key(key),
            },
    {
        let n = self.entries.len();
        let mut i: usize = 0;
        while i < n
            invariant
                n == self.entries.len(),
                0 <= i <= n,
                self.wf(),
                forall|j: int| 0 <= j < i ==> self.entries@[j].0 != key,
            decreases n - i,
        {
            if self.entries[i].0 == key {
                proof {
                    lemma_entries_map_value(self.entries@, i as int);
                }
                return Some(self.entries[i].1);
            }
            i = i + 1;
        }
        proof {
            lemma_entries_map_domain(self.entries@, key);
        }
        None
    }

    /// Write `value` under `key`, handing back what was there before.
    pub fn insert(&mut self, key: u64, value: u64) -> (prev: Option<u64>)
        requires
            old(self).wf(),
        ensures
            final(self).wf(),
            final(self)@ == old(self)@.insert(key, value),
            match prev {
                Some(v) => old(self)@.contains_key(key) && old(self)@[key] == v,
                None => !old(self)@.contains_key(key),
            },
    {
        let n = self.entries.len();
        let mut i: usize = 0;
        while i < n
            invariant
                n == self.entries.len(),
                0 <= i <= n,
                self.wf(),
                self == old(self),
                forall|j: int| 0 <= j < i ==> self.entries@[j].0 != key,
            decreases n - i,
        {
            if self.entries[i].0 == key {
                let prev_value = self.entries[i].1;
                proof {
                    lemma_entries_map_value(self.entries@, i as int);
                    lemma_entries_map_update(self.entries@, i as int, value);
                }
                self.entries.set(i, (key, value));
                return Some(prev_value);
            }
            i = i + 1;
        }
        proof {
            lemma_entries_map_domain(self.entries@, key);
        }
        self.entries.push((key, value));
        proof {
            assert(self.entries@.drop_last() =~= old(self).entries@);
            assert(self@ =~= old(self)@.insert(key, value));
        }
        None
    }

    /// The written slots as plain pairs, for a caller that stores the map
    /// between runs.
    pub fn entries(&self) -> (r: &Vec<(u64, u64)>)
        requires
            self.wf(),
        ensures
            distinct_keys(r@),
            entries_map(r@) == self@,
    {
        &self.entries
    }

    /// A map resumed from stored pairs; refused when a key repeats.
    pub fn from_entries(entries: Vec<(u64, u64)>) -> (r: Option<SlotMap>)
        ensures
            r is Some <==> distinct_keys(entries@),
            r matches Some(m) ==> m.wf() && m@ == entries_map(entries@),
    {
        let n = entries.len();
        let mut i: usize = 0;
        while i < n
            invariant
                n == entries.len(),
                i <= n,
                forall|a: int, b: int| 0 <= a < b < i ==> entries@[a].0 != entries@[b].0,
                forall|a: int, b: int|
                    0 <= a < i && a < b < n ==> entries@[a].0 != entries@[b].0,
            decreases n - i,
        {
            let mut j: usize = i + 1;
            while j < n
                invariant
                    n == entries.len(),
                    i < j || j == i + 1,
                    i < n,
                    i + 1 <= j <= n,
                    forall|b: int| i < b < j ==> entries@[i as int].0 != entries@[b].0,
                decreases n - j,
            {
                if entries[i].0 == entries[j].0 {
                    return None;
                }
                j = j + 1;
            }
            i = i + 1;
        }
        Some(SlotMap { entries })
    }

    /// Clear the slot under `key`, handing back what was there before.
    pub fn remove(&mut self, key: u64) -> (prev: Option<u64>)
        requires
            old(self).wf(),
        ensures
            final(self).wf(),
            final(self)@ == old(self)@.remove(key),
            match prev {
                Some(v) => old(self)@.contains_key(key) && old(self)@[key] == v,
                None => !old(self)@.contains_key(key),
            },
    {
        let n = self.entries.len();
        let mut i: usize = 0;
        while i < n
            invariant
                n == self.entries.len(),
                0 <= i <= n,
                self.wf(),
                self == old(self),
                forall|j: int| 0 <= j < i ==> self.entries@[j].0 != key,
            decreases n - i,
        {
            if self.entries[i].0 == key {
                proof {
                    lemma_entries_map_value(self.entries@, i as int);
                    lemma_entries_map_remove(self.entries@, i as int);
                }
                let pair = self.entries.remove(i);
                return Some(pair.1);
            }
            i = i + 1;
        }
        proof {
            lemma_entries_map_domain(self.entries@, key);
            assert(self@ =~= old(self)@.remove(key));
        }
        None
    }
}

} // verus!
