//! Proofs that every operation of the store keeps its state consistent.

use vstd::prelude::*;
use crate::model::{Key, LfuState};

verus! {

impl LfuState {
    /// The empty store is consistent, whatever its capacity.
    pub proof fn lemma_empty_inv(capacity: nat)
        ensures
            LfuState::empty(capacity).inv(),
            LfuState::empty(capacity).len() == 0,
    {
    }

    /// In a consistent state that holds a key, the victim is a live key whose
    /// access count is the smallest of all.
    pub proof fn lemma_victim_least_frequent(self)
        requires
            self.inv(),
            self.len() > 0,
        ensures
            self.is_min_frequency(self.min_frequency()),
            self.contains(self.victim()),
            self.frequency[self.victim()] == self.min_frequency(),
            forall|k: Key| self.contains(k) ==> self.frequency[self.victim()] <= self.frequency[k],
    {
        self.lemma_no_keys_no_buckets();
        let g = choose|g: nat| self.buckets.contains_key(g);
        self.lemma_min_frequency_exists(g);
    }

    /// An eviction keeps the state consistent, and removes the victim and
    /// nothing else.
    pub proof fn lemma_evict_inv(self)
        requires
            self.inv(),
            self.len() > 0,
        ensures
            self.evict().inv(),
            self.evict().len() == self.len() - 1,
            self.evict().entries == self.entries.remove(self.victim()),
            !self.evict().contains(self.victim()),
    {
        self.lemma_victim_least_frequent();
        self.lemma_no_keys_no_buckets();
        let f = self.min_frequency();
        let after = self.evict();
        let bucket = self.buckets[f];
        let rest = bucket.remove(0);
        assert forall|k: Key| #[trigger] after.frequency.contains_key(k) implies {
            &&& after.frequency[k] >= 1
            &&& after.buckets.contains_key(after.frequency[k])
            &&& after.buckets[after.frequency[k]].contains(k)
        } by {
            if self.frequency[k] == f {
                // a key of the victim's bucket other than the victim moves up by one
                let i = bucket.index_of(k);
                assert(rest[i - 1] == k);
            }
        }
    }

    /// A hit keeps the state consistent and changes neither the stored
    /// values nor the number of live keys.
    pub proof fn lemma_promote_inv(self, key: Key)
        requires
            self.inv(),
            self.contains(key),
        ensures
            self.promote(key).inv(),
            self.promote(key).entries == self.entries,
            self.promote(key).frequency[key] == self.frequency[key] + 1,
    {
        let f = self.frequency[key];
        let bucket = self.buckets[f];
        let p = bucket.index_of(key);
        // the bucket of the old count once the key has left it
        let rest = bucket.remove(p);
        let after = self.promote(key);
        // the bucket of the new count once the key has joined it
        let next = after.buckets[f + 1];
        assert(after.frequency.dom() == self.frequency.dom());
        assert forall|k: Key| #[trigger] after.frequency.contains_key(k) implies {
            &&& after.frequency[k] >= 1
            &&& after.buckets.contains_key(after.frequency[k])
            &&& after.buckets[after.frequency[k]].contains(k)
        } by {
            if k == key {
                assert(next[next.len() - 1] == key);
            } else {
                let fk = self.frequency[k];
                let i = self.buckets[fk].index_of(k);
                if fk == f {
                    // the keys before the one that left stay in place, those
                    // after it move up by one
                    let j = if i < p { i } else { i - 1 };
                    assert(rest[j] == k);
                } else if fk == f + 1 {
                    assert(next[i] == k);
                }
            }
        }
        assert forall|g: nat, i: int|
            after.buckets.contains_key(g) && 0 <= i < after.buckets[g].len() implies {
            &&& after.frequency.contains_key(#[trigger] after.buckets[g][i])
            &&& after.frequency[after.buckets[g][i]] == g
        } by {}
    }

    /// A new key that enters a store with room left keeps the state
    /// consistent.
    pub proof fn lemma_insert_new_inv(self, key: Key, value: i64)
        requires
            self.inv(),
            !self.contains(key),
            self.len() < self.capacity,
        ensures
            self.insert_new(key, value).inv(),
            self.insert_new(key, value).len() == self.len() + 1,
    {
        let after = self.insert_new(key, value);
        let first = after.buckets[1];
        assert forall|k: Key| #[trigger] after.frequency.contains_key(k) implies {
            &&& after.frequency[k] >= 1
            &&& after.buckets.contains_key(after.frequency[k])
            &&& after.buckets[after.frequency[k]].contains(k)
        } by {
            if k == key {
                assert(first[first.len() - 1] == key);
            } else if self.frequency[k] == 1 {
                let i = self.buckets[1].index_of(k);
                assert(first[i] == k);
            }
        }
    }

    /// Replacing the value of a live key keeps the state consistent.
    pub proof fn lemma_overwrite_inv(self, key: Key, value: i64)
        requires
            self.inv(),
            self.contains(key),
        ensures
            self.overwrite(key, value).inv(),
            self.overwrite(key, value).len() == self.len(),
    {
        assert(self.entries.insert(key, value).dom() == self.entries.dom());
    }

    /// A lookup keeps the state consistent.
    pub proof fn lemma_get_inv(self, key: Key)
        requires
            self.inv(),
        ensures
            self.get(key).inv(),
            self.get(key).entries == self.entries,
            self.get(key).capacity == self.capacity,
    {
        if self.contains(key) {
            self.lemma_promote_inv(key);
        }
    }

    /// Storing a value keeps the state consistent.
    pub proof fn lemma_put_inv(self, key: Key, value: i64)
        requires
            self.inv(),
        ensures
            self.put(key, value).inv(),
            self.put(key, value).capacity == self.capacity,
    {
        if self.capacity == 0 {
        } else if self.contains(key) {
            self.lemma_overwrite_inv(key, value);
        } else if self.len() == self.capacity {
            self.lemma_evict_inv();
            self.evict().lemma_insert_new_inv(key, value);
        } else {
            self.lemma_insert_new_inv(key, value);
        }
    }
}

} // verus!
