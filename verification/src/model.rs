//! The mathematical model of a least-frequently-used store.
//!
//! A store is described by three mappings that always agree with each other:
//! the stored values, the access count of every live key, and, for every
//! access count in use, the keys at that count in the order in which they
//! arrived there. Every operation of the store is a function on this state.

use vstd::prelude::*;

verus! {

/// A key of the store, as the sequence of its characters.
pub type Key = Seq<char>;

/// The frequency buckets: access count to the keys at that count, oldest first.
pub type Buckets = Map<nat, Seq<Key>>;

/// The abstract state of a store.
pub struct LfuState {
    /// The largest number of keys the store may hold.
    pub capacity: nat,
    /// The value stored for each live key.
    pub entries: Map<Key, i64>,
    /// The access count of each live key.
    pub frequency: Map<Key, nat>,
    /// The live keys grouped by access count, each group oldest first.
    pub buckets: Buckets,
}

/// `buckets` after `key` joins the tail of the bucket for count `f`,
/// which is created when it does not exist yet.
pub open spec fn bucket_append(buckets: Buckets, f: nat, key: Key) -> Buckets {
    let members = if buckets.contains_key(f) {
        buckets[f]
    } else {
        Seq::<Key>::empty()
    };
    buckets.insert(f, members.push(key))
}

/// `buckets` after the member at position `i` leaves the bucket for count `f`.
/// A bucket that loses its last member is deleted.
pub open spec fn bucket_remove_at(buckets: Buckets, f: nat, i: int) -> Buckets {
    let rest = buckets[f].remove(i);
    if rest.len() == 0 {
        buckets.remove(f)
    } else {
        buckets.insert(f, rest)
    }
}

impl LfuState {
    /// The store that holds nothing.
    pub open spec fn empty(capacity: nat) -> LfuState {
        LfuState {
            capacity,
            entries: Map::<Key, i64>::empty(),
            frequency: Map::<Key, nat>::empty(),
            buckets: Map::<nat, Seq<Key>>::empty(),
        }
    }

    /// Whether `key` is live.
    pub open spec fn contains(self, key: Key) -> bool {
        self.entries.contains_key(key)
    }

    /// The number of live keys.
    pub open spec fn len(self) -> nat {
        self.entries.len()
    }

    /// The value a lookup of `key` yields.
    pub open spec fn lookup(self, key: Key) -> Option<i64> {
        if self.contains(key) {
            Some(self.entries[key])
        } else {
            None
        }
    }

    /// The consistency conditions that every reachable state meets.
    pub open spec fn inv(self) -> bool {
        &&& self.entries.dom().finite()
        &&& self.entries.dom() == self.frequency.dom()
        &&& self.entries.len() <= self.capacity
        &&& forall|k: Key| #[trigger]
            self.frequency.contains_key(k) ==> {
                &&& self.frequency[k] >= 1
                &&& self.buckets.contains_key(self.frequency[k])
                &&& self.buckets[self.frequency[k]].contains(k)
            }
        &&& forall|f: nat| #[trigger]
            self.buckets.contains_key(f) ==> {
                &&& self.buckets[f].len() > 0
                &&& self.buckets[f].no_duplicates()
            }
        &&& forall|f: nat, i: int|
            self.buckets.contains_key(f) && 0 <= i < self.buckets[f].len() ==> {
                &&& self.frequency.contains_key(#[trigger] self.buckets[f][i])
                &&& self.frequency[self.buckets[f][i]] == f
            }
    }

    /// Whether `f` is the smallest access count that has a bucket.
    pub open spec fn is_min_frequency(self, f: nat) -> bool {
        &&& self.buckets.contains_key(f)
        &&& forall|g: nat| self.buckets.contains_key(g) ==> f <= g
    }

    /// The smallest access count that has a bucket.
    pub open spec fn min_frequency(self) -> nat {
        choose|f: nat| self.is_min_frequency(f)
    }

    /// The key that the next eviction removes: the oldest member of the
    /// bucket with the smallest access count.
    pub open spec fn victim(self) -> Key {
        self.buckets[self.min_frequency()].first()
    }

    /// The state after one eviction. A store without buckets is left as it is.
    pub open spec fn evict(self) -> LfuState {
        if self.buckets.dom().is_empty() {
            self
        } else {
            LfuState {
                capacity: self.capacity,
                entries: self.entries.remove(self.victim()),
                frequency: self.frequency.remove(self.victim()),
                buckets: bucket_remove_at(self.buckets, self.min_frequency(), 0),
            }
        }
    }

    /// The state after a hit on the live key `key`: its access count grows by
    /// one, and it moves from its bucket to the tail of the next one.
    pub open spec fn promote(self, key: Key) -> LfuState {
        let f = self.frequency[key];
        let detached = bucket_remove_at(self.buckets, f, self.buckets[f].index_of(key));
        LfuState {
            capacity: self.capacity,
            entries: self.entries,
            frequency: self.frequency.insert(key, f + 1),
            buckets: bucket_append(detached, f + 1, key),
        }
    }

    /// The state after the new key `key` enters with access count one.
    pub open spec fn insert_new(self, key: Key, value: i64) -> LfuState {
        LfuState {
            capacity: self.capacity,
            entries: self.entries.insert(key, value),
            frequency: self.frequency.insert(key, 1),
            buckets: bucket_append(self.buckets, 1, key),
        }
    }

    /// The state after `value` replaces what is stored for the live key `key`.
    pub open spec fn overwrite(self, key: Key, value: i64) -> LfuState {
        LfuState {
            capacity: self.capacity,
            entries: self.entries.insert(key, value),
            frequency: self.frequency,
            buckets: self.buckets,
        }
    }

    /// The state after a lookup of `key`: a hit promotes, a miss changes nothing.
    pub open spec fn get(self, key: Key) -> LfuState {
        if self.contains(key) {
            self.promote(key)
        } else {
            self
        }
    }

    /// The state after storing `value` under `key`.
    pub open spec fn put(self, key: Key, value: i64) -> LfuState {
        if self.capacity == 0 {
            self
        } else if self.contains(key) {
            self.overwrite(key, value)
        } else if self.len() == self.capacity {
            self.evict().insert_new(key, value)
        } else {
            self.insert_new(key, value)
        }
    }

    /// Among the access counts that have a bucket there is a smallest one.
    pub proof fn lemma_min_frequency_exists(self, f: nat)
        requires
            self.buckets.contains_key(f),
        ensures
            self.is_min_frequency(self.min_frequency()),
            self.min_frequency() <= f,
        decreases f,
    {
        if exists|g: nat| self.buckets.contains_key(g) && g < f {
            let g = choose|g: nat| self.buckets.contains_key(g) && g < f;
            self.lemma_min_frequency_exists(g);
        } else {
            assert(self.is_min_frequency(f));
        }
    }

    /// The smallest access count is the only one that meets its definition.
    pub proof fn lemma_min_frequency_unique(self, f: nat)
        requires
            self.is_min_frequency(f),
        ensures
            self.min_frequency() == f,
    {
    }

    /// A consistent state has no live key exactly when it has no bucket.
    pub proof fn lemma_no_keys_no_buckets(self)
        requires
            self.inv(),
        ensures
            self.buckets.dom().is_empty() <==> self.entries.len() == 0,
    {
        if self.buckets.dom().is_empty() {
            if self.entries.len() != 0 {
                // a live key has an access count, and that count a bucket
                let k = self.entries.dom().choose();
                assert(self.frequency.contains_key(k));
            }
        } else {
            // the head of any bucket is a live key
            let f = choose|f: nat| self.buckets.contains_key(f);
            assert(self.entries.contains_key(self.buckets[f][0]));
        }
    }
}

} // verus!
