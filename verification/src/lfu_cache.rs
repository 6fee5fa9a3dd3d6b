//! An in-memory key-value store that evicts the least frequently used key.

use vstd::prelude::*;
use vstd::hash_map::StringHashMap;
use vstd::std_specs::hash::OccupiedEntrySpecFns;
use std::collections::HashMap;
use std::collections::hash_map::Entry;
use crate::model::{bucket_append, bucket_remove_at, Buckets, Key, LfuState};

verus! {

broadcast use vstd::std_specs::hash::group_hash_axioms;

/// A store of `i64` values under `String` keys that holds at most a fixed
/// number of keys and makes room by evicting the least frequently used one,
/// the oldest among equals.
pub struct LFUCache {
    /// The largest number of keys held at any time.
    capacity: u64,
    /// The value stored under each live key.
    kvs: StringHashMap<i64>,
    /// The access count of each live key.
    frequency_count: StringHashMap<u64>,
    /// The live keys by access count, each bucket oldest first.
    frequency_list: HashMap<u64, Vec<String>>,
}

/// The keys of one bucket as character sequences.
spec fn key_views(keys: Seq<String>) -> Seq<Key> {
    keys.map_values(|k: String| k@)
}

/// The frequency buckets of the model that a bucket table stands for.
spec fn bucket_views(table: Map<u64, Vec<String>>) -> Buckets {
    Map::new(
        |f: nat| f <= u64::MAX && table.contains_key(f as u64),
        |f: nat| key_views(table[f as u64]@),
    )
}

/// Writing a bucket into the table writes its keys into the model.
proof fn lemma_bucket_views_insert(table: Map<u64, Vec<String>>, f: u64, keys: Vec<String>)
    ensures
        bucket_views(table.insert(f, keys)) == bucket_views(table).insert(
            f as nat,
            key_views(keys@),
        ),
{
    assert(bucket_views(table.insert(f, keys)) =~= bucket_views(table).insert(
        f as nat,
        key_views(keys@),
    ));
}

/// Deleting a bucket from the table deletes it from the model.
proof fn lemma_bucket_views_remove(table: Map<u64, Vec<String>>, f: u64)
    ensures
        bucket_views(table.remove(f)) == bucket_views(table).remove(f as nat),
{
    assert(bucket_views(table.remove(f)) =~= bucket_views(table).remove(f as nat));
}

impl View for LFUCache {
    type V = LfuState;

    closed spec fn view(&self) -> LfuState {
        LfuState {
            capacity: self.capacity as nat,
            entries: self.kvs@,
            frequency: self.frequency_count@.map_values(|f: u64| f as nat),
            buckets: bucket_views(self.frequency_list@),
        }
    }
}

/// The position of the first key in `keys` that equals `key`.
fn position(keys: &Vec<String>, key: &String) -> (result: Option<usize>)
    ensures
        match result {
            Some(i) => i < keys.len() && keys[i as int]@ == key@ && forall|j: int|
                0 <= j < i ==> keys[j]@ != key@,
            None => forall|j: int| 0 <= j < keys.len() ==> keys[j]@ != key@,
        },
{
    let mut i: usize = 0;
    while i < keys.len()
        invariant
            i <= keys.len(),
            forall|j: int| 0 <= j < i ==> keys[j]@ != key@,
        decreases keys.len() - i,
    {
        if keys[i] == *key {
            return Some(i);
        }
        i += 1;
    }
    None
}

/// Takes the member at position `pos` out of the bucket for count `freq` and
/// deletes the bucket if that was its last member. Where there is no such
/// member, the table is left as it is.
fn remove_from_bucket(table: &mut HashMap<u64, Vec<String>>, freq: u64, pos: usize) -> (key:
    Option<String>)
    ensures
        match key {
            Some(k) => {
                &&& old(table)@.contains_key(freq)
                &&& pos < old(table)@[freq].len()
                &&& k == old(table)@[freq][pos as int]
                &&& bucket_views(final(table)@) == bucket_remove_at(
                    bucket_views(old(table)@),
                    freq as nat,
                    pos as int,
                )
            },
            None => {
                &&& !(old(table)@.contains_key(freq) && pos < old(table)@[freq].len())
                &&& final(table)@ == old(table)@
            },
        },
{
    let ghost before = table@;
    match table.entry(freq) {
        Entry::Occupied(mut occupied) => {
            if pos < occupied.get().len() {
                let key = occupied.get_mut().remove(pos);
                proof {
                    assert(key_views(occupied.value()@) =~= key_views(before[freq]@).remove(
                        pos as int,
                    ));
                }
                if occupied.get().is_empty() {
                    occupied.remove();
                    proof {
                        lemma_bucket_views_remove(before, freq);
                    }
                } else {
                    proof {
                        lemma_bucket_views_insert(before, freq, occupied.value());
                    }
                }
                Some(key)
            } else {
                None
            }
        },
        Entry::Vacant(_) => None,
    }
}

/// Puts `key` at the tail of the bucket for count `freq`, which is created
/// when it does not exist yet.
fn append_to_bucket(table: &mut HashMap<u64, Vec<String>>, freq: u64, key: String)
    ensures
        bucket_views(final(table)@) == bucket_append(bucket_views(old(table)@), freq as nat, key@),
{
    let ghost before = table@;
    let keys = table.entry(freq).or_insert(Vec::new());
    let ghost members = keys@;
    keys.push(key);
    proof {
        assert(key_views(members.push(key)) =~= key_views(members).push(key@));
        assert(key_views(Seq::<String>::empty()) =~= Seq::<Key>::empty());
        lemma_bucket_views_insert(before, freq, *keys);
    }
}

impl LFUCache {
    /// Whether the three tables of the store agree with each other.
    pub open spec fn wf(&self) -> bool {
        self@.inv()
    }

    /// Creates an empty store that holds at most `capacity` keys. With
    /// capacity zero the store stays empty for good.
    pub fn new(capacity: i64) -> (cache: Self)
        requires
            capacity >= 0,
        ensures
            cache.wf(),
            cache@ == LfuState::empty(capacity as nat),
    {
        let cache = LFUCache {
            capacity: capacity as u64,
            kvs: StringHashMap::new(),
            frequency_count: StringHashMap::new(),
            frequency_list: HashMap::new(),
        };
        proof {
            assert(cache@.frequency =~= Map::<Key, nat>::empty());
            assert(cache@.buckets =~= Map::<nat, Seq<Key>>::empty());
        }
        cache
    }

    /// The smallest access count that has a bucket, if there is any bucket.
    fn min_frequency(&self) -> (result: Option<u64>)
        ensures
            match result {
                Some(f) => self@.is_min_frequency(f as nat),
                None => self@.buckets.dom().is_empty(),
            },
    {
        let mut best: Option<u64> = None;
        for f in it: self.frequency_list.keys()
            invariant
                match best {
                    Some(b) => self.frequency_list@.contains_key(b) && forall|i: int|
                        0 <= i < it.index() ==> b <= *it.seq()[i],
                    None => it.index() == 0,
                },
        {
            match best {
                Some(b) => {
                    if *f < b {
                        best = Some(*f);
                    }
                },
                None => {
                    best = Some(*f);
                },
            }
        }
        best
    }

    /// Records a hit on the live key `key`: adds one to its access count and
    /// moves it from its bucket to the tail of the next one.
    fn update_frequency(&mut self, key: &String)
        requires
            old(self).wf(),
            old(self)@.contains(key@),
            old(self)@.frequency[key@] < u64::MAX,
        ensures
            final(self).wf(),
            final(self)@ == old(self)@.promote(key@),
    {
        let old_freq: u64 = match self.frequency_count.get(key.as_str()) {
            Some(f) => *f,
            None => 0,
        };
        let new_freq: u64 = old_freq + 1;
        proof {
            // the key stands in the bucket of its access count
            let bucket = old(self)@.buckets[old_freq as nat];
            assert(bucket.contains(key@));
            assert(bucket == key_views(self.frequency_list@[old_freq]@));
        }
        self.frequency_count.insert(key.clone(), new_freq);
        let found = match self.frequency_list.get(&old_freq) {
            Some(keys) => position(keys, key),
            None => None,
        };
        if let Some(pos) = found {
            proof {
                // a bucket holds no key twice, so this is where the model finds it
                let bucket = old(self)@.buckets[old_freq as nat];
                assert(bucket[pos as int] == key@);
                assert(bucket.index_of(key@) == pos);
            }
            remove_from_bucket(&mut self.frequency_list, old_freq, pos);
        }
        append_to_bucket(&mut self.frequency_list, new_freq, key.clone());
        proof {
            old(self)@.lemma_promote_inv(key@);
            assert(self@.frequency =~= old(self)@.promote(key@).frequency);
        }
    }

    /// Looks `key` up. A hit counts as one more access of the key, which
    /// moves to the tail of the bucket for its new access count; a miss
    /// changes nothing. The access count of a live key must be below
    /// `u64::MAX`, so that one can be added to it.
    pub fn get(&mut self, key: &String) -> (result: Option<&i64>)
        requires
            old(self).wf(),
            old(self)@.contains(key@) ==> old(self)@.frequency[key@] < u64::MAX,
        ensures
            final(self).wf(),
            final(self)@ == old(self)@.get(key@),
            final(self)@.capacity == old(self)@.capacity,
            final(self)@.entries == old(self)@.entries,
            match result {
                Some(value) => old(self)@.lookup(key@) == Some(*value),
                None => old(self)@.lookup(key@) is None,
            },
    {
        if self.kvs.contains_key(key.as_str()) {
            self.update_frequency(key);
            self.kvs.get(key.as_str())
        } else {
            None
        }
    }

    /// Stores `value` under `key`. With capacity zero nothing is stored. Under
    /// a live key the value is replaced, and the key keeps its access count
    /// and its place in its bucket. A new key enters with access count one,
    /// after the victim has made room for it where the store is full.
    pub fn push(&mut self, key: String, value: i64)
        requires
            old(self).wf(),
        ensures
            final(self).wf(),
            final(self)@ == old(self)@.put(key@, value),
            final(self)@.capacity == old(self)@.capacity,
            final(self)@.len() <= final(self)@.capacity,
    {
        proof {
            old(self)@.lemma_put_inv(key@, value);
        }
        if self.capacity == 0 {
            return;
        }
        if self.kvs.contains_key(key.as_str()) {
            self.kvs.insert(key, value);
            return;
        }
        if self.kvs.len() as u64 == self.capacity {
            self.evict();
        }
        let ghost room = self@;
        self.kvs.insert(key.clone(), value);
        self.frequency_count.insert(key.clone(), 1);
        append_to_bucket(&mut self.frequency_list, 1, key);
        proof {
            assert(self@.frequency =~= room.insert_new(key@, value).frequency);
        }
    }

    /// Removes the victim, the oldest key of the bucket with the smallest
    /// access count, from all three tables. An empty store is left as it is.
    fn evict(&mut self)
        requires
            old(self).wf(),
        ensures
            final(self).wf(),
            final(self)@ == old(self)@.evict(),
    {
        let found = self.min_frequency();
        if let Some(min_freq) = found {
            proof {
                let before = old(self)@;
                before.lemma_min_frequency_unique(min_freq as nat);
                before.lemma_no_keys_no_buckets();
                before.lemma_evict_inv();
                assert(before.buckets[min_freq as nat] == key_views(
                    self.frequency_list@[min_freq]@,
                ));
            }
            if let Some(evict_key) = remove_from_bucket(&mut self.frequency_list, min_freq, 0) {
                self.kvs.remove(evict_key.as_str());
                self.frequency_count.remove(evict_key.as_str());
                proof {
                    assert(evict_key@ == old(self)@.victim());
                    assert(self@.frequency =~= old(self)@.evict().frequency);
                }
            }
        }
    }
}

} // verus!
