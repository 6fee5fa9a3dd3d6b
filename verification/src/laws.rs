//! What holds of the store across calls, proved on its model.

use vstd::prelude::*;
use crate::model::{Key, LfuState};

verus! {

/// One call on a store.
pub enum Call {
    /// A lookup of `key`.
    Get { key: Key },
    /// Storing `value` under `key`.
    Put { key: Key, value: i64 },
}

impl LfuState {
    /// The state after one call.
    pub open spec fn step(self, call: Call) -> LfuState {
        match call {
            Call::Get { key } => self.get(key),
            Call::Put { key, value } => self.put(key, value),
        }
    }

    /// The state after a sequence of calls, made in order.
    pub open spec fn run(self, calls: Seq<Call>) -> LfuState
        decreases calls.len(),
    {
        if calls.len() == 0 {
            self
        } else {
            self.run(calls.drop_last()).step(calls.last())
        }
    }

    /// The state after `n` lookups of `key` in a row.
    pub open spec fn hits(self, key: Key, n: nat) -> LfuState
        decreases n,
    {
        if n == 0 {
            self
        } else {
            self.hits(key, (n - 1) as nat).get(key)
        }
    }
}

/// Whatever calls are made on a consistent store, in whatever order, it stays
/// consistent, keeps its capacity, and never holds more keys than its
/// capacity.
pub proof fn lemma_run_within_capacity(state: LfuState, calls: Seq<Call>)
    requires
        state.inv(),
    ensures
        state.run(calls).inv(),
        state.run(calls).capacity == state.capacity,
        state.run(calls).len() <= state.capacity,
    decreases calls.len(),
{
    if calls.len() > 0 {
        lemma_run_within_capacity(state, calls.drop_last());
        let before = state.run(calls.drop_last());
        match calls.last() {
            Call::Get { key } => before.lemma_get_inv(key),
            Call::Put { key, value } => before.lemma_put_inv(key, value),
        }
    }
}

/// A store that starts empty never holds more keys than its capacity,
/// whatever calls are made on it.
pub proof fn lemma_capacity_bound(capacity: nat, calls: Seq<Call>)
    ensures
        LfuState::empty(capacity).run(calls).inv(),
        LfuState::empty(capacity).run(calls).len() <= capacity,
{
    LfuState::lemma_empty_inv(capacity);
    lemma_run_within_capacity(LfuState::empty(capacity), calls);
}

/// With capacity zero, storing a value changes nothing, and a lookup of the
/// same key right after it finds nothing.
pub proof fn lemma_zero_capacity_put_is_noop(state: LfuState, key: Key, value: i64)
    requires
        state.inv(),
        state.capacity == 0,
    ensures
        state.put(key, value) == state,
        state.put(key, value).lookup(key) is None,
        state.len() == 0,
{
}

/// With capacity zero, a store that starts empty holds nothing after any
/// sequence of calls.
pub proof fn lemma_zero_capacity_stays_empty(calls: Seq<Call>, key: Key)
    ensures
        LfuState::empty(0).run(calls).len() == 0,
        LfuState::empty(0).run(calls).lookup(key) is None,
{
    lemma_capacity_bound(0, calls);
}

/// With room for at least one key, a lookup right after storing a value
/// under the same key yields that value.
pub proof fn lemma_put_then_get(state: LfuState, key: Key, value: i64)
    requires
        state.capacity > 0,
    ensures
        state.put(key, value).lookup(key) == Some(value),
{
}

/// Storing a value under a live key replaces the value and leaves every
/// access count and every bucket as it was.
pub proof fn lemma_put_on_live_key(state: LfuState, key: Key, value: i64)
    requires
        state.inv(),
        state.contains(key),
    ensures
        state.put(key, value).entries == state.entries.insert(key, value),
        state.put(key, value).frequency == state.frequency,
        state.put(key, value).buckets == state.buckets,
        state.put(key, value).len() == state.len(),
{
}

/// Storing, looking up, storing again under the same key and looking up
/// again: the second value is found, and the access count is what the two
/// lookups alone made it, two more than after the first store.
pub proof fn lemma_overwrite_preserves_frequency(state: LfuState, key: Key, v1: i64, v2: i64)
    requires
        state.inv(),
        state.capacity > 0,
    ensures
        ({
            let stored = state.put(key, v1);
            let hit = stored.get(key);
            let overwritten = hit.put(key, v2);
            let hit_again = overwritten.get(key);
            &&& hit.frequency[key] == stored.frequency[key] + 1
            &&& overwritten.frequency == hit.frequency
            &&& overwritten.buckets == hit.buckets
            &&& overwritten.lookup(key) == Some(v2)
            &&& hit_again.lookup(key) == Some(v2)
            &&& hit_again.frequency[key] == stored.frequency[key] + 2
        }),
{
    let stored = state.put(key, v1);
    state.lemma_put_inv(key, v1);
    lemma_put_then_get(state, key, v1);
    stored.lemma_promote_inv(key);
    let hit = stored.get(key);
    lemma_put_on_live_key(hit, key, v2);
    let overwritten = hit.put(key, v2);
    hit.lemma_put_inv(key, v2);
    overwritten.lemma_promote_inv(key);
}

/// Lookups of one key in a row all yield the same value. Each hit adds
/// exactly one to the key's access count; misses leave the state as it is.
pub proof fn lemma_repeated_hits(state: LfuState, key: Key, n: nat)
    requires
        state.inv(),
    ensures
        state.hits(key, n).inv(),
        state.hits(key, n).lookup(key) == state.lookup(key),
        state.hits(key, n).entries == state.entries,
        state.contains(key) ==> state.hits(key, n).frequency[key] == state.frequency[key] + n,
        !state.contains(key) ==> state.hits(key, n) == state,
    decreases n,
{
    if n > 0 {
        lemma_repeated_hits(state, key, (n - 1) as nat);
        if state.contains(key) {
            state.hits(key, (n - 1) as nat).lemma_promote_inv(key);
        }
    }
}

/// A new key that finds the store full takes the place of the victim: the
/// victim leaves, the new key enters with access count one, and every other
/// key keeps its value and its access count.
pub proof fn lemma_put_on_full_store(state: LfuState, key: Key, value: i64)
    requires
        state.inv(),
        state.capacity > 0,
        !state.contains(key),
        state.len() == state.capacity,
    ensures
        state.contains(state.victim()),
        forall|k: Key| state.contains(k) ==> state.frequency[state.victim()] <= state.frequency[k],
        state.put(key, value).entries == state.entries.remove(state.victim()).insert(key, value),
        state.put(key, value).frequency == state.frequency.remove(state.victim()).insert(key, 1),
        state.put(key, value).len() == state.len(),
{
    state.lemma_victim_least_frequent();
    state.lemma_evict_inv();
    state.lemma_no_keys_no_buckets();
    state.evict().lemma_insert_new_inv(key, value);
}

/// Ties are broken by age: every live key whose access count equals the
/// victim's stands in the victim's bucket, and none of them stands before
/// the victim there.
pub proof fn lemma_victim_is_oldest(state: LfuState, key: Key)
    requires
        state.inv(),
        state.contains(key),
        state.frequency[key] == state.frequency[state.victim()],
    ensures
        state.buckets[state.min_frequency()].contains(key),
        state.buckets[state.min_frequency()].index_of(state.victim()) == 0,
        state.buckets[state.min_frequency()].index_of(state.victim())
            <= state.buckets[state.min_frequency()].index_of(key),
{
    state.lemma_victim_least_frequent();
}

} // verus!
