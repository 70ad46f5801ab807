//! Sharded map for in-memory cache workloads, with global length and byte
//! counters kept in step with the shards' counters.

use vstd::prelude::*;

use crate::shard::{Shard, Value};
use tokio_util::sync::CancellationToken;

verus! {

#[verifier::external_type_specification]
#[verifier::external_body]
pub struct ExCancellationToken(CancellationToken);

/// Asks `CancellationToken::is_cancelled` whether shutdown was requested.
/// Another task may cancel at any time, so nothing is stated of the answer.
#[verifier::external_body]
pub(crate) fn token_is_cancelled(token: &CancellationToken) -> bool {
    token.is_cancelled()
}

/// Number of shards in the map.
pub const NUM_OF_SHARDS: usize = 1024;

/// Mask that picks the shard of a key.
pub const SHARD_MASK: u64 = 1023;

/// How the map approximates recency.
#[derive(Debug, Clone, Copy, PartialEq, Eq, Structural)]
pub enum LRUMode {
    /// Every shard keeps a full LRU list.
    Listing,
    /// No list is kept; eviction samples entries.
    Sampling,
}

/// Sharded map with global counters (the cache's storage map).
pub struct ShardedMap<V: Value> {
    mode: LRUMode,
    shutdown_token: CancellationToken,
    len: i64,
    mem: i64,
    iter: u64,
    shards: Vec<Shard<V>>,
}

/// The shard a key belongs to.
pub open spec fn shard_index(key: u64) -> int {
    (key & 1023u64) as int
}

/// Two to the sixty-fourth: counters agree modulo this.
pub open spec fn counter_modulus() -> int {
    0x1_0000_0000_0000_0000int
}

/// The items of `m` whose keys fall in shard `n` or after.
pub open spec fn keys_from_shard<V>(m: vstd::map::Map<u64, V>, n: int) -> vstd::map::Map<u64, V> {
    m.restrict(Set::new(|k: u64| shard_index(k) >= n))
}

/// Sum of the length counters of the shards.
pub open spec fn sum_len<V: Value>(shards: Seq<Shard<V>>) -> int
    decreases shards.len(),
{
    if shards.len() == 0 {
        0
    } else {
        sum_len(shards.drop_last()) + shards.last().spec_len() as int
    }
}

/// Sum of the byte counters of the shards.
pub open spec fn sum_mem<V: Value>(shards: Seq<Shard<V>>) -> int
    decreases shards.len(),
{
    if shards.len() == 0 {
        0
    } else {
        sum_mem(shards.drop_last()) + shards.last().spec_mem() as int
    }
}

proof fn lemma_mask(key: u64)
    ensures
        (key & 1023u64) < 1024,
{
    assert((key & 1023u64) < 1024) by (bit_vector);
}

proof fn lemma_mask_all()
    ensures
        forall|key: u64| 0 <= #[trigger] shard_index(key) < NUM_OF_SHARDS,
{
    assert forall|key: u64| 0 <= #[trigger] shard_index(key) < NUM_OF_SHARDS by {
        lemma_mask(key);
    }
}

/// Replacing one shard changes the sums by the difference of its counters.
proof fn lemma_sum_update<V: Value>(shards: Seq<Shard<V>>, i: int, s: Shard<V>)
    requires
        0 <= i < shards.len(),
    ensures
        sum_len(shards.update(i, s)) == sum_len(shards) - shards[i].spec_len() + s.spec_len(),
        sum_mem(shards.update(i, s)) == sum_mem(shards) - shards[i].spec_mem() + s.spec_mem(),
    decreases shards.len(),
{
    let u = shards.update(i, s);
    if i == shards.len() - 1 {
        assert(u.drop_last() =~= shards.drop_last());
    } else {
        lemma_sum_update(shards.drop_last(), i, s);
        assert(u.drop_last() =~= shards.drop_last().update(i, s));
    }
}

/// Shards whose counters are all zero sum to zero.
proof fn lemma_sum_zero<V: Value>(shards: Seq<Shard<V>>)
    requires
        forall|i: int| 0 <= i < shards.len() ==> #[trigger] shards[i].spec_len() == 0
            && shards[i].spec_mem() == 0,
    ensures
        sum_len(shards) == 0,
        sum_mem(shards) == 0,
    decreases shards.len(),
{
    if shards.len() > 0 {
        assert(shards[shards.len() - 1].spec_len() == 0);
        lemma_sum_zero(shards.drop_last());
    }
}

/// A counter congruent to a sum stays congruent when the counter and one
/// summand move by the same amount modulo 2^64.
proof fn lemma_congruent_step(a: int, b: int, a2: int, b2: int, s: int, s2: int, delta: int)
    requires
        (a - b) % counter_modulus() == 0,
        (a2 - (a + delta)) % counter_modulus() == 0,
        (s2 - (s + delta)) % counter_modulus() == 0,
        b2 == b - s + s2,
    ensures
        (a2 - b2) % counter_modulus() == 0,
{
    let m = counter_modulus();
    assert((a2 - b2) % m == 0) by (nonlinear_arith)
        requires
            (a - b) % m == 0,
            (a2 - (a + delta)) % m == 0,
            (s2 - (s + delta)) % m == 0,
            b2 == b - s + s2,
            m == 0x1_0000_0000_0000_0000int,
    {
        let k1 = (a - b) / m;
        let k2 = (a2 - (a + delta)) / m;
        let k3 = (s2 - (s + delta)) / m;
        assert(a - b == k1 * m);
        assert(a2 - (a + delta) == k2 * m);
        assert(s2 - (s + delta) == k3 * m);
        assert(a2 - b2 == (k1 + k2 - k3) * m);
    }
}

/// An i64 counter congruent to zero modulo 2^64 is zero.
proof fn lemma_zero_counter(x: i64)
    requires
        (x - 0int) % counter_modulus() == 0,
    ensures
        x == 0,
{
}

/// An i64 wrapping add lands on the true sum modulo 2^64.
proof fn lemma_wrapping_add(a: i64, d: i64)
    ensures
        (a.wrapping_add(d) - (a + d)) % counter_modulus() == 0,
{
}

/// An i64 wrapping subtraction lands on the true difference modulo 2^64.
proof fn lemma_wrapping_sub(a: i64, d: i64)
    ensures
        (a.wrapping_sub(d) - (a - d)) % counter_modulus() == 0,
{
}

impl<V: Value> ShardedMap<V> {
    /// The items of the map, by key: each key lives in its shard.
    pub closed spec fn view(&self) -> vstd::map::Map<u64, V> {
        vstd::map::Map::new(
            |k: u64| self.shards@[shard_index(k)].view().contains_key(k),
            |k: u64| self.shards@[shard_index(k)].view()[k],
        )
    }

    /// The shards.
    pub closed spec fn spec_shards(&self) -> Seq<Shard<V>> {
        self.shards@
    }

    /// The length counter.
    pub closed spec fn spec_len(&self) -> i64 {
        self.len
    }

    /// The byte counter.
    pub closed spec fn spec_mem(&self) -> i64 {
        self.mem
    }

    /// The recency mode.
    pub closed spec fn spec_mode(&self) -> LRUMode {
        self.mode
    }

    /// The round-robin cursor.
    pub closed spec fn spec_iter(&self) -> u64 {
        self.iter
    }

    /// In every shard that tracks recency, the LRU order lists exactly the
    /// shard's keys.
    pub open spec fn lru_tracks_items(&self) -> bool {
        forall|i: int| 0 <= i < NUM_OF_SHARDS ==> (#[trigger] self.spec_shards()[i]).lru_tracks_items()
    }

    /// Every shard's length counter is its number of items.
    pub open spec fn counts_items(&self) -> bool {
        forall|i: int| 0 <= i < NUM_OF_SHARDS ==> (#[trigger] self.spec_shards()[i]).counts_items()
    }

    /// Every shard's byte counter is the total weight of its items (modulo
    /// 2^64).
    pub open spec fn counts_weight(&self) -> bool {
        forall|i: int| 0 <= i < NUM_OF_SHARDS ==> (#[trigger] self.spec_shards()[i]).counts_weight()
    }

    /// The map is well formed: it has its shards, each well formed, holding
    /// only its own keys, tracking recency as the mode says, and the global
    /// counters agree with the sums of the shard counters modulo 2^64.
    pub closed spec fn wf(&self) -> bool {
        &&& self.shards@.len() == NUM_OF_SHARDS
        &&& forall|i: int| 0 <= i < NUM_OF_SHARDS ==> (#[trigger] self.shards@[i]).wf()
        &&& forall|i: int, k: u64|
            0 <= i < NUM_OF_SHARDS && #[trigger] self.shards@[i].view().contains_key(k)
                ==> shard_index(k) == i
        &&& forall|i: int|
            0 <= i < NUM_OF_SHARDS ==> (#[trigger] self.shards@[i]).lru_enabled() == (self.mode
                == LRUMode::Listing)
        &&& (self.len - sum_len(self.shards@)) % counter_modulus() == 0
        &&& (self.mem - sum_mem(self.shards@)) % counter_modulus() == 0
    }

    /// The map's byte counter agrees with the sum of the shard counters
    /// modulo 2^64.
    pub proof fn lemma_mem_congruent(&self)
        requires
            self.wf(),
        ensures
            (self.spec_mem() - sum_mem(self.spec_shards())) % counter_modulus() == 0,
            self.spec_shards().len() == NUM_OF_SHARDS,
    {
    }

    /// The map's length counter agrees with the sum of the shard counters
    /// modulo 2^64.
    pub proof fn lemma_len_congruent(&self)
        requires
            self.wf(),
        ensures
            (self.spec_len() - sum_len(self.spec_shards())) % counter_modulus() == 0,
            self.spec_shards().len() == NUM_OF_SHARDS,
    {
    }

    /// Creates an empty map; listing mode keeps a full LRU list per shard.
    pub fn new(shutdown_token: CancellationToken, is_listing: bool) -> (m: Self)
        ensures
            m.wf(),
            m.view() == vstd::map::Map::<u64, V>::empty(),
            m.spec_len() == 0,
            m.spec_mem() == 0,
            m.spec_iter() == 0,
            m.lru_tracks_items(),
            m.counts_weight(),
            m.counts_items(),
            m.spec_mode() == (if is_listing {
                LRUMode::Listing
            } else {
                LRUMode::Sampling
            }),
    {
        let mut shards: Vec<Shard<V>> = Vec::with_capacity(NUM_OF_SHARDS);
        let mut id: usize = 0;
        while id < NUM_OF_SHARDS
            invariant
                id <= NUM_OF_SHARDS,
                shards@.len() == id,
                forall|i: int| 0 <= i < id ==> (#[trigger] shards@[i]).wf() && shards@[i].view()
                    == vstd::map::Map::<u64, V>::empty() && shards@[i].spec_len() == 0
                    && shards@[i].spec_mem() == 0 && !shards@[i].lru_enabled()
                    && !shards@[i].lru_started() && shards@[i].counts_weight()
                    && shards@[i].counts_items(),
            decreases NUM_OF_SHARDS - id,
        {
            shards.push(Shard::new(id as u64));
            id = id + 1;
        }
        let mode = if is_listing {
            LRUMode::Listing
        } else {
            LRUMode::Sampling
        };
        let mut map = ShardedMap { mode, shutdown_token, len: 0, mem: 0, iter: 0, shards };
        let mut i: usize = 0;
        while i < NUM_OF_SHARDS
            invariant
                i <= NUM_OF_SHARDS,
                map.shards@.len() == NUM_OF_SHARDS,
                map.mode == mode,
                map.len == 0,
                map.mem == 0,
                map.iter == 0,
                forall|j: int| 0 <= j < NUM_OF_SHARDS ==> (#[trigger] map.shards@[j]).wf()
                    && map.shards@[j].view() == vstd::map::Map::<u64, V>::empty()
                    && map.shards@[j].spec_len() == 0 && map.shards@[j].spec_mem() == 0
                    && map.shards@[j].counts_weight() && map.shards@[j].counts_items(),
                forall|j: int|
                    0 <= j < i ==> (#[trigger] map.shards@[j]).lru_enabled() == is_listing
                        && map.shards@[j].lru_tracks_items(),
                forall|j: int| i <= j < NUM_OF_SHARDS ==> !(#[trigger] map.shards@[j]).lru_enabled()
                    && !map.shards@[j].lru_started(),
            decreases NUM_OF_SHARDS - i,
        {
            if is_listing {
                map.shards[i].enable_lru();
            } else {
                map.shards[i].disable_lru();
            }
            i = i + 1;
        }
        proof {
            lemma_sum_zero(map.shards@);
            lemma_mask_all();
            assert forall|k: u64| !#[trigger] map.view().contains_key(k) by {
                assert(map.shards@[shard_index(k)].view() == vstd::map::Map::<u64, V>::empty());
            }
            assert(map.view() =~= vstd::map::Map::<u64, V>::empty());
        }
        map
    }

    /// The index of the shard of `key`.
    fn shard_idx(key: u64) -> (idx: usize)
        ensures
            idx == shard_index(key),
            idx < NUM_OF_SHARDS,
    {
        proof {
            lemma_mask(key);
        }
        (key & SHARD_MASK) as usize
    }

    /// Sets or replaces the item of `key`.
    pub fn set(&mut self, key: u64, value: V)
        requires
            old(self).wf(),
        ensures
            final(self).wf(),
            final(self).view() == old(self).view().insert(key, value),
            final(self).spec_len() == old(self).spec_len().wrapping_add(
                if old(self).view().contains_key(key) {
                    0i64
                } else {
                    1i64
                },
            ),
            final(self).spec_mode() == old(self).spec_mode(),
            final(self).spec_iter() == old(self).spec_iter(),
            old(self).lru_tracks_items() ==> final(self).lru_tracks_items(),
            final(self).spec_mem() == old(self).spec_mem().wrapping_add(
                if old(self).view().contains_key(key) {
                    value.spec_weight().wrapping_sub(old(self).view()[key].spec_weight())
                } else {
                    value.spec_weight()
                },
            ),
            old(self).counts_weight() ==> final(self).counts_weight(),
            old(self).counts_items() && old(self).spec_shards()[shard_index(key)].view().len() < i64::MAX
                ==> final(self).counts_items(),
    {
        let idx = Self::shard_idx(key);
        let ghost old_shards = self.shards@;
        proof {
            lemma_sum_update(old_shards, idx as int, old_shards[idx as int]);
            assert(old(self).view().contains_key(key) == old_shards[idx as int].view().contains_key(key));
            assert(old(self).view().contains_key(key) ==> old(self).view()[key] == old_shards[idx as int].view()[key]);
        }
        let (bytes_delta, len_delta) = self.shards[idx].set(key, value);
        if bytes_delta != 0 {
            self.mem = self.mem.wrapping_add(bytes_delta);
        }
        if len_delta != 0 {
            self.len = self.len.wrapping_add(len_delta);
        }
        proof {
            let new_shard = self.shards@[idx as int];
            lemma_sum_update(old_shards, idx as int, new_shard);
            assert(self.shards@ =~= old_shards.update(idx as int, new_shard));
            lemma_wrapping_add(old(self).len, len_delta);
            lemma_wrapping_add(old(self).mem, bytes_delta);
            lemma_wrapping_add(old_shards[idx as int].spec_len(), len_delta);
            lemma_wrapping_add(old_shards[idx as int].spec_mem(), bytes_delta);
            lemma_congruent_step(
                old(self).len as int,
                sum_len(old_shards),
                self.len as int,
                sum_len(self.shards@),
                old_shards[idx as int].spec_len() as int,
                new_shard.spec_len() as int,
                len_delta as int,
            );
            lemma_congruent_step(
                old(self).mem as int,
                sum_mem(old_shards),
                self.mem as int,
                sum_mem(self.shards@),
                old_shards[idx as int].spec_mem() as int,
                new_shard.spec_mem() as int,
                bytes_delta as int,
            );
            assert forall|i: int, k: u64|
                0 <= i < NUM_OF_SHARDS && #[trigger] self.shards@[i].view().contains_key(k)
                    implies shard_index(k) == i by {
                if i != idx {
                    assert(self.shards@[i] == old_shards[i]);
                } else if k != key {
                    assert(old_shards[i].view().contains_key(k));
                }
            }
            lemma_mask_all();
            assert forall|k: u64| #[trigger] self.view().contains_key(k) <==> old(self).view().insert(key, value).contains_key(k) by {
                if shard_index(k) != idx {
                    assert(self.shards@[shard_index(k)] == old_shards[shard_index(k)]);
                }
            }
            assert forall|k: u64| #[trigger] self.view().contains_key(k) implies self.view()[k] == old(self).view().insert(key, value)[k] by {
                if shard_index(k) != idx {
                    assert(self.shards@[shard_index(k)] == old_shards[shard_index(k)]);
                }
            }
            assert(old(self).lru_tracks_items() ==> old(self).spec_shards()[idx as int].lru_tracks_items());
            assert forall|i: int| 0 <= i < NUM_OF_SHARDS && old(self).lru_tracks_items() implies (#[trigger] self.spec_shards()[i]).lru_tracks_items() by {
                if i != idx {
                    assert(old(self).spec_shards()[i].lru_tracks_items());
                    assert(self.shards@[i] == old_shards[i]);
                }
            }
            assert(old(self).counts_weight() ==> old(self).spec_shards()[idx as int].counts_weight());
            assert forall|i: int| 0 <= i < NUM_OF_SHARDS && old(self).counts_weight() implies (#[trigger] self.spec_shards()[i]).counts_weight() by {
                if i != idx {
                    assert(old(self).spec_shards()[i].counts_weight());
                    assert(self.shards@[i] == old_shards[i]);
                }
            }
            assert(old(self).counts_items() ==> old(self).spec_shards()[idx as int].counts_items());
            assert forall|i: int| 0 <= i < NUM_OF_SHARDS && old(self).counts_items() && old(self).spec_shards()[shard_index(key)].view().len() < i64::MAX implies (#[trigger] self.spec_shards()[i]).counts_items() by {
                if i != idx {
                    assert(old(self).spec_shards()[i].counts_items());
                    assert(self.shards@[i] == old_shards[i]);
                }
            }
            assert(self.view() =~= old(self).view().insert(key, value));
        }
    }

    /// Returns a clone of the item of `key`.
    pub fn get(&self, key: u64) -> (r: Option<V>)
        requires
            self.wf(),
        ensures
            r is Some <==> self.view().contains_key(key),
            r matches Some(v) ==> cloned::<V>(self.view()[key], v),
    {
        let idx = Self::shard_idx(key);
        self.shards[idx].get(key)
    }

    /// Removes the item of `key`; returns the freed bytes and whether an
    /// item was removed.
    pub fn remove(&mut self, key: u64) -> (r: (i64, bool))
        requires
            old(self).wf(),
        ensures
            final(self).wf(),
            final(self).view() == old(self).view().remove(key),
            r.1 == old(self).view().contains_key(key),
            !r.1 ==> r.0 == 0,
            final(self).spec_len() == (if r.1 {
                old(self).spec_len().wrapping_sub(1)
            } else {
                old(self).spec_len()
            }),
            final(self).spec_mem() == (if r.1 {
                old(self).spec_mem().wrapping_sub(r.0)
            } else {
                old(self).spec_mem()
            }),
            final(self).spec_mode() == old(self).spec_mode(),
            final(self).spec_iter() == old(self).spec_iter(),
            old(self).lru_tracks_items() ==> final(self).lru_tracks_items(),
            r.1 ==> r.0 == old(self).view()[key].spec_weight(),
            old(self).counts_weight() ==> final(self).counts_weight(),
            old(self).counts_items() ==> final(self).counts_items(),
    {
        let idx = Self::shard_idx(key);
        let ghost old_shards = self.shards@;
        proof {
            assert(old(self).view().contains_key(key) ==> old(self).view()[key] == old_shards[idx as int].view()[key]);
        }
        let (freed_bytes, hit) = self.shards[idx].remove(key);
        if hit {
            self.len = self.len.wrapping_sub(1);
            self.mem = self.mem.wrapping_sub(freed_bytes);
        }
        proof {
            let new_shard = self.shards@[idx as int];
            lemma_sum_update(old_shards, idx as int, new_shard);
            assert(self.shards@ =~= old_shards.update(idx as int, new_shard));
            lemma_wrapping_sub(old(self).len, 1);
            lemma_wrapping_sub(old(self).mem, freed_bytes);
            lemma_wrapping_sub(old_shards[idx as int].spec_len(), 1);
            lemma_wrapping_sub(old_shards[idx as int].spec_mem(), freed_bytes);
            let dl: int = if hit { -1 } else { 0 };
            let dm: int = if hit { -(freed_bytes as int) } else { 0 };
            lemma_congruent_step(
                old(self).len as int,
                sum_len(old_shards),
                self.len as int,
                sum_len(self.shards@),
                old_shards[idx as int].spec_len() as int,
                new_shard.spec_len() as int,
                dl,
            );
            lemma_congruent_step(
                old(self).mem as int,
                sum_mem(old_shards),
                self.mem as int,
                sum_mem(self.shards@),
                old_shards[idx as int].spec_mem() as int,
                new_shard.spec_mem() as int,
                dm,
            );
            assert forall|i: int, k: u64|
                0 <= i < NUM_OF_SHARDS && #[trigger] self.shards@[i].view().contains_key(k)
                    implies shard_index(k) == i by {
                if i != idx {
                    assert(self.shards@[i] == old_shards[i]);
                } else {
                    assert(old_shards[i].view().contains_key(k));
                }
            }
            lemma_mask_all();
            assert forall|k: u64| #[trigger] self.view().contains_key(k) <==> old(self).view().remove(key).contains_key(k) by {
                if shard_index(k) != idx {
                    assert(self.shards@[shard_index(k)] == old_shards[shard_index(k)]);
                }
            }
            assert forall|k: u64| #[trigger] self.view().contains_key(k) implies self.view()[k] == old(self).view().remove(key)[k] by {
                if shard_index(k) != idx {
                    assert(self.shards@[shard_index(k)] == old_shards[shard_index(k)]);
                }
            }
            assert(old(self).lru_tracks_items() ==> old(self).spec_shards()[idx as int].lru_tracks_items());
            assert forall|i: int| 0 <= i < NUM_OF_SHARDS && old(self).lru_tracks_items() implies (#[trigger] self.spec_shards()[i]).lru_tracks_items() by {
                if i != idx {
                    assert(old(self).spec_shards()[i].lru_tracks_items());
                    assert(self.shards@[i] == old_shards[i]);
                }
            }
            assert(old(self).counts_weight() ==> old(self).spec_shards()[idx as int].counts_weight());
            assert forall|i: int| 0 <= i < NUM_OF_SHARDS && old(self).counts_weight() implies (#[trigger] self.spec_shards()[i]).counts_weight() by {
                if i != idx {
                    assert(old(self).spec_shards()[i].counts_weight());
                    assert(self.shards@[i] == old_shards[i]);
                }
            }
            assert(old(self).counts_items() ==> old(self).spec_shards()[idx as int].counts_items());
            assert forall|i: int| 0 <= i < NUM_OF_SHARDS && old(self).counts_items() implies (#[trigger] self.spec_shards()[i]).counts_items() by {
                if i != idx {
                    assert(old(self).spec_shards()[i].counts_items());
                    assert(self.shards@[i] == old_shards[i]);
                }
            }
            assert(self.view() =~= old(self).view().remove(key));
        }
        (freed_bytes, hit)
    }

    /// Clears the shards one after the other, stopping early once shutdown
    /// is requested; the shards before the stopping point are emptied.
    pub fn clear(&mut self)
        requires
            old(self).wf(),
        ensures
            final(self).wf(),
            exists|n: int|
                0 <= n <= NUM_OF_SHARDS && final(self).view() == #[trigger] keys_from_shard(
                    old(self).view(),
                    n,
                ) && (n == NUM_OF_SHARDS ==> final(self).spec_len() == 0 && final(self).spec_mem()
                    == 0),
            final(self).spec_mode() == old(self).spec_mode(),
            final(self).spec_iter() == old(self).spec_iter(),
            old(self).lru_tracks_items() ==> final(self).lru_tracks_items(),
            old(self).counts_weight() ==> final(self).counts_weight(),
            old(self).counts_items() ==> final(self).counts_items(),
    {
        let ghost old_shards = self.shards@;
        let mut i: usize = 0;
        while i < NUM_OF_SHARDS
            invariant_except_break
                i <= NUM_OF_SHARDS,
                self.wf(),
                self.mode == old(self).mode,
                self.iter == old(self).iter,
                forall|j: int| 0 <= j < i ==> (#[trigger] self.shards@[j]).view()
                    == vstd::map::Map::<u64, V>::empty() && self.shards@[j].spec_len() == 0
                    && self.shards@[j].spec_mem() == 0 && self.shards@[j].lru_tracks_items()
                    && self.shards@[j].counts_weight() && self.shards@[j].counts_items(),
                forall|j: int| i <= j < NUM_OF_SHARDS ==> #[trigger] self.shards@[j] == old_shards[j],
            ensures
                i <= NUM_OF_SHARDS,
                self.wf(),
                self.mode == old(self).mode,
                self.iter == old(self).iter,
                forall|j: int| 0 <= j < i ==> (#[trigger] self.shards@[j]).view()
                    == vstd::map::Map::<u64, V>::empty() && self.shards@[j].spec_len() == 0
                    && self.shards@[j].spec_mem() == 0 && self.shards@[j].lru_tracks_items()
                    && self.shards@[j].counts_weight() && self.shards@[j].counts_items(),
                forall|j: int| i <= j < NUM_OF_SHARDS ==> #[trigger] self.shards@[j] == old_shards[j],
            decreases NUM_OF_SHARDS - i,
        {
            if token_is_cancelled(&self.shutdown_token) {
                break;
            }
            let ghost before = self.shards@;
            let ghost pre_len = self.len;
            let ghost pre_mem = self.mem;
            let (freed_bytes, items) = self.shards[i].clear();
            if freed_bytes != 0 {
                self.mem = self.mem.wrapping_sub(freed_bytes);
            }
            if items != 0 {
                self.len = self.len.wrapping_sub(items);
            }
            proof {
                let new_shard = self.shards@[i as int];
                lemma_sum_update(before, i as int, new_shard);
                assert(self.shards@ =~= before.update(i as int, new_shard));
                lemma_wrapping_sub(pre_len, items);
                lemma_wrapping_sub(pre_mem, freed_bytes);
                lemma_congruent_step(
                    pre_len as int,
                    sum_len(before),
                    self.len as int,
                    sum_len(self.shards@),
                    before[i as int].spec_len() as int,
                    0,
                    -(items as int),
                );
                lemma_congruent_step(
                    pre_mem as int,
                    sum_mem(before),
                    self.mem as int,
                    sum_mem(self.shards@),
                    before[i as int].spec_mem() as int,
                    0,
                    -(freed_bytes as int),
                );
                assert forall|j: int, k: u64|
                    0 <= j < NUM_OF_SHARDS && #[trigger] self.shards@[j].view().contains_key(k)
                        implies shard_index(k) == j by {
                    if j != i {
                        assert(self.shards@[j] == before[j]);
                    }
                }
            }
            i = i + 1;
        }
        proof {
            lemma_mask_all();
            let n = i as int;
            let restricted = keys_from_shard(old(self).view(), n);
            assert forall|k: u64| #[trigger] self.view().contains_key(k) <==> restricted.contains_key(k) by {
                if shard_index(k) >= n {
                    assert(self.shards@[shard_index(k)] == old_shards[shard_index(k)]);
                }
            }
            assert forall|k: u64| #[trigger] self.view().contains_key(k) implies self.view()[k] == restricted[k] by {
                assert(self.shards@[shard_index(k)] == old_shards[shard_index(k)]);
            }
            assert(self.view() =~= restricted);
            assert forall|j: int| 0 <= j < NUM_OF_SHARDS && old(self).lru_tracks_items() implies (#[trigger] self.spec_shards()[j]).lru_tracks_items() by {
                if j >= n {
                    assert(old(self).spec_shards()[j].lru_tracks_items());
                    assert(self.shards@[j] == old_shards[j]);
                }
            }
            assert forall|j: int| 0 <= j < NUM_OF_SHARDS && old(self).counts_weight() implies (#[trigger] self.spec_shards()[j]).counts_weight() by {
                if j >= n {
                    assert(old(self).spec_shards()[j].counts_weight());
                    assert(self.shards@[j] == old_shards[j]);
                }
            }
            assert forall|j: int| 0 <= j < NUM_OF_SHARDS && old(self).counts_items() implies (#[trigger] self.spec_shards()[j]).counts_items() by {
                if j >= n {
                    assert(old(self).spec_shards()[j].counts_items());
                    assert(self.shards@[j] == old_shards[j]);
                }
            }
            if n == NUM_OF_SHARDS {
                lemma_sum_zero(self.shards@);
                lemma_zero_counter(self.len);
                lemma_zero_counter(self.mem);
            }
        }
    }

    /// The shard of `key`.
    pub fn shard(&self, key: u64) -> (r: &Shard<V>)
        requires
            self.wf(),
        ensures
            *r == self.spec_shards()[shard_index(key)],
    {
        let idx = Self::shard_idx(key);
        &self.shards[idx]
    }

    /// The shard at position `idx`.
    pub fn shard_by_index(&self, idx: usize) -> (r: &Shard<V>)
        requires
            self.wf(),
            idx < NUM_OF_SHARDS,
        ensures
            *r == self.spec_shards()[idx as int],
    {
        &self.shards[idx]
    }

    /// The next shard in round-robin order; the cursor advances (wrapping).
    pub fn next_shard(&mut self) -> (r: &Shard<V>)
        requires
            old(self).wf(),
        ensures
            final(self).wf(),
            final(self).spec_iter() == old(self).spec_iter().wrapping_add(1),
            *r == old(self).spec_shards()[(old(self).spec_iter() & 1023u64) as int],
            final(self).view() == old(self).view(),
            final(self).spec_shards() == old(self).spec_shards(),
            final(self).spec_len() == old(self).spec_len(),
            final(self).spec_mem() == old(self).spec_mem(),
            final(self).spec_mode() == old(self).spec_mode(),
    {
        let idx = self.iter & SHARD_MASK;
        self.iter = self.iter.wrapping_add(1);
        proof {
            lemma_mask(old(self).iter);
        }
        &self.shards[idx as usize]
    }

    /// The length counter.
    pub fn len(&self) -> (r: i64)
        ensures
            r == self.spec_len(),
    {
        self.len
    }

    /// Whether the length counter is zero.
    pub fn is_empty(&self) -> (r: bool)
        ensures
            r == (self.spec_len() == 0),
    {
        self.len == 0
    }

    /// The byte counter (logical weight of the items).
    pub fn mem(&self) -> (r: i64)
        ensures
            r == self.spec_mem(),
    {
        self.mem
    }

    /// Whether the map keeps full LRU lists.
    pub fn is_listing(&self) -> (r: bool)
        ensures
            r == (self.spec_mode() == LRUMode::Listing),
    {
        match self.mode {
            LRUMode::Listing => true,
            LRUMode::Sampling => false,
        }
    }

    /// Adds `delta` to the byte counter of the map and of the shard of
    /// `key` (wrapping).
    pub fn add_mem(&mut self, key: u64, delta: i64)
        requires
            old(self).wf(),
        ensures
            final(self).wf(),
            final(self).spec_mem() == old(self).spec_mem().wrapping_add(delta),
            final(self).spec_shards()[shard_index(key)].spec_mem() == old(self).spec_shards()[shard_index(key)].spec_mem().wrapping_add(delta),
            final(self).view() == old(self).view(),
            final(self).spec_len() == old(self).spec_len(),
            final(self).spec_mode() == old(self).spec_mode(),
            final(self).spec_iter() == old(self).spec_iter(),
            old(self).lru_tracks_items() ==> final(self).lru_tracks_items(),
            old(self).counts_items() ==> final(self).counts_items(),
    {
        let idx = Self::shard_idx(key);
        let ghost old_shards = self.shards@;
        self.mem = self.mem.wrapping_add(delta);
        self.shards[idx].add_mem(delta);
        proof {
            let new_shard = self.shards@[idx as int];
            lemma_sum_update(old_shards, idx as int, new_shard);
            assert(self.shards@ =~= old_shards.update(idx as int, new_shard));
            lemma_wrapping_add(old(self).mem, delta);
            lemma_wrapping_add(old_shards[idx as int].spec_mem(), delta);
            lemma_congruent_step(
                old(self).mem as int,
                sum_mem(old_shards),
                self.mem as int,
                sum_mem(self.shards@),
                old_shards[idx as int].spec_mem() as int,
                new_shard.spec_mem() as int,
                delta as int,
            );
            assert forall|i: int, k: u64|
                0 <= i < NUM_OF_SHARDS && #[trigger] self.shards@[i].view().contains_key(k)
                    implies shard_index(k) == i by {
                if i != idx {
                    assert(self.shards@[i] == old_shards[i]);
                }
            }
            lemma_mask_all();
            assert forall|k: u64| #[trigger] self.view().contains_key(k) <==> old(self).view().contains_key(k) by {
                if shard_index(k) != idx {
                    assert(self.shards@[shard_index(k)] == old_shards[shard_index(k)]);
                }
            }
            assert forall|k: u64| #[trigger] self.view().contains_key(k) implies self.view()[k] == old(self).view()[k] by {
                if shard_index(k) != idx {
                    assert(self.shards@[shard_index(k)] == old_shards[shard_index(k)]);
                }
            }
            assert(self.view() =~= old(self).view());
            assert(old(self).lru_tracks_items() ==> old(self).spec_shards()[idx as int].lru_tracks_items());
            assert forall|i: int| 0 <= i < NUM_OF_SHARDS && old(self).lru_tracks_items() implies (#[trigger] self.spec_shards()[i]).lru_tracks_items() by {
                if i != idx {
                    assert(old(self).spec_shards()[i].lru_tracks_items());
                    assert(self.shards@[i] == old_shards[i]);
                }
            }
            assert(old(self).counts_items() ==> old(self).spec_shards()[idx as int].counts_items());
            assert forall|i: int| 0 <= i < NUM_OF_SHARDS && old(self).counts_items() implies (#[trigger] self.spec_shards()[i]).counts_items() by {
                if i != idx {
                    assert(old(self).spec_shards()[i].counts_items());
                    assert(self.shards@[i] == old_shards[i]);
                }
            }
        }
    }

    /// Marks `key` as most recently used in its shard when the map is in
    /// listing mode.
    pub fn touch(&mut self, key: u64)
        requires
            old(self).wf(),
        ensures
            final(self).wf(),
            final(self).view() == old(self).view(),
            final(self).spec_len() == old(self).spec_len(),
            final(self).spec_mem() == old(self).spec_mem(),
            final(self).spec_mode() == old(self).spec_mode(),
            final(self).spec_iter() == old(self).spec_iter(),
            old(self).spec_mode() == LRUMode::Listing ==> final(self).spec_shards()[shard_index(key)].lru_order() == seq![key] + old(self).spec_shards()[shard_index(key)].lru_order().remove_value(key),
            forall|i: int| 0 <= i < NUM_OF_SHARDS && i != shard_index(key) ==> #[trigger] final(self).spec_shards()[i] == old(self).spec_shards()[i],
            old(self).spec_mode() == LRUMode::Sampling ==> final(self).spec_shards() == old(self).spec_shards(),
            old(self).lru_tracks_items() && old(self).view().contains_key(key)
                ==> final(self).lru_tracks_items(),
            old(self).counts_weight() ==> final(self).counts_weight(),
            old(self).counts_items() ==> final(self).counts_items(),
    {
        match self.mode {
            LRUMode::Listing => {
                let idx = Self::shard_idx(key);
                let ghost old_shards = self.shards@;
                self.shards[idx].touch_lru(key);
                proof {
                    let new_shard = self.shards@[idx as int];
                    lemma_sum_update(old_shards, idx as int, new_shard);
                    assert(self.shards@ =~= old_shards.update(idx as int, new_shard));
                    assert forall|i: int, k: u64|
                        0 <= i < NUM_OF_SHARDS && #[trigger] self.shards@[i].view().contains_key(k)
                            implies shard_index(k) == i by {
                        if i != idx {
                            assert(self.shards@[i] == old_shards[i]);
                        }
                    }
                    lemma_mask_all();
                    assert forall|k: u64| #[trigger] self.view().contains_key(k) <==> old(self).view().contains_key(k) by {
                        if shard_index(k) != idx {
                            assert(self.shards@[shard_index(k)] == old_shards[shard_index(k)]);
                        }
                    }
                    assert forall|k: u64| #[trigger] self.view().contains_key(k) implies self.view()[k] == old(self).view()[k] by {
                        if shard_index(k) != idx {
                            assert(self.shards@[shard_index(k)] == old_shards[shard_index(k)]);
                        }
                    }
                    assert(self.view() =~= old(self).view());
                    assert(old(self).view().contains_key(key) ==> old_shards[idx as int].view().contains_key(key));
                    assert(old(self).lru_tracks_items() ==> old(self).spec_shards()[idx as int].lru_tracks_items());
                    assert forall|i: int| 0 <= i < NUM_OF_SHARDS && old(self).lru_tracks_items() && old(self).view().contains_key(key) implies (#[trigger] self.spec_shards()[i]).lru_tracks_items() by {
                        if i != idx {
                            assert(old(self).spec_shards()[i].lru_tracks_items());
                            assert(self.shards@[i] == old_shards[i]);
                        }
                    }
                    assert forall|i: int| 0 <= i < NUM_OF_SHARDS && old(self).counts_weight() implies (#[trigger] self.spec_shards()[i]).counts_weight() by {
                        assert(old(self).spec_shards()[i].counts_weight());
                        if i != idx {
                            assert(self.shards@[i] == old_shards[i]);
                        }
                    }
                    assert forall|i: int| 0 <= i < NUM_OF_SHARDS && old(self).counts_items() implies (#[trigger] self.spec_shards()[i]).counts_items() by {
                        assert(old(self).spec_shards()[i].counts_items());
                        if i != idx {
                            assert(self.shards@[i] == old_shards[i]);
                        }
                    }
                }
            },
            LRUMode::Sampling => {},
        }
    }
}

} // verus!
