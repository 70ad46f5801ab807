//! One segment of the sharded map: the items of the keys that fall into it,
//! an optional LRU order over them, and byte and length counters.
//!
//! Exclusive access is the caller's business (the map is locked around a
//! shard); every mutating operation therefore takes `&mut self`.

use std::collections::HashMap;
use vstd::prelude::*;

use crate::lru::LRUList;
use vstd::std_specs::iter::IteratorSpec;

verus! {

broadcast use vstd::std_specs::hash::group_hash_axioms;

/// What the shard needs from the items it stores.
pub trait Value: Clone {
    /// The hash key of the item.
    fn key(&self) -> u64;

    /// The weight of the item in bytes, as the specification sees it.
    spec fn spec_weight(&self) -> i64;

    /// The weight of the item in bytes.
    fn weight(&self) -> (r: i64)
        ensures
            r == self.spec_weight(),
    ;

    /// Clears the item's refresh-queued mark.
    fn clear_refresh_queued(&self);

    /// When the item was last touched, in unix nanoseconds.
    fn touched_at(&self) -> i64;

    /// When the item was last refreshed, in unix nanoseconds.
    fn fresh_at(&self) -> i64;
}

/// Two to the sixty-fourth: byte counters agree with weights modulo this.
pub open spec fn weight_modulus() -> int {
    0x1_0000_0000_0000_0000int
}

/// The total weight of the items of a map (each key counted once).
pub open spec fn weight_total<V: Value>(m: Map<u64, V>) -> int
    decreases m.dom().len(),
{
    if m.dom().finite() && m.dom().len() > 0 {
        let k = m.dom().choose();
        proof {
            assert(m.dom().contains(k));
            assert(m.remove(k).dom() =~= m.dom().remove(k));
        }
        m[k].spec_weight() as int + weight_total(m.remove(k))
    } else {
        0
    }
}

/// Taking any one item out of a finite map takes its weight off the total.
pub proof fn lemma_weight_total_remove<V: Value>(m: Map<u64, V>, k: u64)
    requires
        m.dom().finite(),
        m.dom().contains(k),
    ensures
        weight_total(m) == m[k].spec_weight() as int + weight_total(m.remove(k)),
    decreases m.dom().len(),
{
    assert(m.remove(k).dom() =~= m.dom().remove(k));
    let c = m.dom().choose();
    if c != k {
        let mc = m.remove(c);
        let mk = m.remove(k);
        assert(mc.dom() =~= m.dom().remove(c));
        assert(mk.dom() =~= m.dom().remove(k));
        lemma_weight_total_remove(mc, k);
        lemma_weight_total_remove(mk, c);
        assert(mc.remove(k) =~= mk.remove(c));
        assert(mc[k] == m[k]);
        assert(mk[c] == m[c]);
    }
}

/// The empty map weighs nothing.
pub proof fn lemma_weight_total_empty<V: Value>(m: Map<u64, V>)
    requires
        m.dom().len() == 0,
        m.dom().finite(),
    ensures
        weight_total(m) == 0,
{
}

/// Setting the item of a key replaces its weight in the total (or adds it
/// where the key was absent).
pub proof fn lemma_weight_total_insert<V: Value>(m: Map<u64, V>, k: u64, v: V)
    requires
        m.dom().finite(),
    ensures
        weight_total(m.insert(k, v)) == weight_total(m) + v.spec_weight() - (if m.dom().contains(k) {
            m[k].spec_weight() as int
        } else {
            0int
        }),
{
    let m2 = m.insert(k, v);
    assert(m2.dom().finite());
    lemma_weight_total_remove(m2, k);
    if m.dom().contains(k) {
        lemma_weight_total_remove(m, k);
        assert(m2.remove(k) =~= m.remove(k));
    } else {
        assert(m2.remove(k) =~= m);
    }
}

/// A counter congruent to a total stays congruent when both move by the
/// same amount, the counter modulo 2^64.
proof fn lemma_counter_shift(a: int, b: int, a2: int, d: int)
    requires
        (a - b) % weight_modulus() == 0,
        (a2 - (a + d)) % weight_modulus() == 0,
    ensures
        (a2 - (b + d)) % weight_modulus() == 0,
{
    let m = weight_modulus();
    assert((a2 - (b + d)) % m == 0) by (nonlinear_arith)
        requires
            (a - b) % m == 0,
            (a2 - (a + d)) % m == 0,
            m == 0x1_0000_0000_0000_0000int,
    {
        let k1 = (a - b) / m;
        let k2 = (a2 - (a + d)) / m;
        assert(a - b == k1 * m);
        assert(a2 - (a + d) == k2 * m);
        assert(a2 - (b + d) == (k1 + k2) * m);
    }
}

/// Without duplicates, dropping a value from a sequence drops it from the
/// set of its elements.
proof fn lemma_remove_value_set(s: Seq<u64>, k: u64)
    requires
        s.no_duplicates(),
    ensures
        s.remove_value(k).to_set() == s.to_set().remove(k),
{
    s.index_of_first_ensures(k);
    match s.index_of_first(k) {
        Some(i) => {
            let t = s.remove(i);
            assert(t == s.subrange(0, i) + s.subrange(i + 1, s.len() as int));
            assert forall|x: u64| #[trigger] t.contains(x) <==> (s.contains(x) && x != k) by {
                if t.contains(x) {
                    let p = choose|p: int| 0 <= p < t.len() && t[p] == x;
                    if p < i {
                        assert(s[p] == x);
                    } else {
                        assert(s[p + 1] == x);
                    }
                }
                if s.contains(x) && x != k {
                    let p = choose|p: int| 0 <= p < s.len() && s[p] == x;
                    if p < i {
                        assert(t[p] == x);
                    } else {
                        assert(p != i);
                        assert(t[p - 1] == x);
                    }
                }
            }
            assert(t.to_set() =~= s.to_set().remove(k));
        },
        None => {
            assert(s.to_set() =~= s.to_set().remove(k));
        },
    }
}

/// Without duplicates, putting a value in front of the rest of a sequence
/// adds it to the set of its elements.
proof fn lemma_move_to_front_set(s: Seq<u64>, k: u64)
    requires
        s.no_duplicates(),
    ensures
        (seq![k] + s.remove_value(k)).to_set() == s.to_set().insert(k),
{
    lemma_remove_value_set(s, k);
    let r = s.remove_value(k);
    let t = seq![k] + r;
    assert forall|x: u64| #[trigger] t.contains(x) <==> (x == k || r.contains(x)) by {
        if t.contains(x) {
            let p = choose|p: int| 0 <= p < t.len() && t[p] == x;
            if p > 0 {
                assert(r[p - 1] == x);
            }
        }
        if x == k {
            assert(t[0] == x);
        } else if r.contains(x) {
            let p = choose|p: int| 0 <= p < r.len() && r[p] == x;
            assert(t[p + 1] == x);
        }
    }
    assert forall|x: u64| t.to_set().contains(x) <==> #[trigger] s.to_set().insert(k).contains(x) by {
        assert(r.to_set().contains(x) == r.contains(x));
        assert(s.to_set().remove(k).contains(x) == (s.contains(x) && x != k));
    }
    assert(t.to_set() =~= s.to_set().insert(k));
}

/// Without duplicates, dropping the last element drops it from the set of
/// elements.
proof fn lemma_drop_last_set(s: Seq<u64>)
    requires
        s.no_duplicates(),
        s.len() > 0,
    ensures
        s.drop_last().to_set() == s.to_set().remove(s.last()),
{
    let t = s.drop_last();
    assert forall|x: u64| #[trigger] t.contains(x) <==> (s.contains(x) && x != s.last()) by {
        if t.contains(x) {
            let p = choose|p: int| 0 <= p < t.len() && t[p] == x;
            assert(s[p] == x);
            assert(p != s.len() - 1);
        }
        if s.contains(x) && x != s.last() {
            let p = choose|p: int| 0 <= p < s.len() && s[p] == x;
            assert(t[p] == x);
        }
    }
    assert(t.to_set() =~= s.to_set().remove(s.last()));
}

/// Independent segment of the sharded map.
pub struct Shard<V: Value> {
    items: HashMap<u64, V>,
    lru: Option<LRUList>,
    lru_on: bool,
    id: u64,
    mem: i64,
    len: i64,
}

impl<V: Value> Shard<V> {
    /// The items of the shard, by key.
    pub closed spec fn view(&self) -> Map<u64, V> {
        self.items@
    }

    /// Whether LRU tracking is on.
    pub closed spec fn lru_enabled(&self) -> bool {
        self.lru_on
    }

    /// The LRU order of the shard, most recently used first; empty when
    /// tracking never started.
    pub closed spec fn lru_order(&self) -> Seq<u64> {
        match self.lru {
            Some(l) => l.view(),
            None => Seq::empty(),
        }
    }

    /// The byte counter.
    pub closed spec fn spec_mem(&self) -> i64 {
        self.mem
    }

    /// The length counter.
    pub closed spec fn spec_len(&self) -> i64 {
        self.len
    }

    /// The shard's id.
    pub closed spec fn spec_id(&self) -> u64 {
        self.id
    }

    /// Whether an LRU list was ever created.
    pub closed spec fn lru_started(&self) -> bool {
        self.lru is Some
    }

    /// The shard is well formed: tracking keeps a well formed list, and the
    /// list is empty while tracking is off.
    pub closed spec fn wf(&self) -> bool {
        &&& self.lru_on ==> self.lru is Some
        &&& (match self.lru {
            Some(l) => l.wf(),
            None => true,
        })
        &&& !self.lru_on ==> self.lru_order().len() == 0
    }

    /// The counters agree with the items: the length counter is the number
    /// of items.
    pub open spec fn counts_items(&self) -> bool {
        self.spec_len() as int == self.view().len()
    }

    /// The byte counter is the total weight of the items, modulo 2^64 (it
    /// wraps as the atomic counter it stands for does).
    pub open spec fn counts_weight(&self) -> bool {
        (self.spec_mem() - weight_total(self.view())) % weight_modulus() == 0
    }

    /// While tracking is on, the LRU order lists exactly the shard's keys.
    pub open spec fn lru_tracks_items(&self) -> bool {
        self.lru_enabled() ==> self.lru_order().to_set() == self.view().dom()
    }

    /// A well formed shard never lists a key twice in its LRU order.
    pub proof fn lemma_lru_no_duplicates(&self)
        requires
            self.wf(),
        ensures
            self.lru_order().no_duplicates(),
    {
        match self.lru {
            Some(l) => l.lemma_no_duplicates(),
            None => {},
        }
    }

    /// Creates an empty shard with LRU tracking off.
    pub fn new(id: u64) -> (s: Self)
        ensures
            s.wf(),
            s.view() == Map::<u64, V>::empty(),
            !s.lru_enabled(),
            !s.lru_started(),
            s.lru_order() == Seq::<u64>::empty(),
            s.spec_mem() == 0,
            s.spec_len() == 0,
            s.spec_id() == id,
            s.counts_weight(),
    {
        let s = Shard {
            items: HashMap::with_capacity(256),
            lru: None,
            lru_on: false,
            id,
            mem: 0,
            len: 0,
        };
        proof {
            lemma_weight_total_empty(s.items@);
        }
        s
    }

    /// The shard's id.
    pub fn id(&self) -> (r: u64)
        ensures
            r == self.spec_id(),
    {
        self.id
    }

    /// The total weight in bytes.
    pub fn weight(&self) -> (r: i64)
        ensures
            r == self.spec_mem(),
    {
        self.mem
    }

    /// The number of items.
    pub fn len(&self) -> (r: i64)
        ensures
            r == self.spec_len(),
    {
        self.len
    }

    /// Adds `delta` to the byte counter (wrapping, as an atomic add does).
    pub fn add_mem(&mut self, delta: i64)
        requires
            old(self).wf(),
        ensures
            final(self).wf(),
            final(self).view() == old(self).view(),
            final(self).lru_enabled() == old(self).lru_enabled(),
            final(self).lru_order() == old(self).lru_order(),
            final(self).spec_len() == old(self).spec_len(),
            final(self).spec_id() == old(self).spec_id(),
            final(self).spec_mem() == old(self).spec_mem().wrapping_add(delta),
    {
        self.mem = self.mem.wrapping_add(delta);
    }

    /// Sets or replaces the item of `key`; returns the byte delta and the
    /// length delta, which the counters take on.
    pub fn set(&mut self, key: u64, new_value: V) -> (r: (i64, i64))
        requires
            old(self).wf(),
        ensures
            final(self).wf(),
            final(self).view() == old(self).view().insert(key, new_value),
            final(self).lru_enabled() == old(self).lru_enabled(),
            final(self).lru_enabled() ==> final(self).lru_order() == seq![key] + old(self).lru_order().remove_value(key),
            !final(self).lru_enabled() ==> final(self).lru_order() == old(self).lru_order(),
            r.1 == (if old(self).view().contains_key(key) {
                0i64
            } else {
                1i64
            }),
            r.0 == (if old(self).view().contains_key(key) {
                new_value.spec_weight().wrapping_sub(old(self).view()[key].spec_weight())
            } else {
                new_value.spec_weight()
            }),
            final(self).spec_mem() == old(self).spec_mem().wrapping_add(r.0),
            final(self).spec_len() == old(self).spec_len().wrapping_add(r.1),
            final(self).spec_id() == old(self).spec_id(),
            old(self).counts_items() && old(self).view().len() < i64::MAX ==> final(self).counts_items(),
            old(self).lru_tracks_items() ==> final(self).lru_tracks_items(),
            old(self).counts_weight() ==> final(self).counts_weight(),
    {
        proof {
            old(self).lemma_lru_no_duplicates();
            lemma_move_to_front_set(old(self).lru_order(), key);
            lemma_weight_total_insert(old(self).items@, key, new_value);
        }
        let new_weight = new_value.weight();
        let old_weight = match self.items.get(&key) {
            Some(old_value) => Some(old_value.weight()),
            None => None,
        };
        self.items.insert(key, new_value);
        if self.lru_on {
            match self.lru.take() {
                Some(mut lru) => {
                    lru.move_to_front(key);
                    self.lru = Some(lru);
                },
                None => {},
            }
        }
        match old_weight {
            Some(ow) => {
                let bytes_delta = new_weight.wrapping_sub(ow);
                self.mem = self.mem.wrapping_add(bytes_delta);
                proof {
                    assert(self.items@.dom() =~= old(self).items@.dom());
                    if old(self).counts_weight() {
                        lemma_counter_shift(
                            old(self).mem as int,
                            weight_total(old(self).items@),
                            self.mem as int,
                            new_weight - ow,
                        );
                    }
                }
                (bytes_delta, 0)
            },
            None => {
                self.len = self.len.wrapping_add(1);
                self.mem = self.mem.wrapping_add(new_weight);
                proof {
                    assert(self.items@.dom() =~= old(self).items@.dom().insert(key));
                    if old(self).counts_weight() {
                        lemma_counter_shift(
                            old(self).mem as int,
                            weight_total(old(self).items@),
                            self.mem as int,
                            new_weight as int,
                        );
                    }
                }
                (new_weight, 1)
            },
        }
    }

    /// Returns a clone of the item of `key`.
    pub fn get(&self, key: u64) -> (r: Option<V>)
        ensures
            r is Some <==> self.view().contains_key(key),
            r matches Some(v) ==> cloned::<V>(self.view()[key], v),
    {
        match self.items.get(&key) {
            Some(v) => Some(v.clone()),
            None => None,
        }
    }

    /// Removes the item of `key`; returns the freed bytes and whether an
    /// item was removed.
    pub fn remove(&mut self, key: u64) -> (r: (i64, bool))
        requires
            old(self).wf(),
        ensures
            final(self).wf(),
            final(self).view() == old(self).view().remove(key),
            r.1 == old(self).view().contains_key(key),
            !r.1 ==> r.0 == 0 && final(self).spec_mem() == old(self).spec_mem() && final(self).spec_len() == old(self).spec_len(),
            r.1 ==> final(self).spec_mem() == old(self).spec_mem().wrapping_sub(r.0) && final(self).spec_len() == old(self).spec_len().wrapping_sub(1),
            final(self).lru_enabled() == old(self).lru_enabled(),
            r.1 && final(self).lru_enabled() ==> final(self).lru_order() == old(self).lru_order().remove_value(key),
            !(r.1 && final(self).lru_enabled()) ==> final(self).lru_order() == old(self).lru_order(),
            final(self).spec_id() == old(self).spec_id(),
            old(self).counts_items() ==> final(self).counts_items(),
            old(self).lru_tracks_items() ==> final(self).lru_tracks_items(),
            r.1 ==> r.0 == old(self).view()[key].spec_weight(),
            old(self).counts_weight() ==> final(self).counts_weight(),
    {
        self.remove_unlocked(key)
    }

    /// Removes the item of `key` from a shard the caller holds exclusively.
    pub fn remove_unlocked(&mut self, key: u64) -> (r: (i64, bool))
        requires
            old(self).wf(),
        ensures
            final(self).wf(),
            final(self).view() == old(self).view().remove(key),
            r.1 == old(self).view().contains_key(key),
            !r.1 ==> r.0 == 0 && final(self).spec_mem() == old(self).spec_mem() && final(self).spec_len() == old(self).spec_len(),
            r.1 ==> final(self).spec_mem() == old(self).spec_mem().wrapping_sub(r.0) && final(self).spec_len() == old(self).spec_len().wrapping_sub(1),
            final(self).lru_enabled() == old(self).lru_enabled(),
            r.1 && final(self).lru_enabled() ==> final(self).lru_order() == old(self).lru_order().remove_value(key),
            !(r.1 && final(self).lru_enabled()) ==> final(self).lru_order() == old(self).lru_order(),
            final(self).spec_id() == old(self).spec_id(),
            old(self).counts_items() ==> final(self).counts_items(),
            old(self).lru_tracks_items() ==> final(self).lru_tracks_items(),
            r.1 ==> r.0 == old(self).view()[key].spec_weight(),
            old(self).counts_weight() ==> final(self).counts_weight(),
    {
        proof {
            old(self).lemma_lru_no_duplicates();
            lemma_remove_value_set(old(self).lru_order(), key);
            if old(self).items@.dom().contains(key) {
                lemma_weight_total_remove(old(self).items@, key);
            }
        }
        let removed = self.items.remove(&key);
        match removed {
            Some(old_value) => {
                if self.lru_on {
                    match self.lru.take() {
                        Some(mut lru) => {
                            lru.remove(key);
                            self.lru = Some(lru);
                        },
                        None => {},
                    }
                }
                proof {
                    assert(self.items@.dom() =~= old(self).items@.dom().remove(key));
                }
                let freed_bytes = old_value.weight();
                self.mem = self.mem.wrapping_sub(freed_bytes);
                self.len = self.len.wrapping_sub(1);
                proof {
                    if old(self).counts_weight() {
                        lemma_counter_shift(
                            old(self).mem as int,
                            weight_total(old(self).items@),
                            self.mem as int,
                            -(freed_bytes as int),
                        );
                    }
                }
                (freed_bytes, true)
            },
            None => {
                proof {
                    assert(self.items@ =~= old(self).items@.remove(key));
                    assert(self.items@.dom() =~= old(self).items@.dom());
                    assert(self.items@ =~= old(self).items@);
                }
                (0, false)
            },
        }
    }

    /// Removes every item; returns the byte and length counters as they
    /// were, and zeroes them.
    pub fn clear(&mut self) -> (r: (i64, i64))
        requires
            old(self).wf(),
        ensures
            final(self).wf(),
            final(self).view() == Map::<u64, V>::empty(),
            final(self).lru_order() == Seq::<u64>::empty(),
            final(self).lru_enabled() == old(self).lru_enabled(),
            r == (old(self).spec_mem(), old(self).spec_len()),
            final(self).spec_mem() == 0,
            final(self).spec_len() == 0,
            final(self).spec_id() == old(self).spec_id(),
            final(self).lru_tracks_items(),
            final(self).counts_weight(),
    {
        let items_count = self.len;
        let freed_bytes = self.mem;
        self.items.clear();
        match self.lru.take() {
            Some(mut lru) => {
                lru.clear();
                self.lru = Some(lru);
            },
            None => {},
        }
        self.len = 0;
        self.mem = 0;
        proof {
            assert(self.lru_order().to_set() =~= self.view().dom());
            lemma_weight_total_empty(self.items@);
        }
        (freed_bytes, items_count)
    }

    /// Turns LRU tracking on. The first time, every present key is put in
    /// the list (in the map's iteration order); later, the list is kept as
    /// it is.
    pub fn enable_lru(&mut self)
        requires
            old(self).wf(),
        ensures
            final(self).wf(),
            final(self).lru_enabled(),
            final(self).lru_started(),
            final(self).view() == old(self).view(),
            final(self).spec_mem() == old(self).spec_mem(),
            final(self).spec_len() == old(self).spec_len(),
            final(self).spec_id() == old(self).spec_id(),
            old(self).lru_started() ==> final(self).lru_order() == old(self).lru_order(),
            !old(self).lru_started() ==> final(self).lru_order().to_set() == old(self).view().dom(),
            !old(self).lru_started() ==> final(self).lru_order().len() == old(self).view().len(),
            !old(self).lru_started() ==> final(self).lru_tracks_items(),
    {
        if self.lru.is_none() {
            let mut lru = LRUList::new();
            let ghost keys = self.items.keys().remaining().unref();
            proof {
                assert(keys.to_set() == self.items@.dom());
                assert(keys.no_duplicates());
            }
            for k in iter: self.items.keys()
                invariant
                    lru.wf(),
                    keys == iter.seq().unref(),
                    keys.no_duplicates(),
                    lru.view().len() == iter.index(),
                    forall|x: u64|
                        lru.view().contains(x) <==> exists|j: int|
                            0 <= j < iter.index() && keys[j] == x,
            {
                let ghost before = lru.view();
                let ghost idx = iter.index();
                let key = *k;
                proof {
                    assert(keys[idx] == key);
                    if before.contains(key) {
                        let j = choose|j: int| 0 <= j < idx && keys[j] == key;
                        assert(keys[j] == keys[idx as int]);
                    }
                    before.index_of_first_ensures(key);
                }
                lru.push_front(key);
                proof {
                    assert(before.remove_value(key) == before);
                    assert forall|x: u64| lru.view().contains(x) <==> exists|j: int|
                        0 <= j < idx + 1 && keys[j] == x by {
                        if lru.view().contains(x) {
                            let p = choose|p: int| 0 <= p < lru.view().len() && lru.view()[p] == x;
                            if p == 0 {
                                assert(keys[idx as int] == x);
                            } else {
                                assert(before[p - 1] == x);
                                assert(before.contains(x));
                            }
                        }
                        if exists|j: int| 0 <= j < idx + 1 && keys[j] == x {
                            let j = choose|j: int| 0 <= j < idx + 1 && keys[j] == x;
                            if j == idx {
                                assert(lru.view()[0] == x);
                            } else {
                                assert(before.contains(x));
                                let p = choose|p: int| 0 <= p < before.len() && before[p] == x;
                                assert(lru.view()[p + 1] == x);
                            }
                        }
                    }
                }
            }
            proof {
                assert(lru.view().to_set() =~= self.items@.dom()) by {
                    assert forall|x: u64| lru.view().to_set().contains(x) <==> keys.to_set().contains(
                        x,
                    ) by {
                        if keys.contains(x) {
                            let j = choose|j: int| 0 <= j < keys.len() && keys[j] == x;
                            assert(keys[j] == x);
                        }
                    }
                }
                keys.unique_seq_to_set();
            }
            self.lru = Some(lru);
        }
        self.lru_on = true;
    }

    /// Turns LRU tracking off and empties the list.
    pub fn disable_lru(&mut self)
        requires
            old(self).wf(),
        ensures
            final(self).wf(),
            !final(self).lru_enabled(),
            final(self).lru_started() == old(self).lru_started(),
            final(self).lru_order() == Seq::<u64>::empty(),
            final(self).lru_tracks_items(),
            final(self).view() == old(self).view(),
            final(self).spec_mem() == old(self).spec_mem(),
            final(self).spec_len() == old(self).spec_len(),
            final(self).spec_id() == old(self).spec_id(),
    {
        self.lru_on = false;
        match self.lru.take() {
            Some(mut lru) => {
                lru.clear();
                self.lru = Some(lru);
            },
            None => {},
        }
    }

    /// Marks `key` as most recently used when tracking is on.
    pub fn touch_lru(&mut self, key: u64)
        requires
            old(self).wf(),
        ensures
            final(self).wf(),
            final(self).lru_enabled() == old(self).lru_enabled(),
            final(self).lru_started() == old(self).lru_started(),
            final(self).lru_enabled() ==> final(self).lru_order() == seq![key] + old(self).lru_order().remove_value(key),
            !final(self).lru_enabled() ==> final(self).lru_order() == old(self).lru_order(),
            final(self).view() == old(self).view(),
            final(self).spec_mem() == old(self).spec_mem(),
            final(self).spec_len() == old(self).spec_len(),
            final(self).spec_id() == old(self).spec_id(),
            old(self).lru_tracks_items() && old(self).view().contains_key(key)
                ==> final(self).lru_tracks_items(),
    {
        proof {
            old(self).lemma_lru_no_duplicates();
            lemma_move_to_front_set(old(self).lru_order(), key);
            assert(old(self).view().contains_key(key) ==> old(self).view().dom().insert(key)
                =~= old(self).view().dom());
        }
        if self.lru_on {
            match self.lru.take() {
                Some(mut lru) => {
                    lru.move_to_front(key);
                    self.lru = Some(lru);
                },
                None => {},
            }
        }
    }

    /// The least recently used key, when tracking is on.
    pub fn lru_peek_tail(&self) -> (r: Option<u64>)
        requires
            self.wf(),
        ensures
            r == (if self.lru_enabled() && self.lru_order().len() > 0 {
                Some(self.lru_order().last())
            } else {
                None::<u64>
            }),
    {
        if self.lru_on {
            match &self.lru {
                Some(lru) => lru.peek_tail(),
                None => None,
            }
        } else {
            None
        }
    }

    /// Pops the least recently used key and takes its item out; the length
    /// and byte counters drop by one and by the item's weight. A listed key
    /// with no item is dropped from the list and nothing is returned.
    pub fn lru_pop_tail(&mut self) -> (r: Option<(u64, V)>)
        requires
            old(self).wf(),
        ensures
            final(self).wf(),
            final(self).lru_enabled() == old(self).lru_enabled(),
            final(self).lru_started() == old(self).lru_started(),
            r is None ==> final(self).spec_mem() == old(self).spec_mem() && final(self).spec_len()
                == old(self).spec_len(),
            r matches Some(p) ==> final(self).spec_mem() == old(self).spec_mem().wrapping_sub(
                p.1.spec_weight(),
            ) && final(self).spec_len() == old(self).spec_len().wrapping_sub(1),
            final(self).spec_id() == old(self).spec_id(),
            old(self).counts_items() ==> final(self).counts_items(),
            old(self).counts_weight() ==> final(self).counts_weight(),
            !(old(self).lru_enabled() && old(self).lru_order().len() > 0) ==> {
                &&& r is None
                &&& final(self).view() == old(self).view()
                &&& final(self).lru_order() == old(self).lru_order()
            },
            old(self).lru_enabled() && old(self).lru_order().len() > 0 ==> {
                let k = old(self).lru_order().last();
                &&& final(self).lru_order() == old(self).lru_order().drop_last()
                &&& final(self).view() == old(self).view().remove(k)
                &&& (r is Some <==> old(self).view().contains_key(k))
                &&& r matches Some(p) ==> p.0 == k && p.1 == old(self).view()[k]
            },
            old(self).lru_tracks_items() ==> final(self).lru_tracks_items(),
            old(self).lru_tracks_items() && old(self).lru_enabled() && old(self).lru_order().len() > 0
                ==> r is Some,
    {
        proof {
            old(self).lemma_lru_no_duplicates();
            if old(self).lru_order().len() > 0 {
                lemma_drop_last_set(old(self).lru_order());
                assert(old(self).lru_order().to_set().contains(old(self).lru_order().last()));
            }
        }
        if self.lru_on {
            match self.lru.take() {
                Some(mut lru) => {
                    let popped = lru.pop_tail();
                    self.lru = Some(lru);
                    match popped {
                        Some(key) => {
                            let removed = self.items.remove(&key);
                            match removed {
                                Some(value) => {
                                    let freed_bytes = value.weight();
                                    self.mem = self.mem.wrapping_sub(freed_bytes);
                                    self.len = self.len.wrapping_sub(1);
                                    proof {
                                        assert(self.items@.dom() =~= old(self).items@.dom().remove(key));
                                        lemma_weight_total_remove(old(self).items@, key);
                                        if old(self).counts_weight() {
                                            lemma_counter_shift(
                                                old(self).mem as int,
                                                weight_total(old(self).items@),
                                                self.mem as int,
                                                -(freed_bytes as int),
                                            );
                                        }
                                    }
                                    return Some((key, value));
                                },
                                None => {
                                    proof {
                                        assert(self.items@ =~= old(self).items@.remove(key));
                                        assert(self.items@ =~= old(self).items@);
                                    }
                                },
                            }
                        },
                        None => {},
                    }
                },
                None => {},
            }
        }
        None
    }

    /// Pops the least recently used key and removes its item, updating the
    /// counters; returns the freed bytes and whether an item was removed.
    pub fn evict_one_lru_tail(&mut self) -> (r: (i64, bool))
        requires
            old(self).wf(),
        ensures
            final(self).wf(),
            final(self).lru_enabled() == old(self).lru_enabled(),
            final(self).lru_started() == old(self).lru_started(),
            final(self).spec_id() == old(self).spec_id(),
            !(old(self).lru_enabled() && old(self).lru_order().len() > 0) ==> {
                &&& r == (0i64, false)
                &&& final(self).view() == old(self).view()
                &&& final(self).lru_order() == old(self).lru_order()
                &&& final(self).spec_mem() == old(self).spec_mem()
                &&& final(self).spec_len() == old(self).spec_len()
            },
            old(self).lru_enabled() && old(self).lru_order().len() > 0 ==> {
                let k = old(self).lru_order().last();
                &&& final(self).lru_order() == old(self).lru_order().drop_last()
                &&& final(self).view() == old(self).view().remove(k)
                &&& r.1 == old(self).view().contains_key(k)
                &&& r.1 ==> final(self).spec_mem() == old(self).spec_mem().wrapping_sub(r.0)
                &&& r.1 ==> final(self).spec_len() == old(self).spec_len().wrapping_sub(1)
                &&& !r.1 ==> r.0 == 0 && final(self).spec_mem() == old(self).spec_mem()
                &&& !r.1 ==> final(self).spec_len() == old(self).spec_len()
            },
            old(self).counts_items() ==> final(self).counts_items(),
            old(self).lru_tracks_items() ==> final(self).lru_tracks_items(),
            old(self).lru_tracks_items() && old(self).lru_enabled() && old(self).lru_order().len() > 0
                ==> r.1,
            r.1 ==> r.0 == old(self).view()[old(self).lru_order().last()].spec_weight(),
            old(self).counts_weight() ==> final(self).counts_weight(),
    {
        proof {
            old(self).lemma_lru_no_duplicates();
            if old(self).lru_order().len() > 0 {
                lemma_drop_last_set(old(self).lru_order());
                assert(old(self).lru_order().to_set().contains(old(self).lru_order().last()));
            }
        }
        if !self.lru_on {
            return (0, false);
        }
        match self.lru.take() {
            Some(mut lru) => {
                let popped = lru.pop_tail();
                self.lru = Some(lru);
                match popped {
                    Some(key) => {
                        let removed = self.items.remove(&key);
                        match removed {
                            Some(old_value) => {
                                let freed_bytes = old_value.weight();
                                self.mem = self.mem.wrapping_sub(freed_bytes);
                                self.len = self.len.wrapping_sub(1);
                                proof {
                                    assert(self.items@.dom() =~= old(self).items@.dom().remove(key));
                                    lemma_weight_total_remove(old(self).items@, key);
                                    if old(self).counts_weight() {
                                        lemma_counter_shift(
                                            old(self).mem as int,
                                            weight_total(old(self).items@),
                                            self.mem as int,
                                            -(freed_bytes as int),
                                        );
                                    }
                                }
                                return (freed_bytes, true);
                            },
                            None => {
                                proof {
                                    assert(self.items@ =~= old(self).items@.remove(key));
                                    assert(self.items@ =~= old(self).items@);
                                }
                            },
                        }
                    },
                    None => {},
                }
            },
            None => {},
        }
        (0, false)
    }

    /// The keys of the items, each once, in the map's iteration order.
    pub fn keys(&self) -> (r: Vec<u64>)
        ensures
            r@.to_set() == self.view().dom(),
            r@.no_duplicates(),
    {
        let mut out: Vec<u64> = Vec::new();
        let ghost keys = self.items.keys().remaining().unref();
        for k in iter: self.items.keys()
            invariant
                keys == iter.seq().unref(),
                keys.to_set() == self.items@.dom(),
                keys.no_duplicates(),
                out@ == keys.take(iter.index() as int),
        {
            out.push(*k);
            proof {
                assert(out@ =~= keys.take(iter.index() + 1));
            }
        }
        proof {
            assert(out@ =~= keys);
        }
        out
    }
}

} // verus!
