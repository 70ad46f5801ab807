//! LRU order over `u64` keys with O(1) operations.
//!
//! The list is doubly linked through slot indices into an arena of nodes,
//! and a hash map finds the slot of a key in O(1). Freed slots are reused.
//! The abstract view is the sequence of keys from the most recently used
//! (front) to the least recently used (tail).

use std::collections::HashMap;
use vstd::prelude::*;

verus! {

broadcast use vstd::std_specs::hash::group_hash_axioms;

/// Node of the doubly linked list, stored in the arena.
#[derive(Clone, Copy)]
struct LruNode {
    key: u64,
    prev: Option<usize>,
    next: Option<usize>,
}

impl LruNode {
    /// Creates an unlinked node holding `key`.
    fn new(key: u64) -> (n: LruNode)
        ensures
            n.key == key,
            n.prev is None,
            n.next is None,
    {
        LruNode { key, prev: None, next: None }
    }
}

/// Tracks the access order of keys, most recently used first.
pub struct LRUList {
    nodes: Vec<LruNode>,
    free: Vec<usize>,
    head: Option<usize>,
    tail: Option<usize>,
    index: HashMap<u64, usize>,
    order: Ghost<Seq<u64>>,
    slots: Ghost<Seq<usize>>,
}

/// The slot before position `i` of the chain, if any.
spec fn prev_of(slots: Seq<usize>, i: int) -> Option<usize> {
    if i == 0 {
        None
    } else {
        Some(slots[i - 1])
    }
}

/// The slot after position `i` of the chain, if any.
spec fn next_of(slots: Seq<usize>, i: int) -> Option<usize> {
    if i + 1 == slots.len() {
        None
    } else {
        Some(slots[i + 1])
    }
}

/// The node in the slot at position `i` holds the key at position `i` and is
/// linked to its neighbours in the chain.
spec fn slot_ok(nodes: Seq<LruNode>, order: Seq<u64>, slots: Seq<usize>, i: int) -> bool {
    let s = slots[i];
    &&& s < nodes.len()
    &&& nodes[s as int].key == order[i]
    &&& nodes[s as int].prev == prev_of(slots, i)
    &&& nodes[s as int].next == next_of(slots, i)
}

spec fn first_slot(slots: Seq<usize>) -> Option<usize> {
    if slots.len() == 0 {
        None
    } else {
        Some(slots[0])
    }
}

spec fn last_slot(slots: Seq<usize>) -> Option<usize> {
    if slots.len() == 0 {
        None
    } else {
        Some(slots[slots.len() - 1])
    }
}

/// The arena, the chain of slots and the key order agree.
spec fn chain_ok(
    nodes: Seq<LruNode>,
    order: Seq<u64>,
    slots: Seq<usize>,
    head: Option<usize>,
    tail: Option<usize>,
) -> bool {
    &&& slots.len() == order.len()
    &&& forall|i: int| 0 <= i < slots.len() ==> #[trigger] slot_ok(nodes, order, slots, i)
    &&& slots.no_duplicates()
    &&& order.no_duplicates()
    &&& head == first_slot(slots)
    &&& tail == last_slot(slots)
}

/// Two arenas hold the same keys in every slot.
spec fn same_keys(a: Seq<LruNode>, b: Seq<LruNode>) -> bool {
    &&& a.len() == b.len()
    &&& forall|j: int| 0 <= j < a.len() ==> #[trigger] a[j].key == b[j].key
}

impl LRUList {
    /// The keys from the most recently used to the least recently used.
    pub closed spec fn view(&self) -> Seq<u64> {
        self.order@
    }

    spec fn chain_inv(&self) -> bool {
        chain_ok(self.nodes@, self.order@, self.slots@, self.head, self.tail)
    }

    spec fn index_inv(&self) -> bool {
        &&& forall|i: int|
            0 <= i < self.order@.len() ==> {
                &&& #[trigger] self.index@.contains_key(self.order@[i])
                &&& self.index@[self.order@[i]] == self.slots@[i]
            }
        &&& forall|k: u64| #[trigger] self.index@.contains_key(k) ==> self.order@.contains(k)
    }

    spec fn free_inv(&self) -> bool {
        &&& forall|j: int| 0 <= j < self.free@.len() ==> #[trigger] self.free@[j] < self.nodes@.len()
        &&& self.free@.no_duplicates()
        &&& self.free@.disjoint(self.slots@)
    }

    /// The list is well formed.
    pub closed spec fn wf(&self) -> bool {
        &&& self.chain_inv()
        &&& self.index_inv()
        &&& self.free_inv()
    }

    /// A well formed list never holds a key twice.
    pub proof fn lemma_no_duplicates(&self)
        requires
            self.wf(),
        ensures
            self.view().no_duplicates(),
    {
    }

    /// Creates an empty list.
    pub fn new() -> (l: LRUList)
        ensures
            l.wf(),
            l.view() == Seq::<u64>::empty(),
    {
        LRUList {
            nodes: Vec::new(),
            free: Vec::new(),
            head: None,
            tail: None,
            index: HashMap::new(),
            order: Ghost(Seq::empty()),
            slots: Ghost(Seq::empty()),
        }
    }

    /// Returns true when the list holds no key.
    pub fn is_empty(&self) -> (b: bool)
        requires
            self.wf(),
        ensures
            b == (self.view().len() == 0),
    {
        self.head.is_none()
    }

    /// Returns the least recently used key without removing it.
    pub fn peek_tail(&self) -> (r: Option<u64>)
        requires
            self.wf(),
        ensures
            r == (if self.view().len() == 0 {
                None
            } else {
                Some(self.view().last())
            }),
    {
        match self.tail {
            None => None,
            Some(t) => {
                proof {
                    assert(slot_ok(self.nodes@, self.order@, self.slots@, self.slots@.len() - 1));
                }
                Some(self.nodes[t].key)
            },
        }
    }

    /// Unlinks the node at position `i` of the chain; the arena keeps it.
    fn unlink(&mut self, s: usize, Ghost(i): Ghost<int>)
        requires
            old(self).chain_inv(),
            0 <= i < old(self).order@.len(),
            old(self).slots@[i] == s,
        ensures
            final(self).chain_inv(),
            final(self).order@ == old(self).order@.remove(i),
            final(self).slots@ == old(self).slots@.remove(i),
            same_keys(final(self).nodes@, old(self).nodes@),
            final(self).index == old(self).index,
            final(self).free == old(self).free,
    {
        let ghost old_nodes = self.nodes@;
        let ghost old_order = self.order@;
        let ghost slots = self.slots@;
        let ghost len = slots.len() as int;
        proof {
            assert(slot_ok(old_nodes, old_order, slots, i));
        }
        let prev = self.nodes[s].prev;
        let next = self.nodes[s].next;
        match prev {
            None => {
                self.head = next;
            },
            Some(p) => {
                proof {
                    assert(slot_ok(old_nodes, old_order, slots, i - 1));
                }
                self.nodes[p].next = next;
            },
        }
        match next {
            None => {
                self.tail = prev;
            },
            Some(n) => {
                proof {
                    assert(slot_ok(old_nodes, old_order, slots, i + 1));
                }
                self.nodes[n].prev = prev;
            },
        }
        self.nodes[s].prev = None;
        self.nodes[s].next = None;
        self.order = Ghost(old_order.remove(i));
        self.slots = Ghost(slots.remove(i));
        proof {
            let nodes = self.nodes@;
            let new_slots = self.slots@;
            let new_order = self.order@;
            assert forall|j: int| 0 <= j < new_slots.len() implies #[trigger] slot_ok(
                nodes,
                new_order,
                new_slots,
                j,
            ) by {
                if j < i {
                    assert(slot_ok(old_nodes, old_order, slots, j));
                    assert(new_slots[j] == slots[j]);
                    if j + 1 < i {
                        assert(slots[j] != slots[i - 1]);
                        assert(slots[j] != slots[i]);
                        if i + 1 < len {
                            assert(slots[j] != slots[i + 1]);
                        }
                        assert(new_slots[j + 1] == slots[j + 1]);
                    } else {
                        assert(j == i - 1);
                        assert(slots[j] != slots[i]);
                        if i + 1 < len {
                            assert(slots[j] != slots[i + 1]);
                            assert(new_slots[j + 1] == slots[i + 1]);
                        }
                    }
                    if j > 0 {
                        assert(new_slots[j - 1] == slots[j - 1]);
                    }
                } else {
                    assert(slot_ok(old_nodes, old_order, slots, j + 1));
                    assert(new_slots[j] == slots[j + 1]);
                    assert(slots[j + 1] != slots[i]);
                    if i > 0 {
                        assert(slots[j + 1] != slots[i - 1]);
                    }
                    if j == i {
                        if i > 0 {
                            assert(new_slots[j - 1] == slots[i - 1]);
                        }
                    } else {
                        assert(slots[j + 1] != slots[i + 1]);
                        assert(new_slots[j - 1] == slots[j]);
                    }
                    if j + 1 < new_slots.len() {
                        assert(new_slots[j + 1] == slots[j + 2]);
                    }
                }
            }
            assert(new_slots.no_duplicates()) by {
                assert forall|a: int, b: int|
                    0 <= a < new_slots.len() && 0 <= b < new_slots.len() && a != b implies
                    new_slots[a] != new_slots[b] by {
                    let oa = if a < i { a } else { a + 1 };
                    let ob = if b < i { b } else { b + 1 };
                    assert(new_slots[a] == slots[oa]);
                    assert(new_slots[b] == slots[ob]);
                }
            }
            assert(new_order.no_duplicates()) by {
                assert forall|a: int, b: int|
                    0 <= a < new_order.len() && 0 <= b < new_order.len() && a != b implies
                    new_order[a] != new_order[b] by {
                    let oa = if a < i { a } else { a + 1 };
                    let ob = if b < i { b } else { b + 1 };
                    assert(new_order[a] == old_order[oa]);
                    assert(new_order[b] == old_order[ob]);
                }
            }
            if len > 1 {
                if i == 0 {
                    assert(new_slots[0] == slots[1]);
                } else {
                    assert(new_slots[0] == slots[0]);
                }
                if i == len - 1 {
                    assert(new_slots[new_slots.len() - 1] == slots[len - 2]);
                } else {
                    assert(new_slots[new_slots.len() - 1] == slots[len - 1]);
                }
            }
            assert(same_keys(nodes, old_nodes));
        }
    }

    /// Links the unlinked node in slot `s` in front of the chain.
    fn push_node_front(&mut self, s: usize)
        requires
            old(self).chain_inv(),
            s < old(self).nodes@.len(),
            forall|j: int| 0 <= j < old(self).slots@.len() ==> old(self).slots@[j] != s,
            !old(self).order@.contains(old(self).nodes@[s as int].key),
        ensures
            final(self).chain_inv(),
            final(self).order@ == seq![old(self).nodes@[s as int].key] + old(self).order@,
            final(self).slots@ == seq![s] + old(self).slots@,
            same_keys(final(self).nodes@, old(self).nodes@),
            final(self).index == old(self).index,
            final(self).free == old(self).free,
    {
        let ghost old_nodes = self.nodes@;
        let ghost old_order = self.order@;
        let ghost slots = self.slots@;
        let ghost len = slots.len() as int;
        let key = self.nodes[s].key;
        let head = self.head;
        self.nodes[s].next = head;
        self.nodes[s].prev = None;
        match head {
            Some(h) => {
                proof {
                    assert(slot_ok(old_nodes, old_order, slots, 0));
                    assert(h == slots[0]);
                }
                self.nodes[h].prev = Some(s);
            },
            None => {
                self.tail = Some(s);
            },
        }
        self.head = Some(s);
        self.order = Ghost(seq![key] + old_order);
        self.slots = Ghost(seq![s] + slots);
        proof {
            let nodes = self.nodes@;
            let new_slots = self.slots@;
            let new_order = self.order@;
            assert forall|j: int| 0 <= j < new_slots.len() implies #[trigger] slot_ok(
                nodes,
                new_order,
                new_slots,
                j,
            ) by {
                if j == 0 {
                    if len > 0 {
                        assert(new_slots[1] == slots[0]);
                    }
                } else {
                    assert(slot_ok(old_nodes, old_order, slots, j - 1));
                    assert(new_slots[j] == slots[j - 1]);
                    assert(new_slots[j - 1] == (if j == 1 { s } else { slots[j - 2] }));
                    if j + 1 < new_slots.len() {
                        assert(new_slots[j + 1] == slots[j]);
                    }
                    if j > 1 {
                        assert(slots[j - 1] != slots[0]);
                    }
                }
            }
            assert(new_slots.no_duplicates()) by {
                assert forall|a: int, b: int|
                    0 <= a < new_slots.len() && 0 <= b < new_slots.len() && a != b implies
                    new_slots[a] != new_slots[b] by {
                    if a > 0 {
                        assert(new_slots[a] == slots[a - 1]);
                    }
                    if b > 0 {
                        assert(new_slots[b] == slots[b - 1]);
                    }
                }
            }
            assert(new_order.no_duplicates()) by {
                assert forall|a: int, b: int|
                    0 <= a < new_order.len() && 0 <= b < new_order.len() && a != b implies
                    new_order[a] != new_order[b] by {
                    if a > 0 {
                        assert(new_order[a] == old_order[a - 1]);
                    }
                    if b > 0 {
                        assert(new_order[b] == old_order[b - 1]);
                    }
                }
            }
            if len > 0 {
                assert(new_slots[new_slots.len() - 1] == slots[len - 1]);
            }
            assert(same_keys(nodes, old_nodes));
        }
    }

    /// Takes a slot out of the free list, or grows the arena, and puts an
    /// unlinked node holding `key` in it.
    fn alloc_slot(&mut self, key: u64) -> (s: usize)
        requires
            old(self).chain_inv(),
            old(self).free_inv(),
        ensures
            final(self).chain_inv(),
            final(self).order == old(self).order,
            final(self).slots == old(self).slots,
            final(self).index == old(self).index,
            s < final(self).nodes@.len(),
            final(self).nodes@[s as int].key == key,
            forall|j: int| 0 <= j < final(self).slots@.len() ==> final(self).slots@[j] != s,
            forall|j: int| 0 <= j < final(self).free@.len() ==> final(self).free@[j] != s,
            final(self).free_inv(),
    {
        let ghost old_nodes = self.nodes@;
        let ghost old_free = self.free@;
        let popped = self.free.pop();
        match popped {
            Some(f) => {
                proof {
                    assert(old_free[old_free.len() - 1] == f);
                }
                self.nodes[f] = LruNode::new(key);
                proof {
                    assert forall|j: int| 0 <= j < self.slots@.len() implies #[trigger] slot_ok(
                        self.nodes@,
                        self.order@,
                        self.slots@,
                        j,
                    ) by {
                        assert(slot_ok(old_nodes, self.order@, self.slots@, j));
                        assert(old_free[old_free.len() - 1] != self.slots@[j]);
                    }
                    assert forall|j: int| 0 <= j < self.slots@.len() implies self.slots@[j] != f by {
                        assert(old_free[old_free.len() - 1] != self.slots@[j]);
                    }
                    assert forall|j: int| 0 <= j < self.free@.len() implies self.free@[j] != f by {
                        assert(self.free@[j] == old_free[j]);
                    }
                    assert forall|j: int| 0 <= j < self.free@.len() implies #[trigger] self.free@[j]
                        < self.nodes@.len() by {
                        assert(self.free@[j] == old_free[j]);
                    }
                    assert(self.free@.no_duplicates()) by {
                        assert forall|a: int, b: int|
                            0 <= a < self.free@.len() && 0 <= b < self.free@.len() && a != b implies
                            self.free@[a] != self.free@[b] by {
                            assert(self.free@[a] == old_free[a]);
                            assert(self.free@[b] == old_free[b]);
                        }
                    }
                    assert(self.free@.disjoint(self.slots@)) by {
                        assert forall|a: int, b: int|
                            0 <= a < self.free@.len() && 0 <= b < self.slots@.len() implies
                            self.free@[a] != self.slots@[b] by {
                            assert(self.free@[a] == old_free[a]);
                        }
                    }
                }
                f
            },
            None => {
                let s = self.nodes.len();
                self.nodes.push(LruNode::new(key));
                proof {
                    assert forall|j: int| 0 <= j < self.slots@.len() implies #[trigger] slot_ok(
                        self.nodes@,
                        self.order@,
                        self.slots@,
                        j,
                    ) by {
                        assert(slot_ok(old_nodes, self.order@, self.slots@, j));
                    }
                    assert forall|j: int| 0 <= j < self.slots@.len() implies self.slots@[j] != s by {
                        assert(slot_ok(old_nodes, self.order@, self.slots@, j));
                    }
                }
                s
            },
        }
    }

    /// Proves the index maps every key of the chain to its slot after the
    /// chain moved the key at position `i` to the front.
    proof fn lemma_index_after_promote(
        index: Map<u64, usize>,
        order: Seq<u64>,
        slots: Seq<usize>,
        i: int,
    )
        requires
            0 <= i < order.len(),
            slots.len() == order.len(),
            forall|p: int|
                0 <= p < order.len() ==> {
                    &&& #[trigger] index.contains_key(order[p])
                    &&& index[order[p]] == slots[p]
                },
            forall|k: u64| #[trigger] index.contains_key(k) ==> order.contains(k),
        ensures
            ({
                let new_order = seq![order[i]] + order.remove(i);
                let new_slots = seq![slots[i]] + slots.remove(i);
                &&& forall|p: int|
                    0 <= p < new_order.len() ==> {
                        &&& #[trigger] index.contains_key(new_order[p])
                        &&& index[new_order[p]] == new_slots[p]
                    }
                &&& forall|k: u64| #[trigger] index.contains_key(k) ==> new_order.contains(k)
            }),
    {
        let new_order = seq![order[i]] + order.remove(i);
        let new_slots = seq![slots[i]] + slots.remove(i);
        assert forall|p: int| 0 <= p < new_order.len() implies {
            &&& #[trigger] index.contains_key(new_order[p])
            &&& index[new_order[p]] == new_slots[p]
        } by {
            if p > 0 {
                let q = if p - 1 < i { p - 1 } else { p };
                assert(new_order[p] == order[q]);
                assert(new_slots[p] == slots[q]);
            }
        }
        assert forall|k: u64| #[trigger] index.contains_key(k) implies new_order.contains(k) by {
            let q = choose|q: int| 0 <= q < order.len() && order[q] == k;
            if q == i {
                assert(new_order[0] == k);
            } else {
                let p = if q < i { q + 1 } else { q };
                assert(new_order[p] == k);
            }
        }
    }

    /// With no duplicates, removing the first occurrence of the key at
    /// position `i` is removing position `i`.
    proof fn lemma_remove_value_at(order: Seq<u64>, i: int)
        requires
            order.no_duplicates(),
            0 <= i < order.len(),
        ensures
            order.remove_value(order[i]) == order.remove(i),
    {
        order.index_of_first_ensures(order[i]);
    }

    /// Pushes `key` to the front; a key already in the list moves there.
    pub fn push_front(&mut self, key: u64)
        requires
            old(self).wf(),
        ensures
            final(self).wf(),
            final(self).view() == seq![key] + old(self).view().remove_value(key),
    {
        match self.index.get(&key) {
            Some(sp) => {
                let s = *sp;
                let ghost order = self.order@;
                let ghost slots = self.slots@;
                let ghost i = choose|i: int| 0 <= i < order.len() && order[i] == key;
                let ghost pre_nodes = self.nodes@;
                proof {
                    assert(order.contains(key));
                    assert(self.index@[order[i]] == slots[i]);
                    Self::lemma_remove_value_at(order, i);
                    Self::lemma_index_after_promote(self.index@, order, slots, i);
                }
                self.unlink(s, Ghost(i));
                proof {
                    assert forall|j: int| 0 <= j < self.slots@.len() implies self.slots@[j] != s by {
                        let q = if j < i { j } else { j + 1 };
                        assert(self.slots@[j] == slots[q]);
                    }
                    assert(!self.order@.contains(key)) by {
                        if self.order@.contains(key) {
                            let j = choose|j: int| 0 <= j < self.order@.len() && self.order@[j] == key;
                            let q = if j < i { j } else { j + 1 };
                            assert(self.order@[j] == order[q]);
                        }
                    }
                    assert(slot_ok(pre_nodes, order, slots, i));
                    assert(self.nodes@[s as int].key == pre_nodes[s as int].key);
                }
                self.push_node_front(s);
                proof {
                    assert(self.free@.disjoint(self.slots@)) by {
                        assert forall|a: int, b: int|
                            0 <= a < self.free@.len() && 0 <= b < self.slots@.len() implies
                            self.free@[a] != self.slots@[b] by {
                            if b == 0 {
                                assert(self.slots@[b] == slots[i]);
                            } else {
                                let q = if b - 1 < i { b - 1 } else { b };
                                assert(self.slots@[b] == slots[q]);
                            }
                        }
                    }
                }
            },
            None => {
                let s = self.alloc_slot(key);
                proof {
                    assert(!self.order@.contains(key));
                }
                self.push_node_front(s);
                self.index.insert(key, s);
                proof {
                    assert(self.order@ == seq![key] + old(self).order@);
                    old(self).order@.index_of_first_ensures(key);
                    let new_order = self.order@;
                    let old_order = old(self).order@;
                    assert forall|p: int| 0 <= p < new_order.len() implies {
                        &&& #[trigger] self.index@.contains_key(new_order[p])
                        &&& self.index@[new_order[p]] == self.slots@[p]
                    } by {
                        if p > 0 {
                            assert(new_order[p] == old_order[p - 1]);
                        }
                    }
                    assert forall|k: u64| #[trigger] self.index@.contains_key(k) implies new_order.contains(k) by {
                        if k == key {
                            assert(new_order[0] == k);
                        } else {
                            assert(old(self).index@.contains_key(k));
                            let q = choose|q: int| 0 <= q < old_order.len() && old_order[q] == k;
                            assert(new_order[q + 1] == k);
                        }
                    }
                    assert(self.free@.disjoint(self.slots@)) by {
                        assert forall|a: int, b: int|
                            0 <= a < self.free@.len() && 0 <= b < self.slots@.len() implies
                            self.free@[a] != self.slots@[b] by {
                            if b > 0 {
                                assert(self.slots@[b] == old(self).slots@[b - 1]);
                            }
                        }
                    }
                }
            },
        }
    }

    /// Moves `key` to the front; a key not in the list is added there.
    pub fn move_to_front(&mut self, key: u64)
        requires
            old(self).wf(),
        ensures
            final(self).wf(),
            final(self).view() == seq![key] + old(self).view().remove_value(key),
    {
        self.push_front(key);
    }

    /// Proves what the index and the free list become after the key at
    /// position `i` left the chain and its slot joined the free list.
    proof fn lemma_after_detach(
        old_index: Map<u64, usize>,
        order: Seq<u64>,
        slots: Seq<usize>,
        free: Seq<usize>,
        nodes_len: nat,
        i: int,
    )
        requires
            0 <= i < order.len(),
            slots.len() == order.len(),
            order.no_duplicates(),
            slots.no_duplicates(),
            forall|p: int| 0 <= p < slots.len() ==> #[trigger] slots[p] < nodes_len,
            forall|p: int|
                0 <= p < order.len() ==> {
                    &&& #[trigger] old_index.contains_key(order[p])
                    &&& old_index[order[p]] == slots[p]
                },
            forall|k: u64| #[trigger] old_index.contains_key(k) ==> order.contains(k),
            forall|j: int| 0 <= j < free.len() ==> #[trigger] free[j] < nodes_len,
            free.no_duplicates(),
            free.disjoint(slots),
        ensures
            ({
                let index = old_index.remove(order[i]);
                let new_order = order.remove(i);
                let new_slots = slots.remove(i);
                let new_free = free.push(slots[i]);
                &&& forall|p: int|
                    0 <= p < new_order.len() ==> {
                        &&& #[trigger] index.contains_key(new_order[p])
                        &&& index[new_order[p]] == new_slots[p]
                    }
                &&& forall|k: u64| #[trigger] index.contains_key(k) ==> new_order.contains(k)
                &&& forall|j: int| 0 <= j < new_free.len() ==> #[trigger] new_free[j] < nodes_len
                &&& new_free.no_duplicates()
                &&& new_free.disjoint(new_slots)
            }),
    {
        let key = order[i];
        let index = old_index.remove(key);
        let new_order = order.remove(i);
        let new_slots = slots.remove(i);
        let new_free = free.push(slots[i]);
        assert forall|p: int| 0 <= p < new_order.len() implies {
            &&& #[trigger] index.contains_key(new_order[p])
            &&& index[new_order[p]] == new_slots[p]
        } by {
            let q = if p < i { p } else { p + 1 };
            assert(new_order[p] == order[q]);
            assert(new_slots[p] == slots[q]);
            assert(order[q] != order[i]);
            assert(old_index.contains_key(order[q]));
            assert(old_index[order[q]] == slots[q]);
            assert(index.contains_key(order[q]));
        }
        assert forall|k: u64| #[trigger] index.contains_key(k) implies new_order.contains(k) by {
            let q = choose|q: int| 0 <= q < order.len() && order[q] == k;
            let p = if q < i { q } else { q - 1 };
            assert(new_order[p] == k);
        }
        assert forall|j: int| 0 <= j < new_free.len() implies #[trigger] new_free[j] < nodes_len by {
            if j < free.len() {
                assert(new_free[j] == free[j]);
            }
        }
        assert(new_free.no_duplicates()) by {
            assert forall|a: int, b: int|
                0 <= a < new_free.len() && 0 <= b < new_free.len() && a != b implies new_free[a]
                != new_free[b] by {
                if a < free.len() {
                    assert(new_free[a] == free[a]);
                }
                if b < free.len() {
                    assert(new_free[b] == free[b]);
                }
            }
        }
        assert(new_free.disjoint(new_slots)) by {
            assert forall|a: int, b: int|
                0 <= a < new_free.len() && 0 <= b < new_slots.len() implies new_free[a]
                != new_slots[b] by {
                let q = if b < i { b } else { b + 1 };
                assert(new_slots[b] == slots[q]);
                assert(slots[q] != slots[i]);
                if a < free.len() {
                    assert(new_free[a] == free[a]);
                } else {
                    assert(new_free[a] == slots[i]);
                }
            }
        }
    }

    /// Removes `key` from the list; nothing happens when it is absent.
    #[verifier::spinoff_prover]
    pub fn remove(&mut self, key: u64)
        requires
            old(self).wf(),
        ensures
            final(self).wf(),
            final(self).view() == old(self).view().remove_value(key),
    {
        let ghost order = self.order@;
        let ghost slots = self.slots@;
        let ghost old_index = self.index@;
        let removed = self.index.remove(&key);
        match removed {
            Some(s) => {
                let ghost i = choose|i: int| 0 <= i < order.len() && order[i] == key;
                proof {
                    assert(order.contains(key));
                    assert(old_index[order[i]] == slots[i]);
                    Self::lemma_remove_value_at(order, i);
                    assert forall|p: int| 0 <= p < slots.len() implies #[trigger] slots[p]
                        < self.nodes@.len() by {
                        assert(slot_ok(self.nodes@, order, slots, p));
                    }
                    Self::lemma_after_detach(
                        old_index,
                        order,
                        slots,
                        self.free@,
                        self.nodes@.len(),
                        i,
                    );
                }
                self.unlink(s, Ghost(i));
                self.free.push(s);
            },
            None => {
                proof {
                    order.index_of_first_ensures(key);
                    assert(!order.contains(key));
                    assert(self.index@ == old_index);
                }
            },
        }
    }

    /// Removes and returns the least recently used key.
    pub fn pop_tail(&mut self) -> (r: Option<u64>)
        requires
            old(self).wf(),
        ensures
            final(self).wf(),
            old(self).view().len() == 0 ==> r is None && final(self).view() == old(self).view(),
            old(self).view().len() > 0 ==> r == Some(old(self).view().last()),
            old(self).view().len() > 0 ==> final(self).view() == old(self).view().drop_last(),
    {
        match self.tail {
            None => None,
            Some(t) => {
                let ghost order = self.order@;
                let ghost slots = self.slots@;
                let ghost old_index = self.index@;
                let ghost i = order.len() - 1;
                proof {
                    assert(slot_ok(self.nodes@, order, slots, i));
                    assert forall|p: int| 0 <= p < slots.len() implies #[trigger] slots[p]
                        < self.nodes@.len() by {
                        assert(slot_ok(self.nodes@, order, slots, p));
                    }
                    Self::lemma_after_detach(
                        old_index,
                        order,
                        slots,
                        self.free@,
                        self.nodes@.len(),
                        i,
                    );
                }
                let key = self.nodes[t].key;
                self.unlink(t, Ghost(i));
                self.index.remove(&key);
                self.free.push(t);
                proof {
                    assert(order.remove(i) =~= order.drop_last());
                }
                Some(key)
            },
        }
    }

    /// Removes every key.
    pub fn clear(&mut self)
        requires
            old(self).wf(),
        ensures
            final(self).wf(),
            final(self).view() == Seq::<u64>::empty(),
    {
        self.nodes.clear();
        self.free.clear();
        self.index.clear();
        self.head = None;
        self.tail = None;
        self.order = Ghost(Seq::empty());
        self.slots = Ghost(Seq::empty());
    }
}

} // verus!
