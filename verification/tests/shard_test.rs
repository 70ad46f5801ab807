use advcache::shard::{Shard, Value};

#[derive(Clone, Debug, PartialEq)]
struct TestEntry {
    key: u64,
    weight: i64,
}

impl Value for TestEntry {
    fn key(&self) -> u64 {
        self.key
    }
    fn spec_weight(&self) -> i64 {
        self.weight
    }
    fn weight(&self) -> i64 {
        self.weight
    }
    fn clear_refresh_queued(&self) {}
    fn touched_at(&self) -> i64 {
        0
    }
    fn fresh_at(&self) -> i64 {
        0
    }
}

fn make_test_entry(key: u64) -> TestEntry {
    TestEntry { key, weight: 100 + key as i64 }
}

#[test]
fn test_lru_pop_tail_decrements_counters() {
    let mut shard: Shard<TestEntry> = Shard::new(0);
    shard.enable_lru();
    let entry1 = make_test_entry(1);
    let weight1 = entry1.weight();
    shard.set(1, entry1);
    let entry2 = make_test_entry(2);
    shard.set(2, entry2);
    let entry3 = make_test_entry(3);
    shard.set(3, entry3);
    let initial_mem = shard.weight();
    let initial_len = shard.len();
    let (freed_bytes, did_remove) = shard.evict_one_lru_tail();
    assert!(did_remove, "Should have removed an entry");
    assert_eq!(freed_bytes, weight1, "Freed bytes should match entry weight");
    assert_eq!(shard.weight(), initial_mem - weight1, "Shard mem should be decremented");
    assert_eq!(shard.len(), initial_len - 1, "Shard len should be decremented");
    assert!(shard.get(1).is_none(), "Entry 1 should be removed");
    assert!(shard.get(2).is_some(), "Entry 2 should still exist");
    assert!(shard.get(3).is_some(), "Entry 3 should still exist");
}

#[test]
fn test_lru_pop_tail() {
    let mut shard: Shard<TestEntry> = Shard::new(0);
    shard.enable_lru();
    let entry = make_test_entry(1);
    let weight = entry.weight();
    shard.set(1, entry);
    let (freed_bytes, did_remove) = shard.evict_one_lru_tail();
    assert!(did_remove);
    assert_eq!(freed_bytes, weight);
}

#[test]
fn test_lru_pop_tail_empty_shard() {
    let mut shard: Shard<TestEntry> = Shard::new(0);
    shard.enable_lru();
    let (freed_bytes, did_remove) = shard.evict_one_lru_tail();
    assert!(!did_remove, "Should not remove anything from empty shard");
    assert_eq!(freed_bytes, 0, "Should free 0 bytes");
}

#[test]
fn test_lru_pop_tail_lru_disabled() {
    let mut shard: Shard<TestEntry> = Shard::new(0);
    let entry = make_test_entry(1);
    shard.set(1, entry);
    let (freed_bytes, did_remove) = shard.evict_one_lru_tail();
    assert!(!did_remove, "Should not remove when LRU is disabled");
    assert_eq!(freed_bytes, 0, "Should free 0 bytes");
}

#[test]
fn test_lru_pop_tail_evicts_oldest() {
    let mut shard: Shard<TestEntry> = Shard::new(0);
    shard.enable_lru();
    shard.set(1, make_test_entry(1));
    shard.set(2, make_test_entry(2));
    shard.set(3, make_test_entry(3));
    let (_, did_remove1) = shard.evict_one_lru_tail();
    assert!(did_remove1);
    assert!(shard.get(1).is_none(), "Entry 1 should be evicted first");
    let (_, did_remove2) = shard.evict_one_lru_tail();
    assert!(did_remove2);
    assert!(shard.get(2).is_none(), "Entry 2 should be evicted second");
    let (_, did_remove3) = shard.evict_one_lru_tail();
    assert!(did_remove3);
    assert!(shard.get(3).is_none(), "Entry 3 should be evicted third");
    let (_, did_remove4) = shard.evict_one_lru_tail();
    assert!(!did_remove4, "Should not evict from empty shard");
}

#[test]
fn touched_entry_is_evicted_last() {
    let mut shard: Shard<TestEntry> = Shard::new(7);
    shard.enable_lru();
    shard.set(1, make_test_entry(1));
    shard.set(2, make_test_entry(2));
    shard.touch_lru(1);
    assert_eq!(shard.lru_peek_tail(), Some(2));
    let (_, removed) = shard.evict_one_lru_tail();
    assert!(removed);
    assert!(shard.get(2).is_none());
    assert!(shard.get(1).is_some());
    assert_eq!(shard.id(), 7);
}

#[test]
fn set_get_remove_roundtrip() {
    let mut shard: Shard<TestEntry> = Shard::new(0);
    let (bytes, len) = shard.set(5, make_test_entry(5));
    assert_eq!((bytes, len), (105, 1));
    assert_eq!(shard.get(5), Some(make_test_entry(5)));
    let (bytes, len) = shard.set(5, TestEntry { key: 5, weight: 10 });
    assert_eq!((bytes, len), (-95, 0));
    assert_eq!(shard.weight(), 10);
    let (freed, removed) = shard.remove(5);
    assert!(removed);
    assert_eq!(freed, 10);
    assert!(shard.get(5).is_none());
    assert_eq!(shard.len(), 0);
    let (freed, removed) = shard.remove(5);
    assert!(!removed);
    assert_eq!(freed, 0);
}

#[test]
fn clear_empties_the_shard() {
    let mut shard: Shard<TestEntry> = Shard::new(0);
    shard.enable_lru();
    shard.set(1, make_test_entry(1));
    shard.set(2, make_test_entry(2));
    let (freed, items) = shard.clear();
    assert_eq!((freed, items), (203, 2));
    assert_eq!(shard.len(), 0);
    assert_eq!(shard.weight(), 0);
    assert_eq!(shard.lru_peek_tail(), None);
}

#[test]
fn every_listed_key_has_an_item_to_evict() {
    let mut shard: Shard<TestEntry> = Shard::new(0);
    shard.set(7, make_test_entry(7));
    shard.enable_lru();
    for k in 1..=5u64 {
        shard.set(k, make_test_entry(k));
    }
    shard.remove(3);
    shard.set(2, make_test_entry(2));
    let mut evicted = Vec::new();
    loop {
        let (freed, hit) = shard.evict_one_lru_tail();
        if shard.lru_peek_tail().is_none() && !hit {
            break;
        }
        assert!(hit);
        assert!(freed > 0);
        evicted.push(freed - 100);
    }
    assert_eq!(evicted, vec![7, 1, 4, 5, 2]);
    assert_eq!(shard.len(), 0);
    assert_eq!(shard.weight(), 0);
}

#[test]
fn pop_tail_takes_the_item_and_its_counters() {
    let mut s: Shard<TestEntry> = Shard::new(0);
    s.enable_lru();
    s.set(1, make_test_entry(1));
    let popped = s.lru_pop_tail();
    assert_eq!(popped, Some((1, make_test_entry(1))));
    assert!(s.get(1).is_none());
    assert_eq!(s.len(), 0);
    assert_eq!(s.weight(), 0);
    assert_eq!(s.lru_pop_tail(), None);
}

#[test]
fn set_reports_the_byte_delta() {
    let mut s: Shard<TestEntry> = Shard::new(0);
    assert_eq!(s.set(4, TestEntry { key: 4, weight: 30 }), (30, 1));
    assert_eq!(s.set(4, TestEntry { key: 4, weight: 12 }), (-18, 0));
    assert_eq!(s.weight(), 12);
    assert_eq!(s.len(), 1);
    assert_eq!(s.remove(4), (12, true));
    assert_eq!(s.remove(4), (0, false));
    assert_eq!(s.weight(), 0);
}
