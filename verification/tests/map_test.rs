use advcache::map::{ShardedMap, NUM_OF_SHARDS};
use advcache::shard::Value;
use tokio_util::sync::CancellationToken;

#[derive(Clone, Debug, PartialEq)]
struct Item {
    key: u64,
    weight: i64,
}

impl Value for Item {
    fn key(&self) -> u64 {
        self.key
    }
    fn spec_weight(&self) -> i64 {
        self.weight
    }
    fn weight(&self) -> i64 {
        self.weight
    }
    fn clear_refresh_queued(&self) {}
    fn touched_at(&self) -> i64 {
        0
    }
    fn fresh_at(&self) -> i64 {
        0
    }
}

#[test]
fn read_after_write_and_remove() {
    let mut m: ShardedMap<Item> = ShardedMap::new(CancellationToken::new(), true);
    assert!(m.is_empty());
    m.set(10, Item { key: 10, weight: 5 });
    m.set(10 + NUM_OF_SHARDS as u64, Item { key: 1034, weight: 7 });
    assert_eq!(m.get(10), Some(Item { key: 10, weight: 5 }));
    assert_eq!(m.len(), 2);
    assert_eq!(m.mem(), 12);
    m.set(10, Item { key: 10, weight: 1 });
    assert_eq!(m.get(10), Some(Item { key: 10, weight: 1 }));
    assert_eq!(m.len(), 2);
    assert_eq!(m.mem(), 8);
    let (freed, removed) = m.remove(10);
    assert!(removed);
    assert_eq!(freed, 1);
    assert_eq!(m.get(10), None);
    assert_eq!(m.get(1034), Some(Item { key: 1034, weight: 7 }));
    assert_eq!(m.len(), 1);
}

#[test]
fn clear_empties_every_shard() {
    let mut m: ShardedMap<Item> = ShardedMap::new(CancellationToken::new(), false);
    for k in 0..100u64 {
        m.set(k, Item { key: k, weight: 1 });
    }
    assert_eq!(m.len(), 100);
    m.clear();
    assert!(m.is_empty());
    assert_eq!(m.mem(), 0);
    assert_eq!(m.get(3), None);
    assert!(!m.is_listing());
}

#[test]
fn clear_stops_when_shutdown_is_requested() {
    let token = CancellationToken::new();
    let mut m: ShardedMap<Item> = ShardedMap::new(token.clone(), true);
    m.set(1, Item { key: 1, weight: 1 });
    token.cancel();
    m.clear();
    assert_eq!(m.get(1), Some(Item { key: 1, weight: 1 }));
}

#[test]
fn shards_are_chosen_by_the_low_bits() {
    let mut m: ShardedMap<Item> = ShardedMap::new(CancellationToken::new(), true);
    m.set(5, Item { key: 5, weight: 2 });
    assert_eq!(m.shard(5).len(), 1);
    assert_eq!(m.shard(5 + NUM_OF_SHARDS as u64).len(), 1);
    assert_eq!(m.shard_by_index(5).len(), 1);
    assert_eq!(m.shard_by_index(6).len(), 0);
    m.add_mem(5, 3);
    assert_eq!(m.mem(), 5);
    assert_eq!(m.shard(5).weight(), 5);
}

#[test]
fn set_then_remove_restores_the_counters() {
    let mut m: ShardedMap<Item> = ShardedMap::new(CancellationToken::new(), false);
    m.set(1, Item { key: 1, weight: 9 });
    let (b0, n0) = (m.mem(), m.len());
    m.set(77, Item { key: 77, weight: 40 });
    assert_eq!(m.mem(), b0 + 40);
    assert_eq!(m.remove(77), (40, true));
    assert_eq!((m.mem(), m.len()), (b0, n0));
    assert_eq!(m.get(77), None);
    assert_eq!(m.remove(77), (0, false));
    assert_eq!((m.mem(), m.len()), (b0, n0));
}
