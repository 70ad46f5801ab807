use advcache::lru::LRUList;

#[test]
fn new_list_is_empty() {
    let l = LRUList::new();
    assert!(l.is_empty());
    assert_eq!(l.peek_tail(), None);
}

#[test]
fn pop_tail_returns_least_recently_used() {
    let mut l = LRUList::new();
    l.push_front(1);
    l.push_front(2);
    l.push_front(3);
    l.move_to_front(1);
    assert_eq!(l.peek_tail(), Some(2));
    assert_eq!(l.pop_tail(), Some(2));
    assert_eq!(l.pop_tail(), Some(3));
    assert_eq!(l.pop_tail(), Some(1));
    assert_eq!(l.pop_tail(), None);
    assert!(l.is_empty());
}

#[test]
fn pushing_a_listed_key_moves_it() {
    let mut l = LRUList::new();
    l.push_front(1);
    l.push_front(2);
    l.push_front(1);
    assert_eq!(l.pop_tail(), Some(2));
    assert_eq!(l.pop_tail(), Some(1));
    assert_eq!(l.pop_tail(), None);
}

#[test]
fn remove_and_clear() {
    let mut l = LRUList::new();
    for k in 0..10u64 {
        l.push_front(k);
    }
    l.remove(0);
    l.remove(42);
    assert_eq!(l.peek_tail(), Some(1));
    l.clear();
    assert!(l.is_empty());
    l.push_front(9);
    assert_eq!(l.pop_tail(), Some(9));
}
