use std::collections::VecDeque;
use store::registry::{same_bytes, Registry};

fn key(text: &str) -> Vec<u8> {
    text.as_bytes().to_vec()
}

fn drained(queue: VecDeque<u64>) -> Vec<u64> {
    queue.into_iter().collect()
}

#[test]
fn new_registry_holds_nobody() {
    let registry: Registry<u64> = Registry::new();
    assert_eq!(registry.len(), 0);
    assert_eq!(registry.waiters(&key("a")), 0);
}

#[test]
fn register_creates_the_entry_on_first_use() {
    let mut registry: Registry<u64> = Registry::new();
    registry.register(key("a"), 7);
    assert_eq!(registry.len(), 1);
    assert_eq!(registry.waiters(&key("a")), 1);
    assert_eq!(registry.waiters(&key("b")), 0);
}

#[test]
fn register_appends_in_arrival_order() {
    let mut registry: Registry<u64> = Registry::new();
    registry.register(key("a"), 1);
    registry.register(key("b"), 10);
    registry.register(key("a"), 2);
    registry.register(key("a"), 3);
    assert_eq!(registry.len(), 2);
    assert_eq!(registry.waiters(&key("a")), 3);
    assert_eq!(drained(registry.drain_and_clear(&key("a"))), vec![1, 2, 3]);
    assert_eq!(drained(registry.drain_and_clear(&key("b"))), vec![10]);
}

#[test]
fn drain_and_clear_leaves_no_entry_behind() {
    let mut registry: Registry<u64> = Registry::new();
    registry.register(key("a"), 1);
    registry.register(key("b"), 2);
    registry.register(key("c"), 3);
    assert_eq!(drained(registry.drain_and_clear(&key("a"))), vec![1]);
    assert_eq!(registry.len(), 2);
    assert_eq!(registry.waiters(&key("a")), 0);
    assert_eq!(registry.waiters(&key("b")), 1);
    assert_eq!(registry.waiters(&key("c")), 1);
    assert!(registry.drain_and_clear(&key("a")).is_empty());
    assert_eq!(registry.len(), 2);
}

#[test]
fn drain_of_an_unknown_key_is_empty_and_changes_nothing() {
    let mut registry: Registry<u64> = Registry::new();
    registry.register(key("a"), 1);
    assert!(registry.drain_and_clear(&key("zz")).is_empty());
    assert_eq!(registry.len(), 1);
    assert_eq!(registry.waiters(&key("a")), 1);
}

#[test]
fn a_drained_key_can_be_waited_on_again() {
    let mut registry: Registry<u64> = Registry::new();
    registry.register(key("a"), 1);
    assert_eq!(drained(registry.drain_and_clear(&key("a"))), vec![1]);
    registry.register(key("a"), 2);
    assert_eq!(drained(registry.drain_and_clear(&key("a"))), vec![2]);
}

#[test]
fn keys_are_compared_byte_by_byte() {
    let mut registry: Registry<u64> = Registry::new();
    registry.register(vec![], 1);
    registry.register(vec![0], 2);
    registry.register(vec![0, 0], 3);
    registry.register(vec![0], 4);
    assert_eq!(registry.len(), 3);
    assert_eq!(drained(registry.drain_and_clear(&vec![0])), vec![2, 4]);
    assert_eq!(drained(registry.drain_and_clear(&vec![])), vec![1]);
    assert_eq!(drained(registry.drain_and_clear(&vec![0, 0])), vec![3]);
    assert_eq!(registry.len(), 0);
}

#[test]
fn same_bytes_tells_equal_from_unequal() {
    assert!(same_bytes(&vec![], &vec![]));
    assert!(same_bytes(&vec![1, 2, 3], &vec![1, 2, 3]));
    assert!(!same_bytes(&vec![1, 2, 3], &vec![1, 2, 4]));
    assert!(!same_bytes(&vec![1, 2, 3], &vec![1, 2]));
    assert!(!same_bytes(&vec![], &vec![0]));
}
