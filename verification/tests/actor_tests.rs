use store::actor::{copy_bytes, on_notify_read, on_write, Resolution};
use store::error::StoreError;
use store::registry::Registry;

fn key(text: &str) -> Vec<u8> {
    text.as_bytes().to_vec()
}

fn told(resolutions: Vec<Resolution<u64>>) -> Vec<(u64, Result<Vec<u8>, StoreError>)> {
    resolutions.into_iter().map(|r| (r.reply, r.outcome)).collect()
}

#[test]
fn a_blocking_read_of_an_absent_key_waits() {
    let mut registry: Registry<u64> = Registry::new();
    let answer = on_notify_read(&mut registry, key("a"), 1, Ok(None));
    assert!(answer.is_none());
    assert_eq!(registry.waiters(&key("a")), 1);
}

#[test]
fn a_blocking_read_of_a_present_key_is_answered_at_once() {
    let mut registry: Registry<u64> = Registry::new();
    let answer = on_notify_read(&mut registry, key("a"), 1, Ok(Some(key("1"))));
    let answer = answer.unwrap();
    assert_eq!(answer.reply, 1);
    assert_eq!(answer.outcome, Ok(key("1")));
    assert_eq!(registry.len(), 0);
}

#[test]
fn a_blocking_read_that_meets_an_engine_failure_is_answered_at_once() {
    let mut registry: Registry<u64> = Registry::new();
    let failure = StoreError::Engine("IO error: disk gone".to_string());
    let answer = on_notify_read(&mut registry, key("a"), 1, Err(failure.clone()));
    let answer = answer.unwrap();
    assert_eq!(answer.reply, 1);
    assert_eq!(answer.outcome, Err(failure));
    assert_eq!(registry.len(), 0);
}

#[test]
fn an_applied_write_wakes_the_waiters_of_its_key_in_arrival_order() {
    let mut registry: Registry<u64> = Registry::new();
    assert!(on_notify_read(&mut registry, key("k"), 11, Ok(None)).is_none());
    assert!(on_notify_read(&mut registry, key("other"), 99, Ok(None)).is_none());
    assert!(on_notify_read(&mut registry, key("k"), 12, Ok(None)).is_none());
    assert!(on_notify_read(&mut registry, key("k"), 13, Ok(None)).is_none());
    let woken = told(on_write(&mut registry, &key("k"), &key("v"), true));
    assert_eq!(
        woken,
        vec![(11, Ok(key("v"))), (12, Ok(key("v"))), (13, Ok(key("v")))]
    );
    assert_eq!(registry.waiters(&key("k")), 0);
    assert_eq!(registry.waiters(&key("other")), 1);
    assert_eq!(registry.len(), 1);
}

#[test]
fn waiters_get_the_value_of_the_first_write_only() {
    let mut registry: Registry<u64> = Registry::new();
    assert!(on_notify_read(&mut registry, key("k"), 1, Ok(None)).is_none());
    assert!(on_notify_read(&mut registry, key("k"), 2, Ok(None)).is_none());
    let first = told(on_write(&mut registry, &key("k"), &key("v1"), true));
    let second = told(on_write(&mut registry, &key("k"), &key("v2"), true));
    assert_eq!(first, vec![(1, Ok(key("v1"))), (2, Ok(key("v1")))]);
    assert!(second.is_empty());
}

#[test]
fn a_refused_write_wakes_nobody_and_keeps_every_queue() {
    let mut registry: Registry<u64> = Registry::new();
    assert!(on_notify_read(&mut registry, key("k1"), 1, Ok(None)).is_none());
    assert!(on_notify_read(&mut registry, key("k2"), 2, Ok(None)).is_none());
    let woken = told(on_write(&mut registry, &key("k1"), &key("v1"), false));
    assert!(woken.is_empty());
    assert_eq!(registry.waiters(&key("k1")), 1);
    assert_eq!(registry.waiters(&key("k2")), 1);
    let later = told(on_write(&mut registry, &key("k2"), &key("v2"), true));
    assert_eq!(later, vec![(2, Ok(key("v2")))]);
    let last = told(on_write(&mut registry, &key("k1"), &key("v3"), true));
    assert_eq!(last, vec![(1, Ok(key("v3")))]);
}

#[test]
fn a_write_to_a_key_without_waiters_wakes_nobody() {
    let mut registry: Registry<u64> = Registry::new();
    assert!(on_notify_read(&mut registry, key("a"), 1, Ok(None)).is_none());
    let woken = told(on_write(&mut registry, &key("b"), &key("v"), true));
    assert!(woken.is_empty());
    assert_eq!(registry.waiters(&key("a")), 1);
}

#[test]
fn a_waiter_outlasts_events_on_other_keys() {
    let mut registry: Registry<u64> = Registry::new();
    assert!(on_notify_read(&mut registry, key("k"), 1, Ok(None)).is_none());
    assert!(told(on_write(&mut registry, &key("x"), &key("1"), true)).is_empty());
    assert!(on_notify_read(&mut registry, key("x"), 5, Ok(Some(key("1")))).is_some());
    assert!(on_notify_read(&mut registry, key("y"), 6, Ok(None)).is_none());
    assert!(told(on_write(&mut registry, &key("k"), &key("no"), false)).is_empty());
    assert!(on_notify_read(&mut registry, key("k"), 2, Ok(None)).is_none());
    let woken = told(on_write(&mut registry, &key("k"), &key("yes"), true));
    assert_eq!(woken, vec![(1, Ok(key("yes"))), (2, Ok(key("yes")))]);
}

#[test]
fn an_empty_value_is_a_value() {
    let mut registry: Registry<u64> = Registry::new();
    assert!(on_notify_read(&mut registry, vec![], 1, Ok(None)).is_none());
    let woken = told(on_write(&mut registry, &vec![], &vec![], true));
    assert_eq!(woken, vec![(1, Ok(vec![]))]);
    let answer = on_notify_read(&mut registry, vec![], 2, Ok(Some(vec![]))).unwrap();
    assert_eq!(answer.outcome, Ok(vec![]));
}

#[test]
fn copy_bytes_copies() {
    assert_eq!(copy_bytes(&vec![]), Vec::<u8>::new());
    assert_eq!(copy_bytes(&vec![0, 255, 7]), vec![0, 255, 7]);
}
