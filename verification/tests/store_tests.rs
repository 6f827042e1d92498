use std::collections::HashMap;
use store::actor::{Key, Value};
use store::error::{settle, StoreError, StoreResult};
use store::store::{Store, StoreCommand, MAILBOX_CAPACITY};
use tokio::sync::oneshot::error::TryRecvError;
use tokio::sync::oneshot::{channel, Receiver};

fn bytes(text: &str) -> Vec<u8> {
    text.as_bytes().to_vec()
}

/// What the consumer does with one command, with a map in memory for an engine.
fn serve(store: &mut Store, engine: &mut HashMap<Key, Value>, command: StoreCommand) {
    match command {
        StoreCommand::Write(key, value) => {
            engine.insert(key.clone(), value.clone());
            store.write(key, value, Ok(()));
        }
        StoreCommand::Read(key, reply) => {
            let found = Ok(engine.get(&key).cloned());
            let _ = store.read(reply, found);
        }
        StoreCommand::NotifyRead(key, reply) => {
            let found = Ok(engine.get(&key).cloned());
            store.notify_read(key, reply, found);
        }
    }
}

fn put(store: &mut Store, engine: &mut HashMap<Key, Value>, key: &str, value: &str) {
    serve(store, engine, StoreCommand::Write(bytes(key), bytes(value)));
}

fn get(store: &mut Store, engine: &mut HashMap<Key, Value>, key: &str) -> StoreResult<Option<Value>> {
    let (command, mut answer) = StoreCommand::read(bytes(key));
    serve(store, engine, command);
    settle(answer.try_recv().ok())
}

fn ask(
    store: &mut Store,
    engine: &mut HashMap<Key, Value>,
    key: &str,
) -> Receiver<StoreResult<Value>> {
    let (command, answer) = StoreCommand::notify_read(bytes(key));
    serve(store, engine, command);
    answer
}

#[test]
fn create_store() {
    let store = Store::new();
    assert_eq!(store.waiting(&bytes(".db_test_create_store")), 0);
}

#[test]
fn test_new() {
    let mut store = Store::new();
    let mut engine = HashMap::new();
    assert!(engine.is_empty());
    assert_eq!(get(&mut store, &mut engine, "test_path"), Ok(None));
}

#[test]
fn test_put() {
    let mut store = Store::new();
    let mut engine = HashMap::new();
    put(&mut store, &mut engine, "key", "value");
    assert_eq!(engine.get(&bytes("key")), Some(&bytes("value")));
}

#[test]
fn test_get() {
    let mut store = Store::new();
    let mut engine = HashMap::new();
    put(&mut store, &mut engine, "key", "value");
    let value = get(&mut store, &mut engine, "key").unwrap();
    assert_eq!(value, Some(bytes("value")));
}

#[test]
fn a_blocked_reader_is_woken_by_the_write_and_a_later_read_sees_the_value() {
    let mut store = Store::new();
    let mut engine = HashMap::new();
    let mut pending = ask(&mut store, &mut engine, "a");
    assert_eq!(pending.try_recv(), Err(TryRecvError::Empty));
    assert_eq!(store.waiting(&bytes("a")), 1);
    put(&mut store, &mut engine, "a", "1");
    assert_eq!(pending.try_recv(), Ok(Ok(bytes("1"))));
    assert_eq!(store.waiting(&bytes("a")), 0);
    assert_eq!(get(&mut store, &mut engine, "a"), Ok(Some(bytes("1"))));
}

#[test]
fn the_second_of_two_writes_is_the_one_that_a_read_sees() {
    let mut store = Store::new();
    let mut engine = HashMap::new();
    put(&mut store, &mut engine, "x", "1");
    put(&mut store, &mut engine, "x", "2");
    assert_eq!(get(&mut store, &mut engine, "x"), Ok(Some(bytes("2"))));
}

#[test]
fn a_read_of_an_absent_key_is_no_error() {
    let mut store = Store::new();
    let mut engine = HashMap::new();
    assert_eq!(get(&mut store, &mut engine, "nowhere"), Ok(None));
    assert_eq!(store.waiting(&bytes("nowhere")), 0);
}

#[test]
fn a_read_that_returned_nothing_is_not_told_of_a_later_write() {
    let mut store = Store::new();
    let mut engine = HashMap::new();
    let (command, mut answer) = StoreCommand::read(bytes("k"));
    serve(&mut store, &mut engine, command);
    assert_eq!(answer.try_recv(), Ok(Ok(None)));
    put(&mut store, &mut engine, "k", "v");
    assert_eq!(answer.try_recv(), Err(TryRecvError::Closed));
}

#[test]
fn read_passes_on_whatever_the_engine_answered() {
    let store = Store::new();
    let (reply, mut answer) = channel();
    assert_eq!(store.read(reply, Ok(Some(bytes("v")))), Ok(()));
    assert_eq!(answer.try_recv(), Ok(Ok(Some(bytes("v")))));

    let (reply, mut answer) = channel();
    assert_eq!(store.read(reply, Ok(None)), Ok(()));
    assert_eq!(answer.try_recv(), Ok(Ok(None)));

    let failure = StoreError::Engine("Corruption: bad block".to_string());
    let (reply, mut answer) = channel();
    assert_eq!(store.read(reply, Err(failure.clone())), Ok(()));
    assert_eq!(answer.try_recv(), Ok(Err(failure)));
}

#[test]
fn read_hands_the_answer_back_where_the_reader_has_gone() {
    let store = Store::new();
    let (reply, answer) = channel();
    drop(answer);
    assert_eq!(
        store.read(reply, Ok(Some(bytes("v")))),
        Err(Ok(Some(bytes("v"))))
    );
}

#[test]
fn notify_read_of_a_present_key_answers_at_once() {
    let mut store = Store::new();
    let (reply, mut answer) = channel();
    let waits = store.notify_read(bytes("k"), reply, Ok(Some(bytes("v"))));
    assert!(!waits);
    assert_eq!(answer.try_recv(), Ok(Ok(bytes("v"))));
    assert_eq!(store.waiting(&bytes("k")), 0);
}

#[test]
fn notify_read_passes_on_an_engine_failure_at_once() {
    let mut store = Store::new();
    let failure = StoreError::Engine("IO error: no space".to_string());
    let (reply, mut answer) = channel();
    let waits = store.notify_read(bytes("k"), reply, Err(failure.clone()));
    assert!(!waits);
    assert_eq!(answer.try_recv(), Ok(Err(failure)));
    assert_eq!(store.waiting(&bytes("k")), 0);
}

#[test]
fn notify_read_of_an_absent_key_is_not_answered_before_a_write() {
    let mut store = Store::new();
    let (reply, mut answer) = channel();
    let waits = store.notify_read(bytes("k"), reply, Ok(None));
    assert!(waits);
    assert_eq!(answer.try_recv(), Err(TryRecvError::Empty));
    assert_eq!(store.write(bytes("other"), bytes("v"), Ok(())), 0);
    assert_eq!(answer.try_recv(), Err(TryRecvError::Empty));
    assert_eq!(store.write(bytes("k"), bytes("v"), Ok(())), 1);
    assert_eq!(answer.try_recv(), Ok(Ok(bytes("v"))));
}

#[test]
fn two_blocked_readers_get_the_value_of_the_first_write() {
    let mut store = Store::new();
    let (first_reply, mut first) = channel();
    let (second_reply, mut second) = channel();
    assert!(store.notify_read(bytes("k"), first_reply, Ok(None)));
    assert!(store.notify_read(bytes("k"), second_reply, Ok(None)));
    assert_eq!(store.waiting(&bytes("k")), 2);
    assert_eq!(store.write(bytes("k"), bytes("v1"), Ok(())), 2);
    assert_eq!(store.write(bytes("k"), bytes("v2"), Ok(())), 0);
    assert_eq!(first.try_recv(), Ok(Ok(bytes("v1"))));
    assert_eq!(second.try_recv(), Ok(Ok(bytes("v1"))));
}

#[test]
fn a_failed_write_leaves_the_readers_waiting() {
    let mut store = Store::new();
    let (reply_one, mut one) = channel();
    let (reply_two, mut two) = channel();
    assert!(store.notify_read(bytes("k1"), reply_one, Ok(None)));
    assert!(store.notify_read(bytes("k2"), reply_two, Ok(None)));
    let failure = StoreError::Engine("IO error: read-only".to_string());
    assert_eq!(store.write(bytes("k1"), bytes("v1"), Err(failure)), 0);
    assert_eq!(one.try_recv(), Err(TryRecvError::Empty));
    assert_eq!(two.try_recv(), Err(TryRecvError::Empty));
    assert_eq!(store.waiting(&bytes("k1")), 1);
    assert_eq!(store.waiting(&bytes("k2")), 1);
    assert_eq!(store.write(bytes("k2"), bytes("v2"), Ok(())), 1);
    assert_eq!(two.try_recv(), Ok(Ok(bytes("v2"))));
    assert_eq!(one.try_recv(), Err(TryRecvError::Empty));
}

#[test]
fn a_reader_that_went_away_does_not_hold_up_the_others() {
    let mut store = Store::new();
    let (gone_reply, gone) = channel();
    let (reply, mut answer) = channel();
    assert!(store.notify_read(bytes("k"), gone_reply, Ok(None)));
    assert!(store.notify_read(bytes("k"), reply, Ok(None)));
    drop(gone);
    assert_eq!(store.write(bytes("k"), bytes("v"), Ok(())), 2);
    assert_eq!(answer.try_recv(), Ok(Ok(bytes("v"))));
}

#[test]
fn a_store_that_goes_away_releases_its_readers_with_an_error() {
    let mut store = Store::new();
    let (reply, mut answer) = channel::<StoreResult<Value>>();
    assert!(store.notify_read(bytes("k"), reply, Ok(None)));
    drop(store);
    assert_eq!(settle(answer.try_recv().ok()), Err(StoreError::ChannelClosed));
}

#[test]
fn commands_carry_their_key_and_a_connected_slot() {
    let write = StoreCommand::Write(bytes("w"), bytes("v"));
    assert_eq!(write.key(), &bytes("w"));

    let (read, mut answer) = StoreCommand::read(bytes("r"));
    assert_eq!(read.key(), &bytes("r"));
    match read {
        StoreCommand::Read(key, reply) => {
            assert_eq!(key, bytes("r"));
            assert!(reply.send(Ok(None)).is_ok());
        }
        _ => panic!("not a read"),
    }
    assert_eq!(answer.try_recv(), Ok(Ok(None)));

    let (notify, mut answer) = StoreCommand::notify_read(bytes("n"));
    assert_eq!(notify.key(), &bytes("n"));
    match notify {
        StoreCommand::NotifyRead(key, reply) => {
            assert_eq!(key, bytes("n"));
            assert!(reply.send(Ok(bytes("v"))).is_ok());
        }
        _ => panic!("not a blocking read"),
    }
    assert_eq!(answer.try_recv(), Ok(Ok(bytes("v"))));
}

#[test]
fn the_mailbox_holds_a_hundred_commands() {
    assert_eq!(MAILBOX_CAPACITY, 100);
}

#[test]
fn settle_keeps_an_answer_and_reports_a_closed_store() {
    assert_eq!(settle(Some(Ok(5u8))), Ok(5u8));
    let failure = StoreError::Engine("IO error".to_string());
    assert_eq!(settle::<u8>(Some(Err(failure.clone()))), Err(failure));
    assert_eq!(settle::<u8>(None), Err(StoreError::ChannelClosed));
}

#[test]
fn each_error_describes_itself() {
    assert_eq!(
        StoreError::Engine("IO error: lock held".to_string()).message(),
        "storage engine: IO error: lock held"
    );
    assert_eq!(StoreError::ChannelClosed.message(), "store is closed");
    let failure = StoreError::Engine("x".to_string());
    assert_eq!(failure.clone(), failure);
    assert_eq!(StoreError::ChannelClosed.clone(), StoreError::ChannelClosed);
}
