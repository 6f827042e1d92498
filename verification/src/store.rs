//! The store's single consumer, with its reply slots made of one-shot
//! channels.
//!
//! `Store` holds what the consumer owns besides the storage engine: the
//! registry of blocked readers. Its three methods are the three commands. The
//! caller runs the engine and hands each method what the engine answered; the
//! method updates the registry and fulfils the reply slots that are due.

use crate::actor::{
    found_view, on_notify_read, on_write, pending_after_notify_read, pending_after_write,
    woken_by_write, Key, Resolution, Value,
};
use crate::error::StoreResult;
use crate::registry::{every_queue_occupied, waiting_on, Registry};
use tokio::sync::oneshot::error::RecvError;
use tokio::sync::oneshot::{Receiver, Sender};
use vstd::prelude::*;

verus! {

/// `tokio::sync::oneshot::Sender`, the sending half of a one-shot channel.
/// Nothing inside it is visible here: a value of this type is only moved
/// about and, once, sent on.
#[verifier::external_type_specification]
#[verifier::external_body]
#[verifier::reject_recursive_types(T)]
pub struct ExSender<T>(Sender<T>);

/// `tokio::sync::oneshot::Receiver`, the receiving half of a one-shot
/// channel, equally opaque.
#[verifier::external_type_specification]
#[verifier::external_body]
#[verifier::reject_recursive_types(T)]
pub struct ExReceiver<T>(Receiver<T>);

/// `tokio::sync::oneshot::error::RecvError`, which awaiting a receiving half
/// yields when the sending half was dropped unused. Opaque as well.
#[verifier::external_type_specification]
#[verifier::external_body]
pub struct ExRecvError(RecvError);

/// `tokio::sync::oneshot::Sender::send` hands `value` to the receiving half.
/// Whether the receiver is still there is not known in advance, so nothing is
/// claimed about which result comes back; only that a refusal returns the
/// very value that was offered.
pub assume_specification<T>[ Sender::<T>::send ](slot: Sender<T>, value: T) -> (sent: Result<(), T>)
    ensures
        sent matches Err(back) ==> back == value,
;

/// `tokio::sync::oneshot::channel` makes a fresh pair of connected halves.
/// Nothing is claimed of them.
pub assume_specification<T>[ tokio::sync::oneshot::channel::<T> ]() -> (halves: (
    Sender<T>,
    Receiver<T>,
));

/// How many commands the store's mailbox holds before a sender has to wait.
pub const MAILBOX_CAPACITY: usize = 100;

/// The slot through which a plain read is answered.
pub type ReadReply = Sender<StoreResult<Option<Value>>>;

/// The slot through which a blocking read is answered.
pub type NotifyReply = Sender<StoreResult<Value>>;

/// A command to the store's consumer.
pub enum StoreCommand {
    /// Store the value under the key.
    Write(Key, Value),
    /// Report what the key holds now, through the slot.
    Read(Key, ReadReply),
    /// Report what the key holds, through the slot, as soon as it holds
    /// something.
    NotifyRead(Key, NotifyReply),
}

impl StoreCommand {
    /// The key that the command is about.
    pub open spec fn spec_key(&self) -> Key {
        match self {
            StoreCommand::Write(key, _) => *key,
            StoreCommand::Read(key, _) => *key,
            StoreCommand::NotifyRead(key, _) => *key,
        }
    }

    /// The key that the command is about.
    pub fn key(&self) -> (key: &Key)
        ensures
            *key == self.spec_key(),
    {
        match self {
            StoreCommand::Write(key, _) => key,
            StoreCommand::Read(key, _) => key,
            StoreCommand::NotifyRead(key, _) => key,
        }
    }

    /// A plain read of `key`, with the receiving half on which its answer
    /// will come.
    pub fn read(key: Key) -> (request: (StoreCommand, Receiver<StoreResult<Option<Value>>>))
        ensures
            request.0 is Read,
            request.0.spec_key() == key,
    {
        let (reply, answer) = tokio::sync::oneshot::channel();
        (StoreCommand::Read(key, reply), answer)
    }

    /// A blocking read of `key`, with the receiving half on which its
    /// answer will come.
    pub fn notify_read(key: Key) -> (request: (StoreCommand, Receiver<StoreResult<Value>>))
        ensures
            request.0 is NotifyRead,
            request.0.spec_key() == key,
    {
        let (reply, answer) = tokio::sync::oneshot::channel();
        (StoreCommand::NotifyRead(key, reply), answer)
    }
}

/// What the consumer owns besides the engine: the blocked readers.
pub struct Store {
    obligations: Registry<NotifyReply>,
}

impl View for Store {
    type V = Map<Seq<u8>, Seq<NotifyReply>>;

    closed spec fn view(&self) -> Map<Seq<u8>, Seq<NotifyReply>> {
        self.obligations@
    }
}

/// Fulfils each slot with its outcome, first to last. A reader that has
/// gone away is passed over.
fn deliver(resolutions: Vec<Resolution<NotifyReply>>) {
    for resolution in resolutions {
        let Resolution { reply, outcome } = resolution;
        let _ = reply.send(outcome);
    }
}

impl Store {
    /// A store on which nobody waits yet.
    pub fn new() -> (store: Store)
        ensures
            store@ == Map::<Seq<u8>, Seq<NotifyReply>>::empty(),
            every_queue_occupied(store@),
    {
        Store { obligations: Registry::new() }
    }

    /// The registry's part of `Write(key, value)`, where `applied` is what
    /// the engine answered to the put. After a put that succeeded, every
    /// reader blocked on the key is sent the written value, oldest reader
    /// first, and the key's queue is gone. After one that failed nothing is
    /// sent and every reader stays where it was. Returns the number of
    /// readers that were sent the value.
    pub fn write(&mut self, key: Key, value: Value, applied: StoreResult<()>) -> (woken: usize)
        ensures
            final(self)@ == pending_after_write(old(self)@, key@, applied is Ok),
            woken == woken_by_write(old(self)@, key@, value@, applied is Ok).len(),
            every_queue_occupied(final(self)@),
    {
        let resolutions = on_write(&mut self.obligations, &key, &value, applied.is_ok());
        let woken: usize = resolutions.len();
        deliver(resolutions);
        woken
    }

    /// `Read(key, reply)`, where `found` is what the engine answered to the
    /// lookup: the answer is sent on as it is, and no reader is added to or
    /// taken from the registry. Where the reader has gone away, the answer
    /// comes back in `Err`.
    pub fn read(&self, reply: ReadReply, found: StoreResult<Option<Value>>) -> (sent: Result<
        (),
        StoreResult<Option<Value>>,
    >)
        ensures
            sent matches Err(back) ==> back == found,
    {
        reply.send(found)
    }

    /// `NotifyRead(key, reply)`, where `found` is what the engine answered
    /// to the lookup. Where the key holds a value, or the lookup failed, that
    /// is sent to the reader at once and the registry is left alone. Where
    /// the key holds nothing, nothing is sent and the reader joins the end of
    /// the key's queue. Returns whether the reader was left waiting.
    pub fn notify_read(
        &mut self,
        key: Key,
        reply: NotifyReply,
        found: StoreResult<Option<Value>>,
    ) -> (waits: bool)
        ensures
            final(self)@ == pending_after_notify_read(old(self)@, key@, reply, found_view(found)),
            waits == (found_view(found) is Nothing),
            every_queue_occupied(final(self)@),
    {
        match on_notify_read(&mut self.obligations, key, reply, found) {
            Some(Resolution { reply, outcome }) => {
                let _ = reply.send(outcome);
                false
            },
            None => true,
        }
    }

    /// The number of readers blocked on `key`.
    pub fn waiting(&self, key: &Key) -> (n: usize)
        ensures
            n == waiting_on(self@, key@).len(),
            n > 0 <==> self@.contains_key(key@),
    {
        self.obligations.waiters(key)
    }
}

} // verus!
