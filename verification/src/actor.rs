//! The rules of the store's single consumer: what each command does to the
//! pending-read registry, and which waiting readers it answers.
//!
//! The rules are stated once as spec functions over the registry's view and
//! once as executable functions that are proved to follow them. They are
//! generic in the type `R` of a reply slot: a slot is only ever moved, from
//! the command into the registry and from the registry into a resolution.
//!
//! The storage engine is not called from here. Each function takes what the
//! engine answered for the command at hand and is proved for every answer.

use crate::error::{StoreError, StoreResult};
use crate::registry::{every_queue_occupied, waiting_on, with_waiter, Registry};
use std::collections::VecDeque;
use vstd::prelude::*;

verus! {

/// A key of the store: any bytes, compared byte by byte.
pub type Key = Vec<u8>;

/// A value of the store: any bytes.
pub type Value = Vec<u8>;

/// What a waiting reader is told: the bytes found under its key, or the
/// engine's failure.
pub type Outcome = Result<Seq<u8>, StoreError>;

/// What the engine answered to a lookup, the bytes taken by view.
pub enum Found {
    /// The key holds these bytes.
    Value(Seq<u8>),
    /// The key holds nothing.
    Nothing,
    /// The lookup itself failed.
    Failed(StoreError),
}

/// The engine's answer to a lookup, as a `Found`.
pub open spec fn found_view(found: StoreResult<Option<Value>>) -> Found {
    match found {
        Ok(Some(value)) => Found::Value(value@),
        Ok(None) => Found::Nothing,
        Err(error) => Found::Failed(error),
    }
}

/// A reply slot together with the outcome that it is to be fulfilled with.
pub struct Resolution<R> {
    pub reply: R,
    pub outcome: StoreResult<Value>,
}

impl<R> View for Resolution<R> {
    type V = (R, Outcome);

    open spec fn view(&self) -> (R, Outcome) {
        (
            self.reply,
            match self.outcome {
                Ok(value) => Ok(value@),
                Err(error) => Err(error),
            },
        )
    }
}

/// The views of a list of resolutions, in the same order.
pub open spec fn resolution_views<R>(resolutions: Seq<Resolution<R>>) -> Seq<(R, Outcome)> {
    Seq::new(resolutions.len(), |i: int| resolutions[i]@)
}

/// The view of a resolution that may be absent.
pub open spec fn resolution_view<R>(resolution: Option<Resolution<R>>) -> Option<(R, Outcome)> {
    match resolution {
        Some(r) => Some(r@),
        None => None,
    }
}

/// The registry after a write to `key`. A write that the engine applied
/// clears the key's queue. One that the engine refused changes nothing.
pub open spec fn pending_after_write<R>(
    pending: Map<Seq<u8>, Seq<R>>,
    key: Seq<u8>,
    applied: bool,
) -> Map<Seq<u8>, Seq<R>> {
    if applied {
        pending.remove(key)
    } else {
        pending
    }
}

/// The readers that a write of `value` to `key` answers, in the order in
/// which they are answered. A write that the engine applied answers every
/// reader waiting on the key with the written bytes, oldest reader first.
/// One that the engine refused answers nobody.
pub open spec fn woken_by_write<R>(
    pending: Map<Seq<u8>, Seq<R>>,
    key: Seq<u8>,
    value: Seq<u8>,
    applied: bool,
) -> Seq<(R, Outcome)> {
    if applied {
        Seq::new(waiting_on(pending, key).len(), |i: int| (waiting_on(pending, key)[i], Ok(value)))
    } else {
        Seq::empty()
    }
}

/// The registry after a blocking read of `key` whose lookup brought `found`.
/// The reader joins the key's queue only where the key holds nothing.
pub open spec fn pending_after_notify_read<R>(
    pending: Map<Seq<u8>, Seq<R>>,
    key: Seq<u8>,
    reply: R,
    found: Found,
) -> Map<Seq<u8>, Seq<R>> {
    match found {
        Found::Nothing => with_waiter(pending, key, reply),
        _ => pending,
    }
}

/// What a blocking read is told at once: the bytes where the key holds
/// some, the failure where the lookup failed, and nothing yet where the key
/// holds nothing.
pub open spec fn answered_at_once<R>(reply: R, found: Found) -> Option<(R, Outcome)> {
    match found {
        Found::Value(value) => Some((reply, Ok(value))),
        Found::Nothing => None,
        Found::Failed(error) => Some((reply, Err(error))),
    }
}

/// A copy of `bytes`.
pub fn copy_bytes(bytes: &Vec<u8>) -> (copy: Vec<u8>)
    ensures
        copy@ == bytes@,
{
    let mut copy: Vec<u8> = Vec::new();
    let mut i: usize = 0;
    while i < bytes.len()
        invariant
            i <= bytes.len(),
            copy@ == bytes@.subrange(0, i as int),
        decreases bytes.len() - i,
    {
        copy.push(bytes[i]);
        i += 1;
        assert(copy@ =~= bytes@.subrange(0, i as int));
    }
    assert(bytes@.subrange(0, bytes.len() as int) =~= bytes@);
    copy
}

/// Applies the registry's part of a write of `value` to `key`, where
/// `applied` says whether the engine took the write. Returns the readers to
/// answer, each with its own copy of the value, oldest reader first.
pub fn on_write<R>(registry: &mut Registry<R>, key: &Key, value: &Value, applied: bool) -> (woken:
    Vec<Resolution<R>>)
    ensures
        final(registry)@ == pending_after_write(old(registry)@, key@, applied),
        resolution_views(woken@) == woken_by_write(old(registry)@, key@, value@, applied),
        woken@.len() == woken_by_write(old(registry)@, key@, value@, applied).len(),
        every_queue_occupied(final(registry)@),
{
    let mut woken: Vec<Resolution<R>> = Vec::new();
    if !applied {
        registry.keeps_queues_occupied();
        assert(resolution_views(woken@) =~= woken_by_write(
            old(registry)@,
            key@,
            value@,
            applied,
        ));
        return woken;
    }
    let mut queue: VecDeque<R> = registry.drain_and_clear(key);
    let ghost waiters = queue@;
    loop
        invariant
            woken@.len() + queue@.len() == waiters.len(),
            queue@ == waiters.subrange(woken@.len() as int, waiters.len() as int),
            forall|i: int|
                0 <= i < woken@.len() ==> (#[trigger] woken@[i])@ == (waiters[i], Ok::<
                    Seq<u8>,
                    StoreError,
                >(value@)),
        ensures
            woken@.len() == waiters.len(),
            forall|i: int|
                0 <= i < woken@.len() ==> (#[trigger] woken@[i])@ == (waiters[i], Ok::<
                    Seq<u8>,
                    StoreError,
                >(value@)),
        decreases queue@.len(),
    {
        match queue.pop_front() {
            Some(reply) => {
                woken.push(Resolution { reply, outcome: Ok(copy_bytes(value)) });
                assert(queue@ =~= waiters.subrange(woken@.len() as int, waiters.len() as int));
            },
            None => {
                break ;
            },
        }
    }
    assert(resolution_views(woken@) =~= woken_by_write(old(registry)@, key@, value@, applied));
    woken
}

/// Applies a blocking read of `key`, where `found` is what the engine
/// answered to the lookup. Where the key holds nothing, the reader's slot
/// joins the key's queue and nothing is returned. Otherwise the registry is
/// left alone and the slot comes back with the outcome to fulfil it with.
pub fn on_notify_read<R>(
    registry: &mut Registry<R>,
    key: Key,
    reply: R,
    found: StoreResult<Option<Value>>,
) -> (answer: Option<Resolution<R>>)
    ensures
        final(registry)@ == pending_after_notify_read(
            old(registry)@,
            key@,
            reply,
            found_view(found),
        ),
        resolution_view(answer) == answered_at_once(reply, found_view(found)),
        every_queue_occupied(final(registry)@),
{
    registry.keeps_queues_occupied();
    match found {
        Ok(Some(value)) => Some(Resolution { reply, outcome: Ok(value) }),
        Ok(None) => {
            registry.register(key, reply);
            None
        },
        Err(error) => Some(Resolution { reply, outcome: Err(error) }),
    }
}

} // verus!
