//! What holds of the consumer's rules over whole runs of commands.
//!
//! A run is a sequence of events: the commands in the order in which the
//! consumer met them, each with what the engine answered to it. The laws
//! below are stated over the same spec functions as the contracts of the
//! executable rules and of `Store`.

use crate::actor::{
    answered_at_once, pending_after_notify_read, pending_after_write, woken_by_write, Found,
    Outcome,
};
use crate::error::StoreError;
use crate::registry::{every_queue_occupied, waiting_on};
use vstd::prelude::*;

verus! {

/// One command as the consumer met it, with the engine's answer to it.
pub enum Event<R> {
    /// A write, and whether the engine applied it.
    Write { key: Seq<u8>, value: Seq<u8>, applied: bool },
    /// A plain read. Its answer goes to its own slot and leaves no trace.
    Read { key: Seq<u8> },
    /// A blocking read through the slot `reply`, and what the lookup found.
    NotifyRead { key: Seq<u8>, reply: R, found: Found },
}

/// The registry after one event.
pub open spec fn pending_after<R>(pending: Map<Seq<u8>, Seq<R>>, event: Event<R>) -> Map<
    Seq<u8>,
    Seq<R>,
> {
    match event {
        Event::Write { key, value, applied } => pending_after_write(pending, key, applied),
        Event::Read { key } => pending,
        Event::NotifyRead { key, reply, found } => pending_after_notify_read(
            pending,
            key,
            reply,
            found,
        ),
    }
}

/// The blocking readers that one event answers, in the order in which they
/// are answered.
pub open spec fn answered_by<R>(pending: Map<Seq<u8>, Seq<R>>, event: Event<R>) -> Seq<
    (R, Outcome),
> {
    match event {
        Event::Write { key, value, applied } => woken_by_write(pending, key, value, applied),
        Event::Read { key } => Seq::empty(),
        Event::NotifyRead { key, reply, found } => match answered_at_once(reply, found) {
            Some(answer) => seq![answer],
            None => Seq::empty(),
        },
    }
}

/// The registry after a run of events, first event first.
pub open spec fn pending_after_all<R>(pending: Map<Seq<u8>, Seq<R>>, events: Seq<Event<R>>) -> Map<
    Seq<u8>,
    Seq<R>,
>
    decreases events.len(),
{
    if events.len() == 0 {
        pending
    } else {
        pending_after_all(pending_after(pending, events[0]), events.subrange(1, events.len() as int))
    }
}

/// Whether `event` is a write to `key` that the engine applied.
pub open spec fn is_applied_write_to<R>(event: Event<R>, key: Seq<u8>) -> bool {
    match event {
        Event::Write { key: written, value, applied } => applied && written == key,
        _ => false,
    }
}

/// Whether no event of the run is an applied write to `key`.
pub open spec fn quiet_for<R>(events: Seq<Event<R>>, key: Seq<u8>) -> bool {
    forall|i: int| 0 <= i < events.len() ==> !is_applied_write_to(#[trigger] events[i], key)
}

/// A write that the engine refused answers no reader and leaves every queue
/// as it was, that of its own key and that of any other key `other`.
pub proof fn law_failed_write_touches_nobody<R>(
    pending: Map<Seq<u8>, Seq<R>>,
    key: Seq<u8>,
    value: Seq<u8>,
    other: Seq<u8>,
)
    ensures
        woken_by_write(pending, key, value, false).len() == 0,
        pending_after_write(pending, key, false) == pending,
        waiting_on(pending_after_write(pending, key, false), other) == waiting_on(pending, other),
{
}

/// A write that the engine applied answers the readers of its own key only:
/// the queue of any other key is as it was.
pub proof fn law_write_keeps_other_keys<R>(
    pending: Map<Seq<u8>, Seq<R>>,
    key: Seq<u8>,
    other: Seq<u8>,
    applied: bool,
)
    requires
        other != key,
    ensures
        waiting_on(pending_after_write(pending, key, applied), other) == waiting_on(pending, other),
{
}

/// A blocking read that finds nothing is not answered at once. The next
/// applied write to its key answers it with the written value, after the
/// readers that waited before it, and empties the key's queue.
pub proof fn law_deferred_wake<R>(
    pending: Map<Seq<u8>, Seq<R>>,
    key: Seq<u8>,
    reply: R,
    value: Seq<u8>,
)
    ensures
        answered_at_once(reply, Found::Nothing) is None,
        ({
            let blocked = pending_after_notify_read(pending, key, reply, Found::Nothing);
            let woken = woken_by_write(blocked, key, value, true);
            &&& woken.len() == waiting_on(pending, key).len() + 1
            &&& woken.last() == (reply, Ok::<Seq<u8>, StoreError>(value))
            &&& forall|i: int|
                0 <= i < waiting_on(pending, key).len() ==> woken[i] == (
                    waiting_on(pending, key)[i],
                    Ok::<Seq<u8>, StoreError>(value),
                )
            &&& !pending_after_write(blocked, key, true).contains_key(key)
        }),
{
}

/// Two blocking reads of one key that both find nothing are answered by the
/// next applied write to the key with the same value, the one that came
/// first before the one that came second.
pub proof fn law_wake_in_arrival_order<R>(
    pending: Map<Seq<u8>, Seq<R>>,
    key: Seq<u8>,
    first: R,
    second: R,
    value: Seq<u8>,
)
    ensures
        ({
            let one = pending_after_notify_read(pending, key, first, Found::Nothing);
            let two = pending_after_notify_read(one, key, second, Found::Nothing);
            let woken = woken_by_write(two, key, value, true);
            let n = waiting_on(pending, key).len() as int;
            &&& woken.len() == n + 2
            &&& woken[n] == (first, Ok::<Seq<u8>, StoreError>(value))
            &&& woken[n + 1] == (second, Ok::<Seq<u8>, StoreError>(value))
        }),
{
}

/// An event that is not an applied write to `key` takes no reader out of the
/// key's queue and does not reorder it: the queue before the event is the
/// front of the queue after it.
pub proof fn law_only_a_write_wakes<R>(pending: Map<Seq<u8>, Seq<R>>, event: Event<R>, key: Seq<u8>)
    requires
        !is_applied_write_to(event, key),
    ensures
        waiting_on(pending, key).is_prefix_of(waiting_on(pending_after(pending, event), key)),
{
    let before = waiting_on(pending, key);
    let after = waiting_on(pending_after(pending, event), key);
    match event {
        Event::NotifyRead { key: asked, reply, found: Found::Nothing } => {
            if asked == key {
                assert(after == before.push(reply));
                assert(before =~= after.subrange(0, before.len() as int));
            } else {
                assert(before =~= after.subrange(0, before.len() as int));
            }
        },
        _ => {
            assert(before =~= after.subrange(0, before.len() as int));
        },
    }
}

/// Over a run with no applied write to `key`, the readers that waited on the
/// key at the start still wait on it at the end, in the same order and ahead
/// of any that joined during the run.
pub proof fn law_waiters_outlast_quiet_run<R>(
    pending: Map<Seq<u8>, Seq<R>>,
    events: Seq<Event<R>>,
    key: Seq<u8>,
)
    requires
        quiet_for(events, key),
    ensures
        waiting_on(pending, key).is_prefix_of(waiting_on(pending_after_all(pending, events), key)),
    decreases events.len(),
{
    let before = waiting_on(pending, key);
    if events.len() == 0 {
        assert(before =~= before.subrange(0, before.len() as int));
    } else {
        let next = pending_after(pending, events[0]);
        let rest = events.subrange(1, events.len() as int);
        assert(!is_applied_write_to(events[0], key));
        law_only_a_write_wakes(pending, events[0], key);
        assert forall|i: int| 0 <= i < rest.len() implies !is_applied_write_to(
            #[trigger] rest[i],
            key,
        ) by {
            assert(rest[i] == events[i + 1]);
        }
        law_waiters_outlast_quiet_run(next, rest, key);
        let middle = waiting_on(next, key);
        let end = waiting_on(pending_after_all(next, rest), key);
        assert(before =~= end.subrange(0, before.len() as int)) by {
            assert(before =~= middle.subrange(0, before.len() as int));
            assert(middle =~= end.subrange(0, middle.len() as int));
        }
    }
}

/// A reader that blocks on `key` is answered by the first applied write to
/// the key that follows, whatever else happens in between: after a blocking
/// read that found nothing and any run without an applied write to the key,
/// a write of `value` to the key answers that reader with `value`, at the
/// place in the order that it took when it blocked.
pub proof fn law_first_write_after_wakes<R>(
    pending: Map<Seq<u8>, Seq<R>>,
    key: Seq<u8>,
    reply: R,
    between: Seq<Event<R>>,
    value: Seq<u8>,
)
    requires
        quiet_for(between, key),
    ensures
        ({
            let blocked = pending_after_notify_read(pending, key, reply, Found::Nothing);
            let later = pending_after_all(blocked, between);
            let woken = woken_by_write(later, key, value, true);
            let place = waiting_on(pending, key).len() as int;
            &&& place < woken.len()
            &&& woken[place] == (reply, Ok::<Seq<u8>, StoreError>(value))
        }),
{
    let blocked = pending_after_notify_read(pending, key, reply, Found::Nothing);
    let later = pending_after_all(blocked, between);
    law_waiters_outlast_quiet_run(blocked, between, key);
    let queue = waiting_on(blocked, key);
    let place = waiting_on(pending, key).len() as int;
    assert(queue[place] == reply);
    assert(waiting_on(later, key).subrange(0, queue.len() as int)[place] == waiting_on(
        later,
        key,
    )[place]);
}

/// A blocking reader is answered for one of two reasons only. An event
/// answers readers either because it is an applied write, and then it
/// answers exactly the readers that waited on the written key, with the
/// written value; or because it is itself a blocking read whose lookup found
/// a value or failed, and then it answers its own reader and no other.
pub proof fn law_no_false_wake<R>(pending: Map<Seq<u8>, Seq<R>>, event: Event<R>)
    ensures
        match event {
            Event::Write { key, value, applied } => {
                &&& !applied ==> answered_by(pending, event).len() == 0
                &&& applied ==> answered_by(pending, event).len() == waiting_on(pending, key).len()
                &&& forall|i: int|
                    0 <= i < answered_by(pending, event).len() ==> (#[trigger] answered_by(
                        pending,
                        event,
                    )[i]) == (waiting_on(pending, key)[i], Ok::<Seq<u8>, StoreError>(
                        value,
                    ))
            },
            Event::Read { key } => answered_by(pending, event).len() == 0,
            Event::NotifyRead { key, reply, found } => match found {
                Found::Value(held) => answered_by(pending, event) == seq![
                    (reply, Ok::<Seq<u8>, StoreError>(held)),
                ],
                Found::Nothing => answered_by(pending, event).len() == 0,
                Found::Failed(error) => answered_by(pending, event) == seq![
                    (reply, Err::<Seq<u8>, StoreError>(error)),
                ],
            },
        },
{
}

/// A reader is woken once: after an applied write to `key`, a second write
/// to the key finds nobody waiting and answers nobody.
pub proof fn law_woken_only_once<R>(
    pending: Map<Seq<u8>, Seq<R>>,
    key: Seq<u8>,
    first: Seq<u8>,
    second: Seq<u8>,
    applied: bool,
)
    ensures
        ({
            let after = pending_after_write(pending, key, true);
            &&& waiting_on(after, key).len() == 0
            &&& woken_by_write(pending, key, first, true).len() == waiting_on(pending, key).len()
            &&& woken_by_write(after, key, second, applied).len() == 0
        }),
{
}

/// A blocking read ends in one of two ways and never in both: either it is
/// answered at once and the key's queue is as it was, or it is not answered
/// and the key's queue is one reader longer, with this reader at its end.
pub proof fn law_answered_or_waiting<R>(
    pending: Map<Seq<u8>, Seq<R>>,
    key: Seq<u8>,
    reply: R,
    found: Found,
)
    ensures
        ({
            let after = pending_after_notify_read(pending, key, reply, found);
            if answered_at_once(reply, found) is Some {
                after == pending
            } else {
                waiting_on(after, key) == waiting_on(pending, key).push(reply)
            }
        }),
{
}

/// No event leaves a key in the registry without a reader: where every
/// queue was occupied before the event, every queue is occupied after it.
pub proof fn law_queues_stay_occupied<R>(pending: Map<Seq<u8>, Seq<R>>, event: Event<R>)
    requires
        every_queue_occupied(pending),
    ensures
        every_queue_occupied(pending_after(pending, event)),
{
    let after = pending_after(pending, event);
    assert forall|key: Seq<u8>| after.contains_key(key) implies (#[trigger] after[key]).len()
        > 0 by {
        match event {
            Event::NotifyRead { key: asked, reply, found: Found::Nothing } => {
                if key != asked {
                    assert(pending.contains_key(key));
                    assert(after[key] == pending[key]);
                }
            },
            _ => {
                assert(pending.contains_key(key));
                assert(after[key] == pending[key]);
            },
        }
    }
}

} // verus!
