//! The pending-read registry: for each key, the queue of reply slots whose
//! owners wait for a value to be written under that key.
//!
//! The registry is a plain container. It never looks inside a reply slot, so
//! it is generic in the slot type `R`. Its view is a map from a key's bytes to
//! the slots waiting on that key, oldest first. A key is in the map only while
//! at least one slot waits on it.

use std::collections::VecDeque;
use vstd::prelude::*;

verus! {

/// One key together with the slots waiting on it, oldest first.
struct Entry<R> {
    key: Vec<u8>,
    waiters: VecDeque<R>,
}

/// True when some entry of `entries` is filed under `key`.
spec fn has_key<R>(entries: Seq<Entry<R>>, key: Seq<u8>) -> bool {
    exists|i: int| 0 <= i < entries.len() && (#[trigger] entries[i]).key@ == key
}

/// The position of an entry filed under `key`, where there is one.
spec fn index_of<R>(entries: Seq<Entry<R>>, key: Seq<u8>) -> int {
    choose|i: int| 0 <= i < entries.len() && (#[trigger] entries[i]).key@ == key
}

/// No two entries share a key.
spec fn distinct_keys<R>(entries: Seq<Entry<R>>) -> bool {
    forall|i: int, j: int|
        0 <= i < j < entries.len() ==> (#[trigger] entries[i]).key@ != (#[trigger] entries[j]).key@
}

/// Every entry has at least one waiter.
spec fn no_empty_queue<R>(entries: Seq<Entry<R>>) -> bool {
    forall|i: int| 0 <= i < entries.len() ==> (#[trigger] entries[i]).waiters@.len() > 0
}

/// The map that a list of entries stands for.
spec fn entries_view<R>(entries: Seq<Entry<R>>) -> Map<Seq<u8>, Seq<R>> {
    Map::new(
        |key: Seq<u8>| has_key(entries, key),
        |key: Seq<u8>| entries[index_of(entries, key)].waiters@,
    )
}

/// With distinct keys, the entry at position `i` is the one its key maps to.
proof fn lemma_view_at<R>(entries: Seq<Entry<R>>, i: int)
    requires
        distinct_keys(entries),
        0 <= i < entries.len(),
    ensures
        entries_view(entries).contains_key(entries[i].key@),
        entries_view(entries)[entries[i].key@] == entries[i].waiters@,
{
    let key = entries[i].key@;
    assert(has_key(entries, key));
    let j = index_of(entries, key);
    assert(0 <= j < entries.len() && entries[j].key@ == key);
    assert(j == i);
}

/// A key under which no entry is filed is not in the map.
proof fn lemma_view_absent<R>(entries: Seq<Entry<R>>, key: Seq<u8>)
    requires
        forall|i: int| 0 <= i < entries.len() ==> (#[trigger] entries[i]).key@ != key,
    ensures
        !entries_view(entries).contains_key(key),
{
}

/// The pending-read registry.
pub struct Registry<R> {
    entries: Vec<Entry<R>>,
}

impl<R> View for Registry<R> {
    type V = Map<Seq<u8>, Seq<R>>;

    closed spec fn view(&self) -> Map<Seq<u8>, Seq<R>> {
        entries_view(self.entries@)
    }
}

/// The slots that wait on `key` in the map `pending`, oldest first; none
/// where the key has no entry.
pub open spec fn waiting_on<R>(pending: Map<Seq<u8>, Seq<R>>, key: Seq<u8>) -> Seq<R> {
    if pending.contains_key(key) {
        pending[key]
    } else {
        Seq::empty()
    }
}

/// The map `pending` after `reply` has joined the end of the queue of `key`.
pub open spec fn with_waiter<R>(pending: Map<Seq<u8>, Seq<R>>, key: Seq<u8>, reply: R) -> Map<
    Seq<u8>,
    Seq<R>,
> {
    pending.insert(key, waiting_on(pending, key).push(reply))
}

/// Whether every key of the map `pending` has at least one slot waiting on
/// it.
pub open spec fn every_queue_occupied<R>(pending: Map<Seq<u8>, Seq<R>>) -> bool {
    forall|key: Seq<u8>| pending.contains_key(key) ==> (#[trigger] pending[key]).len() > 0
}

/// Every key that a well-formed list of entries maps has a waiter.
proof fn lemma_view_occupied<R>(entries: Seq<Entry<R>>)
    requires
        distinct_keys(entries),
        no_empty_queue(entries),
    ensures
        every_queue_occupied(entries_view(entries)),
{
    assert forall|key: Seq<u8>| entries_view(entries).contains_key(key) implies (
    #[trigger] entries_view(entries)[key]).len() > 0 by {
        let i = index_of(entries, key);
        lemma_view_at(entries, i);
    }
}

/// Whether two byte strings hold the same bytes.
pub fn same_bytes(a: &Vec<u8>, b: &Vec<u8>) -> (same: bool)
    ensures
        same == (a@ == b@),
{
    if a.len() != b.len() {
        return false;
    }
    let mut i: usize = 0;
    while i < a.len()
        invariant
            a.len() == b.len(),
            i <= a.len(),
            forall|j: int| 0 <= j < i ==> a@[j] == b@[j],
        decreases a.len() - i,
    {
        if a[i] != b[i] {
            return false;
        }
        i += 1;
    }
    assert(a@ =~= b@);
    true
}

impl<R> Registry<R> {
    #[verifier::type_invariant]
    spec fn well_formed(&self) -> bool {
        &&& distinct_keys(self.entries@)
        &&& no_empty_queue(self.entries@)
    }

    /// The slots that wait on `key`, oldest first.
    pub open spec fn waiting(&self, key: Seq<u8>) -> Seq<R> {
        waiting_on(self@, key)
    }

    /// A registry in which nobody waits.
    pub fn new() -> (registry: Self)
        ensures
            registry@ == Map::<Seq<u8>, Seq<R>>::empty(),
            every_queue_occupied(registry@),
    {
        let registry = Registry { entries: Vec::new() };
        assert(registry@ =~= Map::<Seq<u8>, Seq<R>>::empty());
        registry
    }

    /// Where the entry of `key` stands, if it has one.
    fn position(&self, key: &Vec<u8>) -> (found: Option<usize>)
        ensures
            match found {
                Some(i) => i < self.entries@.len() && self.entries@[i as int].key@ == key@,
                None => forall|i: int|
                    0 <= i < self.entries@.len() ==> (#[trigger] self.entries@[i]).key@ != key@,
            },
    {
        let mut i: usize = 0;
        while i < self.entries.len()
            invariant
                i <= self.entries@.len(),
                forall|j: int| 0 <= j < i ==> (#[trigger] self.entries@[j]).key@ != key@,
            decreases self.entries@.len() - i,
        {
            if same_bytes(&self.entries[i].key, key) {
                return Some(i);
            }
            i += 1;
        }
        None
    }

    /// Files `reply` as the newest waiter on `key`. The key gets an entry if
    /// it had none; the waiters already there keep their places.
    pub fn register(&mut self, key: Vec<u8>, reply: R)
        ensures
            final(self)@ == with_waiter(old(self)@, key@, reply),
            every_queue_occupied(final(self)@),
    {
        proof {
            use_type_invariant(&*self);
            lemma_view_occupied(self.entries@);
        }
        let ghost before = self.entries@;
        let found = self.position(&key);
        let mut entries: Vec<Entry<R>> = Vec::new();
        std::mem::swap(&mut self.entries, &mut entries);
        match found {
            Some(i) => {
                let mut entry = entries.swap_remove(i);
                entry.waiters.push_back(reply);
                proof {
                    lemma_view_at(before, i as int);
                    lemma_view_after_swap_remove(before, entries@, i as int);
                    lemma_view_absent_after_remove(before, entries@, i as int);
                }
                let ghost without = entries@;
                entries.push(entry);
                proof {
                    lemma_view_after_push(without, entries@);
                    assert(entries_view(entries@) =~= with_waiter(
                        entries_view(before),
                        key@,
                        reply,
                    ));
                }
            },
            None => {
                let mut waiters: VecDeque<R> = VecDeque::new();
                waiters.push_back(reply);
                entries.push(Entry { key, waiters });
                proof {
                    lemma_view_absent(before, key@);
                    lemma_view_after_push(before, entries@);
                    assert(entries@.last().waiters@ =~= Seq::<R>::empty().push(reply));
                }
            },
        }
        std::mem::swap(&mut self.entries, &mut entries);
    }

    /// Takes the whole queue of `key` out of the registry and returns it,
    /// oldest waiter first. The key has no entry afterwards. Where nobody
    /// waited on the key, the queue is empty and the registry is unchanged.
    pub fn drain_and_clear(&mut self, key: &Vec<u8>) -> (queue: VecDeque<R>)
        ensures
            queue@ == old(self).waiting(key@),
            final(self)@ == old(self)@.remove(key@),
            every_queue_occupied(final(self)@),
    {
        proof {
            use_type_invariant(&*self);
            lemma_view_occupied(self.entries@);
        }
        let ghost before = self.entries@;
        let found = self.position(key);
        let mut entries: Vec<Entry<R>> = Vec::new();
        std::mem::swap(&mut self.entries, &mut entries);
        let queue = match found {
            Some(i) => {
                let entry = entries.swap_remove(i);
                proof {
                    lemma_view_at(before, i as int);
                    lemma_view_after_swap_remove(before, entries@, i as int);
                }
                entry.waiters
            },
            None => {
                proof {
                    lemma_view_absent(before, key@);
                    assert(entries_view(before) =~= entries_view(before).remove(key@));
                }
                VecDeque::new()
            },
        };
        std::mem::swap(&mut self.entries, &mut entries);
        queue
    }

    /// Does nothing when run. To the verifier it shows what every registry
    /// keeps to: no key stays in it without a waiter.
    pub fn keeps_queues_occupied(&self)
        ensures
            every_queue_occupied(self@),
    {
        proof {
            use_type_invariant(self);
            lemma_view_occupied(self.entries@);
        }
    }

    /// The number of slots that wait on `key`.
    pub fn waiters(&self, key: &Vec<u8>) -> (n: usize)
        ensures
            n == self.waiting(key@).len(),
            n > 0 <==> self@.contains_key(key@),
    {
        proof {
            use_type_invariant(self);
        }
        match self.position(key) {
            Some(i) => {
                proof {
                    lemma_view_at(self.entries@, i as int);
                }
                self.entries[i].waiters.len()
            },
            None => {
                proof {
                    lemma_view_absent(self.entries@, key@);
                }
                0
            },
        }
    }

    /// The number of keys that somebody waits on.
    pub fn len(&self) -> (n: usize)
        ensures
            self@.dom().finite(),
            n == self@.dom().len(),
            every_queue_occupied(self@),
    {
        proof {
            use_type_invariant(self);
            lemma_view_len(self.entries@);
            lemma_view_occupied(self.entries@);
        }
        self.entries.len()
    }
}

/// A list of entries with distinct keys stands for a finite map with as many
/// keys as the list has entries.
proof fn lemma_view_len<R>(entries: Seq<Entry<R>>)
    requires
        distinct_keys(entries),
    ensures
        entries_view(entries).dom().finite(),
        entries_view(entries).dom().len() == entries.len(),
    decreases entries.len(),
{
    if entries.len() == 0 {
        assert(entries_view(entries).dom() =~= Set::<Seq<u8>>::empty());
    } else {
        let rest = entries.drop_last();
        let last = entries.last();
        lemma_view_len(rest);
        assert forall|k: Seq<u8>| has_key(rest, k) implies has_key(entries, k) by {
            let i = index_of(rest, k);
            assert(entries[i].key@ == k);
        }
        assert(!has_key(rest, last.key@)) by {
            if has_key(rest, last.key@) {
                let i = index_of(rest, last.key@);
                assert(entries[i].key@ == last.key@);
                assert(entries[entries.len() - 1].key@ == last.key@);
            }
        }
        assert(has_key(entries, last.key@)) by {
            assert(entries[entries.len() - 1].key@ == last.key@);
        }
        assert forall|k: Seq<u8>| has_key(entries, k) implies has_key(rest, k) || k == last.key@ by {
            let i = index_of(entries, k);
            if i < entries.len() - 1 {
                assert(rest[i].key@ == k);
            }
        }
        assert(entries_view(entries).dom() =~= entries_view(rest).dom().insert(last.key@));
    }
}

/// Once the entry at `i` has been swapped out, no entry is left under its key.
proof fn lemma_view_absent_after_remove<R>(before: Seq<Entry<R>>, after: Seq<Entry<R>>, i: int)
    requires
        distinct_keys(before),
        0 <= i < before.len(),
        after == before.update(i, before.last()).drop_last(),
    ensures
        !has_key(after, before[i].key@),
{
    lemma_view_after_swap_remove(before, after, i);
    assert(!entries_view(after).contains_key(before[i].key@));
}

/// Adding an entry under a key that had none adds that key and nothing else.
proof fn lemma_view_after_push<R>(before: Seq<Entry<R>>, after: Seq<Entry<R>>)
    requires
        distinct_keys(before),
        after == before.push(after.last()),
        !has_key(before, after.last().key@),
    ensures
        distinct_keys(after),
        entries_view(after) == entries_view(before).insert(
            after.last().key@,
            after.last().waiters@,
        ),
{
    let last = after.last();
    assert forall|j: int| 0 <= j < before.len() implies (#[trigger] after[j]) == before[j] by {}
    assert(distinct_keys(after)) by {
        assert forall|a: int, b: int| 0 <= a < b < after.len() implies (#[trigger] after[a]).key@
            != (#[trigger] after[b]).key@ by {
            if b == after.len() - 1 {
                assert(before[a].key@ != last.key@);
            } else {
                assert(before[a].key@ != before[b].key@);
            }
        }
    }
    let target = entries_view(before).insert(last.key@, last.waiters@);
    assert forall|k: Seq<u8>| entries_view(after).contains_key(k) <==> target.contains_key(
        k,
    ) by {
        if has_key(after, k) {
            let j = index_of(after, k);
            if j < before.len() {
                assert(before[j].key@ == k);
            }
        }
        if has_key(before, k) {
            let j = index_of(before, k);
            assert(after[j].key@ == k);
        }
        assert(after[after.len() - 1].key@ == last.key@);
    }
    assert forall|k: Seq<u8>| entries_view(after).contains_key(k) implies entries_view(after)[k]
        == target[k] by {
        let j = index_of(after, k);
        lemma_view_at(after, j);
        if j < before.len() {
            lemma_view_at(before, j);
        }
    }
    assert(entries_view(after) =~= target);
}

/// Moving the last entry into the place of the entry at `i` removes the key
/// of that entry and nothing else.
proof fn lemma_view_after_swap_remove<R>(before: Seq<Entry<R>>, after: Seq<Entry<R>>, i: int)
    requires
        distinct_keys(before),
        0 <= i < before.len(),
        after == before.update(i, before.last()).drop_last(),
    ensures
        distinct_keys(after),
        entries_view(after) == entries_view(before).remove(before[i].key@),
{
    let n = before.len() - 1;
    assert forall|j: int| 0 <= j < after.len() implies (#[trigger] after[j]) == (if j == i {
        before[n]
    } else {
        before[j]
    }) by {}
    assert(distinct_keys(after)) by {
        assert forall|a: int, b: int| 0 <= a < b < after.len() implies (#[trigger] after[a]).key@
            != (#[trigger] after[b]).key@ by {
            let a0 = if a == i { n } else { a };
            let b0 = if b == i { n } else { b };
            assert(after[a] == before[a0]);
            assert(after[b] == before[b0]);
            if a0 < b0 {
                assert(before[a0].key@ != before[b0].key@);
            } else {
                assert(before[b0].key@ != before[a0].key@);
            }
        }
    }
    let target = entries_view(before).remove(before[i].key@);
    assert forall|k: Seq<u8>| entries_view(after).contains_key(k) <==> target.contains_key(
        k,
    ) by {
        if has_key(after, k) {
            let j = index_of(after, k);
            let j0 = if j == i { n } else { j };
            assert(before[j0].key@ == k);
            if k == before[i].key@ {
                if j0 < i {
                    assert(before[j0].key@ != before[i].key@);
                } else {
                    assert(before[i].key@ != before[j0].key@);
                }
            }
        }
        if has_key(before, k) && k != before[i].key@ {
            let j = index_of(before, k);
            if j == n {
                assert(after[i].key@ == k);
            } else {
                assert(after[j].key@ == k);
            }
        }
    }
    assert forall|k: Seq<u8>| entries_view(after).contains_key(k) implies entries_view(after)[k]
        == target[k] by {
        let j = index_of(after, k);
        let j0 = if j == i { n } else { j };
        lemma_view_at(after, j);
        lemma_view_at(before, j0);
    }
    assert(entries_view(after) =~= target);
}

} // verus!
