//! The broadcaster: every subscriber owns a bounded delivery queue, a
//! publish appends to each of them, and a queue that is full gives up its
//! oldest record. The producer never waits for a consumer.

use vstd::prelude::*;
use crate::bounded::{appended, appended_all, last_n, lemma_appended_all_keeps_last, push_bounded};
use crate::message::{views, CanMessage, MessageView};

verus! {

/// One subscriber: its handle and what is waiting for it, oldest first.
struct Subscriber {
    handle: u64,
    queue: Vec<CanMessage>,
}

/// Whether one of `subs` has the handle `handle`.
spec fn has_handle(subs: Seq<Subscriber>, handle: u64) -> bool {
    exists|i: int| 0 <= i < subs.len() && (#[trigger] subs[i]).handle == handle
}

/// The place in `subs` of the subscriber with the handle `handle`.
spec fn slot_of(subs: Seq<Subscriber>, handle: u64) -> int {
    choose|i: int| 0 <= i < subs.len() && (#[trigger] subs[i]).handle == handle
}

/// No two of `subs` share a handle.
spec fn distinct(subs: Seq<Subscriber>) -> bool {
    forall|i: int, j: int|
        0 <= i < j < subs.len() ==> (#[trigger] subs[i]).handle != (#[trigger] subs[j]).handle
}

/// The delivery queues of `subs`, by handle.
spec fn queues_of(subs: Seq<Subscriber>) -> Map<u64, Seq<MessageView>> {
    Map::new(|h: u64| has_handle(subs, h), |h: u64| views(subs[slot_of(subs, h)].queue@))
}

/// Among distinct subscribers a handle is found at its own place.
proof fn lemma_slot(subs: Seq<Subscriber>, i: int)
    requires
        distinct(subs),
        0 <= i < subs.len(),
    ensures
        has_handle(subs, subs[i].handle),
        slot_of(subs, subs[i].handle) == i,
        queues_of(subs).dom().contains(subs[i].handle),
        queues_of(subs)[subs[i].handle] == views(subs[i].queue@),
{
    let j = slot_of(subs, subs[i].handle);
    assert(0 <= j < subs.len() && subs[j].handle == subs[i].handle);
    if j < i {
        assert(subs[j].handle != subs[i].handle);
    }
    if i < j {
        assert(subs[i].handle != subs[j].handle);
    }
}

/// All delivery queues after `record` was published: each one took it at
/// its tail and, where it was full, gave up its own oldest record.
pub open spec fn published(
    queues: Map<u64, Seq<MessageView>>,
    record: MessageView,
    capacity: nat,
) -> Map<u64, Seq<MessageView>> {
    queues.map_values(|q: Seq<MessageView>| appended(q, record, capacity))
}

/// All delivery queues after the records of `records` were published in order.
pub open spec fn published_all(
    queues: Map<u64, Seq<MessageView>>,
    records: Seq<MessageView>,
    capacity: nat,
) -> Map<u64, Seq<MessageView>>
    decreases records.len(),
{
    if records.len() == 0 {
        queues
    } else {
        published(published_all(queues, records.drop_last(), capacity), records.last(), capacity)
    }
}

/// Whether every queue of `queues` holds no more than `capacity` records.
pub open spec fn within_capacity(queues: Map<u64, Seq<MessageView>>, capacity: nat) -> bool {
    forall|h: u64| #[trigger] queues.dom().contains(h) ==> queues[h].len() <= capacity
}

/// What holds of the subscribers of a broadcaster: their handles differ
/// and were given out earlier, and no queue exceeds the capacity.
spec fn consistent(subs: Seq<Subscriber>, capacity: usize, issued: u64) -> bool {
    &&& distinct(subs)
    &&& forall|i: int|
        0 <= i < subs.len() ==> {
            &&& (#[trigger] subs[i]).handle < issued
            &&& subs[i].queue@.len() <= capacity
        }
}

/// Consistent subscribers have queues within the capacity and handles
/// that were given out.
proof fn lemma_consistent(subs: Seq<Subscriber>, capacity: usize, issued: u64)
    requires
        consistent(subs, capacity, issued),
    ensures
        within_capacity(queues_of(subs), capacity as nat),
        forall|h: u64| #[trigger] queues_of(subs).dom().contains(h) ==> h < issued,
{
    assert forall|h: u64| #[trigger] queues_of(subs).dom().contains(h) implies h < issued
        && queues_of(subs)[h].len() <= capacity by {
        let i = slot_of(subs, h);
        lemma_slot(subs, i);
    }
}

/// The place of the subscriber `handle` among `subs`, if there is one.
fn find(subs: &Vec<Subscriber>, handle: u64) -> (r: Option<usize>)
    ensures
        match r {
            Some(at) => at < subs@.len() && subs@[at as int].handle == handle,
            None => !has_handle(subs@, handle),
        },
{
    let mut i: usize = 0;
    while i < subs.len()
        invariant
            i <= subs.len(),
            forall|j: int| 0 <= j < i ==> (#[trigger] subs@[j]).handle != handle,
        decreases subs.len() - i,
    {
        if subs[i].handle == handle {
            return Some(i);
        }
        i += 1;
    }
    None
}

/// Adds a subscriber with the handle `handle` and an empty queue.
fn join(subs: &mut Vec<Subscriber>, handle: u64, Ghost(capacity): Ghost<usize>)
    requires
        consistent(old(subs)@, capacity, handle),
        handle < u64::MAX,
    ensures
        consistent(final(subs)@, capacity, (handle + 1) as u64),
        !queues_of(old(subs)@).dom().contains(handle),
        queues_of(final(subs)@) == queues_of(old(subs)@).insert(handle, Seq::empty()),
{
    let ghost before = subs@;
    proof {
        if has_handle(before, handle) {
            let i = slot_of(before, handle);
            assert(before[i].handle < handle);
        }
    }
    subs.push(Subscriber { handle, queue: Vec::new() });
    proof {
        let after = subs@;
        assert(after[before.len() as int].handle == handle);
        assert(distinct(after)) by {
            assert forall|i: int, j: int| 0 <= i < j < after.len() implies (#[trigger] after[i]).handle
                != (#[trigger] after[j]).handle by {
                if j < before.len() {
                    assert(before[i].handle != before[j].handle);
                } else {
                    assert(before[i].handle < handle);
                }
            }
        }
        assert forall|i: int| 0 <= i < after.len() implies (#[trigger] after[i]).handle < handle
            + 1 && after[i].queue@.len() <= capacity by {
            if i < before.len() {
                assert(before[i].handle < handle);
            }
        }
        assert forall|h: u64|
            (#[trigger] queues_of(after).dom().contains(h)) == queues_of(before).insert(
                handle,
                Seq::empty(),
            ).dom().contains(h) by {
            if has_handle(after, h) {
                let i = slot_of(after, h);
                if i < before.len() {
                    assert(before[i].handle == h);
                }
            }
            if has_handle(before, h) {
                let i = slot_of(before, h);
                assert(after[i].handle == h);
            }
        }
        assert forall|h: u64| #[trigger] queues_of(after).dom().contains(h) implies queues_of(
            after,
        )[h] == queues_of(before).insert(handle, Seq::empty())[h] by {
            let i = slot_of(after, h);
            lemma_slot(after, i);
            if i < before.len() {
                assert(before[i] == after[i]);
                lemma_slot(before, i);
            } else {
                assert(views(after[i].queue@) =~= Seq::<MessageView>::empty());
            }
        }
        assert(queues_of(after) =~= queues_of(before).insert(handle, Seq::empty()));
    }
}

/// Appends a copy of `record` to the queue of each of `subs`.
fn deliver(
    subs: &mut Vec<Subscriber>,
    record: &CanMessage,
    capacity: usize,
    Ghost(issued): Ghost<u64>,
)
    requires
        consistent(old(subs)@, capacity, issued),
    ensures
        consistent(final(subs)@, capacity, issued),
        queues_of(final(subs)@) == published(queues_of(old(subs)@), record@, capacity as nat),
{
    let ghost before = subs@;
    let mut i: usize = 0;
    while i < subs.len()
        invariant
            i <= subs.len(),
            subs@.len() == before.len(),
            consistent(before, capacity, issued),
            forall|j: int|
                0 <= j < before.len() ==> (#[trigger] subs@[j]).handle == before[j].handle,
            forall|j: int|
                0 <= j < before.len() ==> (#[trigger] subs@[j]).queue@.len() <= capacity,
            forall|j: int|
                0 <= j < i ==> views((#[trigger] subs@[j]).queue@) == appended(
                    views(before[j].queue@),
                    record@,
                    capacity as nat,
                ),
            forall|j: int| i <= j < before.len() ==> (#[trigger] subs@[j]) == before[j],
        decreases subs.len() - i,
    {
        let copy = record.clone();
        let subscriber = &mut subs[i];
        push_bounded(&mut subscriber.queue, copy, capacity);
        i += 1;
    }
    proof {
        let after = subs@;
        assert(distinct(after)) by {
            assert forall|a: int, b: int| 0 <= a < b < after.len() implies (#[trigger] after[a]).handle
                != (#[trigger] after[b]).handle by {
                assert(before[a].handle != before[b].handle);
            }
        }
        assert forall|j: int| 0 <= j < after.len() implies (#[trigger] after[j]).handle < issued
            && after[j].queue@.len() <= capacity by {
            assert(before[j].handle < issued);
        }
        let target = published(queues_of(before), record@, capacity as nat);
        assert forall|h: u64| (#[trigger] queues_of(after).dom().contains(h))
            == target.dom().contains(h) by {
            if has_handle(after, h) {
                let k = slot_of(after, h);
                assert(before[k].handle == h);
            }
            if has_handle(before, h) {
                let k = slot_of(before, h);
                assert(after[k].handle == h);
            }
        }
        assert forall|h: u64| #[trigger] queues_of(after).dom().contains(h) implies queues_of(
            after,
        )[h] == target[h] by {
            let k = slot_of(after, h);
            lemma_slot(after, k);
            lemma_slot(before, k);
        }
        assert(queues_of(after) =~= target);
    }
}

/// Removes the subscriber `handle` from `subs`, if it is there.
fn leave(
    subs: &mut Vec<Subscriber>,
    handle: u64,
    Ghost(capacity): Ghost<usize>,
    Ghost(issued): Ghost<u64>,
) -> (found: bool)
    requires
        consistent(old(subs)@, capacity, issued),
    ensures
        consistent(final(subs)@, capacity, issued),
        found == queues_of(old(subs)@).dom().contains(handle),
        queues_of(final(subs)@) == queues_of(old(subs)@).remove(handle),
{
    let ghost before = subs@;
    match find(subs, handle) {
        None => {
            assert(queues_of(before) =~= queues_of(before).remove(handle));
            false
        },
        Some(at) => {
            let _ = subs.remove(at);
            proof {
                let after = subs@;
                assert forall|j: int| 0 <= j < after.len() implies #[trigger] after[j] == before[if j
                    < at {
                    j
                } else {
                    j + 1
                }] by {}
                assert(distinct(after)) by {
                    assert forall|a: int, b: int| 0 <= a < b < after.len() implies (
                    #[trigger] after[a]).handle != (#[trigger] after[b]).handle by {
                        let a0 = if a < at { a } else { a + 1 };
                        let b0 = if b < at { b } else { b + 1 };
                        assert(before[a0].handle != before[b0].handle);
                    }
                }
                assert forall|j: int| 0 <= j < after.len() implies (#[trigger] after[j]).handle
                    < issued && after[j].queue@.len() <= capacity by {
                    let j0 = if j < at { j } else { j + 1 };
                    assert(before[j0].handle < issued);
                }
                let target = queues_of(before).remove(handle);
                assert forall|h: u64| (#[trigger] queues_of(after).dom().contains(h))
                    == target.dom().contains(h) by {
                    if has_handle(after, h) {
                        let k = slot_of(after, h);
                        let k0 = if k < at { k } else { k + 1 };
                        assert(before[k0].handle == h);
                        if h == handle {
                            lemma_slot(before, k0);
                            lemma_slot(before, at as int);
                        }
                    }
                    if has_handle(before, h) && h != handle {
                        let k = slot_of(before, h);
                        let k1 = if k < at { k } else { k - 1 };
                        assert(after[k1].handle == h);
                    }
                }
                assert forall|h: u64| #[trigger] queues_of(after).dom().contains(h) implies queues_of(
                    after,
                )[h] == target[h] by {
                    let k = slot_of(after, h);
                    let k0 = if k < at { k } else { k + 1 };
                    lemma_slot(after, k);
                    lemma_slot(before, k0);
                }
                assert(queues_of(after) =~= target);
            }
            true
        },
    }
}

/// Takes the oldest record out of the queue of `handle`, if there is one.
fn take_oldest(
    subs: &mut Vec<Subscriber>,
    handle: u64,
    Ghost(capacity): Ghost<usize>,
    Ghost(issued): Ghost<u64>,
) -> (r: Option<CanMessage>)
    requires
        consistent(old(subs)@, capacity, issued),
    ensures
        consistent(final(subs)@, capacity, issued),
        match r {
            Some(record) => {
                &&& queues_of(old(subs)@).dom().contains(handle)
                &&& queues_of(old(subs)@)[handle].len() > 0
                &&& record@ == queues_of(old(subs)@)[handle][0]
                &&& queues_of(final(subs)@) == queues_of(old(subs)@).insert(
                    handle,
                    queues_of(old(subs)@)[handle].skip(1),
                )
            },
            None => {
                &&& !queues_of(old(subs)@).dom().contains(handle) || queues_of(
                    old(subs)@,
                )[handle].len() == 0
                &&& final(subs)@ == old(subs)@
            },
        },
{
    let ghost before = subs@;
    match find(subs, handle) {
        None => None,
        Some(at) => {
            proof {
                lemma_slot(before, at as int);
            }
            if subs[at].queue.len() == 0 {
                return None;
            }
            let subscriber = &mut subs[at];
            let record = subscriber.queue.remove(0);
            proof {
                let after = subs@;
                assert(after.len() == before.len());
                assert forall|j: int| 0 <= j < after.len() implies (#[trigger] after[j]).handle
                    == before[j].handle by {}
                assert(distinct(after)) by {
                    assert forall|a: int, b: int| 0 <= a < b < after.len() implies (
                    #[trigger] after[a]).handle != (#[trigger] after[b]).handle by {
                        assert(before[a].handle != before[b].handle);
                    }
                }
                assert forall|j: int| 0 <= j < after.len() implies (#[trigger] after[j]).handle
                    < issued && after[j].queue@.len() <= capacity by {
                    assert(before[j].handle < issued);
                    assert(before[j].queue@.len() <= capacity);
                }
                let target = queues_of(before).insert(handle, queues_of(before)[handle].skip(1));
                assert forall|h: u64| (#[trigger] queues_of(after).dom().contains(h))
                    == target.dom().contains(h) by {
                    if has_handle(after, h) {
                        let k = slot_of(after, h);
                        assert(before[k].handle == h);
                    }
                    if has_handle(before, h) {
                        let k = slot_of(before, h);
                        assert(after[k].handle == h);
                    }
                    assert(after[at as int].handle == handle);
                }
                assert forall|h: u64| #[trigger] queues_of(after).dom().contains(h) implies queues_of(
                    after,
                )[h] == target[h] by {
                    let k = slot_of(after, h);
                    lemma_slot(after, k);
                    lemma_slot(before, k);
                    if k == at {
                        assert(views(after[k].queue@) =~= views(before[k].queue@).skip(1));
                    } else {
                        assert(after[k] == before[k]);
                    }
                }
                assert(queues_of(after) =~= target);
                assert(views(before[at as int].queue@)[0] == record@);
            }
            Some(record)
        },
    }
}

/// A distribution channel with any number of subscribers.
pub struct Broadcaster {
    subscribers: Vec<Subscriber>,
    capacity: usize,
    issued: u64,
}

impl View for Broadcaster {
    type V = Map<u64, Seq<MessageView>>;

    /// What waits for each subscriber, oldest first, by handle.
    closed spec fn view(&self) -> Map<u64, Seq<MessageView>> {
        queues_of(self.subscribers@)
    }
}

impl Broadcaster {
    /// The number of records a delivery queue keeps at most.
    pub closed spec fn capacity_spec(&self) -> nat {
        self.capacity as nat
    }

    /// The number of handles given out so far.
    pub closed spec fn issued_spec(&self) -> nat {
        self.issued as nat
    }

    /// The invariant that every broadcaster carries at run time.
    #[verifier::type_invariant]
    closed spec fn inv(self) -> bool {
        consistent(self.subscribers@, self.capacity, self.issued)
    }

    /// A broadcaster without subscribers whose queues will keep at most
    /// `capacity` records each.
    pub fn new(capacity: usize) -> (b: Self)
        ensures
            b@ == Map::<u64, Seq<MessageView>>::empty(),
            b.capacity_spec() == capacity,
            b.issued_spec() == 0,
    {
        let b = Broadcaster { subscribers: Vec::new(), capacity, issued: 0 };
        assert(b@ =~= Map::<u64, Seq<MessageView>>::empty());
        b
    }

    /// The capacity of each delivery queue.
    pub fn capacity(&self) -> (n: usize)
        ensures
            n == self.capacity_spec(),
    {
        self.capacity
    }

    /// The number of subscribers.
    pub fn subscriber_count(&self) -> (n: usize)
        ensures
            n == self@.dom().len(),
            self@.dom().finite(),
    {
        proof {
            use_type_invariant(self);
            lemma_domain_size(self.subscribers@);
        }
        self.subscribers.len()
    }

    /// Adds a subscriber with an empty queue and returns its handle, which
    /// no subscriber had before. Earlier publishes are not replayed. Where
    /// the handles are used up nothing changes and `None` is returned.
    pub fn subscribe(&mut self) -> (r: Option<u64>)
        ensures
            final(self).capacity_spec() == old(self).capacity_spec(),
            within_capacity(final(self)@, final(self).capacity_spec()),
            match r {
                Some(h) => {
                    &&& old(self).issued_spec() < u64::MAX
                    &&& h == old(self).issued_spec()
                    &&& !old(self)@.dom().contains(h)
                    &&& final(self)@ == old(self)@.insert(h, Seq::empty())
                    &&& final(self).issued_spec() == old(self).issued_spec() + 1
                },
                None => {
                    &&& old(self).issued_spec() == u64::MAX
                    &&& final(self)@ == old(self)@
                    &&& final(self).issued_spec() == old(self).issued_spec()
                },
            },
    {
        proof {
            use_type_invariant(&*self);
            lemma_consistent(self.subscribers@, self.capacity, self.issued);
        }
        if self.issued == u64::MAX {
            return None;
        }
        let handle = self.issued;
        let mut subs: Vec<Subscriber> = Vec::new();
        core::mem::swap(&mut self.subscribers, &mut subs);
        join(&mut subs, handle, Ghost(self.capacity));
        self.issued = handle + 1;
        proof {
            lemma_consistent(subs@, self.capacity, self.issued);
        }
        core::mem::swap(&mut self.subscribers, &mut subs);
        Some(handle)
    }

    /// Hands `record` to every subscriber. A queue that is full gives up
    /// its own oldest record; no queue loses anything for another one's
    /// sake, and the set of subscribers does not change.
    pub fn publish(&mut self, record: &CanMessage)
        ensures
            final(self).capacity_spec() == old(self).capacity_spec(),
            final(self).issued_spec() == old(self).issued_spec(),
            final(self)@ == published(old(self)@, record@, old(self).capacity_spec()),
            final(self)@.dom() == old(self)@.dom(),
            within_capacity(final(self)@, final(self).capacity_spec()),
    {
        proof {
            use_type_invariant(&*self);
        }
        let mut subs: Vec<Subscriber> = Vec::new();
        core::mem::swap(&mut self.subscribers, &mut subs);
        deliver(&mut subs, record, self.capacity, Ghost(self.issued));
        proof {
            lemma_consistent(subs@, self.capacity, self.issued);
        }
        core::mem::swap(&mut self.subscribers, &mut subs);
    }

    /// Removes the subscriber `handle` and discards what was queued for
    /// it. Returns whether there was such a subscriber.
    pub fn unsubscribe(&mut self, handle: u64) -> (found: bool)
        ensures
            final(self).capacity_spec() == old(self).capacity_spec(),
            final(self).issued_spec() == old(self).issued_spec(),
            found == old(self)@.dom().contains(handle),
            final(self)@ == old(self)@.remove(handle),
            within_capacity(final(self)@, final(self).capacity_spec()),
    {
        proof {
            use_type_invariant(&*self);
        }
        let mut subs: Vec<Subscriber> = Vec::new();
        core::mem::swap(&mut self.subscribers, &mut subs);
        let found = leave(&mut subs, handle, Ghost(self.capacity), Ghost(self.issued));
        proof {
            lemma_consistent(subs@, self.capacity, self.issued);
        }
        core::mem::swap(&mut self.subscribers, &mut subs);
        found
    }

    /// Takes the oldest record out of the queue of `handle`. Returns
    /// `None`, and changes nothing, where the queue is empty or there is no
    /// such subscriber.
    pub fn receive(&mut self, handle: u64) -> (r: Option<CanMessage>)
        ensures
            final(self).capacity_spec() == old(self).capacity_spec(),
            final(self).issued_spec() == old(self).issued_spec(),
            within_capacity(final(self)@, final(self).capacity_spec()),
            match r {
                Some(record) => {
                    &&& old(self)@.dom().contains(handle)
                    &&& old(self)@[handle].len() > 0
                    &&& record@ == old(self)@[handle][0]
                    &&& final(self)@ == old(self)@.insert(handle, old(self)@[handle].skip(1))
                },
                None => {
                    &&& !old(self)@.dom().contains(handle) || old(self)@[handle].len() == 0
                    &&& final(self)@ == old(self)@
                },
            },
    {
        proof {
            use_type_invariant(&*self);
        }
        let mut subs: Vec<Subscriber> = Vec::new();
        core::mem::swap(&mut self.subscribers, &mut subs);
        let r = take_oldest(&mut subs, handle, Ghost(self.capacity), Ghost(self.issued));
        proof {
            lemma_consistent(subs@, self.capacity, self.issued);
        }
        core::mem::swap(&mut self.subscribers, &mut subs);
        r
    }

    /// The number of records waiting for `handle`, never more than the
    /// capacity, or `None` where there is no such subscriber.
    pub fn pending(&self, handle: u64) -> (r: Option<usize>)
        ensures
            match r {
                Some(n) => self@.dom().contains(handle) && n == self@[handle].len() && n
                    <= self.capacity_spec(),
                None => !self@.dom().contains(handle),
            },
    {
        proof {
            use_type_invariant(self);
        }
        match find(&self.subscribers, handle) {
            None => None,
            Some(at) => {
                proof {
                    lemma_slot(self.subscribers@, at as int);
                }
                Some(self.subscribers[at].queue.len())
            },
        }
    }
}

/// Distinct subscribers have as many handles as there are subscribers.
proof fn lemma_domain_size(subs: Seq<Subscriber>)
    requires
        distinct(subs),
    ensures
        queues_of(subs).dom().finite(),
        queues_of(subs).dom().len() == subs.len(),
    decreases subs.len(),
{
    if subs.len() == 0 {
        assert(queues_of(subs).dom() =~= Set::<u64>::empty());
    } else {
        let rest = subs.drop_last();
        let h = subs.last().handle;
        assert(distinct(rest)) by {
            assert forall|a: int, b: int| 0 <= a < b < rest.len() implies (#[trigger] rest[a]).handle
                != (#[trigger] rest[b]).handle by {
                assert(subs[a].handle != subs[b].handle);
            }
        }
        lemma_domain_size(rest);
        assert(!has_handle(rest, h)) by {
            if has_handle(rest, h) {
                let k = slot_of(rest, h);
                assert(subs[k].handle != subs[subs.len() - 1].handle);
            }
        }
        assert(queues_of(subs).dom() =~= queues_of(rest).dom().insert(h)) by {
            assert forall|k: u64| queues_of(subs).dom().contains(k) == queues_of(rest).dom().insert(
                h,
            ).contains(k) by {
                if has_handle(subs, k) {
                    let i = slot_of(subs, k);
                    if i < rest.len() {
                        assert(rest[i].handle == k);
                    }
                }
                if has_handle(rest, k) {
                    let i = slot_of(rest, k);
                    assert(subs[i].handle == k);
                }
                assert(subs[subs.len() - 1].handle == h);
            }
        }
    }
}

/// Publishing changes no one's membership, and each queue goes through
/// the appends on its own.
pub proof fn lemma_published_all(
    queues: Map<u64, Seq<MessageView>>,
    records: Seq<MessageView>,
    capacity: nat,
)
    ensures
        published_all(queues, records, capacity).dom() == queues.dom(),
        forall|h: u64| #[trigger]
            queues.dom().contains(h) ==> published_all(queues, records, capacity)[h]
                == appended_all(queues[h], records, capacity),
    decreases records.len(),
{
    if records.len() > 0 {
        lemma_published_all(queues, records.drop_last(), capacity);
    }
}

/// A subscriber that joins and never takes anything out holds, after any
/// run of publishes, the last `capacity` of the published records in the
/// order of publication: at most `capacity` of them, and the oldest are
/// the ones that were dropped.
pub proof fn lemma_undrained_subscriber(
    queues: Map<u64, Seq<MessageView>>,
    handle: u64,
    records: Seq<MessageView>,
    capacity: nat,
)
    ensures
        published_all(queues.insert(handle, Seq::empty()), records, capacity)[handle] == last_n(
            records,
            capacity,
        ),
        published_all(queues.insert(handle, Seq::empty()), records, capacity)[handle].len()
            <= capacity,
{
    let joined = queues.insert(handle, Seq::empty());
    lemma_published_all(joined, records, capacity);
    assert(joined.dom().contains(handle));
    lemma_appended_all_keeps_last(Seq::<MessageView>::empty(), records, capacity);
    assert(Seq::<MessageView>::empty() + records =~= records);
}

/// What was published before a subscriber joined never reaches it: its
/// queue is the one it would have had if those publishes had not happened,
/// and holds nothing but what was published after it joined.
pub proof fn lemma_no_replay(
    queues: Map<u64, Seq<MessageView>>,
    earlier: Seq<MessageView>,
    handle: u64,
    later: Seq<MessageView>,
    capacity: nat,
)
    ensures
        published_all(queues, earlier, capacity).insert(handle, Seq::empty())[handle]
            == Seq::<MessageView>::empty(),
        published_all(
            published_all(queues, earlier, capacity).insert(handle, Seq::empty()),
            later,
            capacity,
        )[handle] == published_all(queues.insert(handle, Seq::empty()), later, capacity)[handle],
        published_all(
            published_all(queues, earlier, capacity).insert(handle, Seq::empty()),
            later,
            capacity,
        )[handle] == last_n(later, capacity),
        forall|record: MessageView|
            last_n(later, capacity).contains(record) ==> later.contains(record),
{
    lemma_undrained_subscriber(published_all(queues, earlier, capacity), handle, later, capacity);
    lemma_undrained_subscriber(queues, handle, later, capacity);
    let kept = last_n(later, capacity);
    assert forall|record: MessageView| kept.contains(record) implies later.contains(record) by {
        let i = choose|i: int| 0 <= i < kept.len() && kept[i] == record;
        assert(later[later.len() - kept.len() + i] == record);
    }
}

/// What happens to one subscriber's queue: a record is published, or the
/// subscriber takes the oldest record out.
pub enum QueueStep {
    Publish(MessageView),
    Take,
}

/// The records that `steps` publish, in order.
pub open spec fn published_by(steps: Seq<QueueStep>) -> Seq<MessageView>
    decreases steps.len(),
{
    if steps.len() == 0 {
        Seq::empty()
    } else {
        let earlier = published_by(steps.drop_last());
        match steps.last() {
            QueueStep::Publish(record) => earlier.push(record),
            QueueStep::Take => earlier,
        }
    }
}

/// The queue of a subscriber that joined with an empty queue and then
/// went through `steps`.
pub open spec fn queue_after(steps: Seq<QueueStep>, capacity: nat) -> Seq<MessageView>
    decreases steps.len(),
{
    if steps.len() == 0 {
        Seq::empty()
    } else {
        let queue = queue_after(steps.drop_last(), capacity);
        match steps.last() {
            QueueStep::Publish(record) => appended(queue, record, capacity),
            QueueStep::Take => if queue.len() > 0 {
                queue.skip(1)
            } else {
                queue
            },
        }
    }
}

/// The records that such a subscriber took out during `steps`, in the
/// order in which it took them.
pub open spec fn taken_during(steps: Seq<QueueStep>, capacity: nat) -> Seq<MessageView>
    decreases steps.len(),
{
    if steps.len() == 0 {
        Seq::empty()
    } else {
        let queue = queue_after(steps.drop_last(), capacity);
        let taken = taken_during(steps.drop_last(), capacity);
        match steps.last() {
            QueueStep::Publish(_) => taken,
            QueueStep::Take => if queue.len() > 0 {
                taken.push(queue[0])
            } else {
                taken
            },
        }
    }
}

/// For each record that such a subscriber took out during `steps`, its
/// place among the records that `steps` publish.
pub open spec fn places_taken(steps: Seq<QueueStep>, capacity: nat) -> Seq<int>
    decreases steps.len(),
{
    if steps.len() == 0 {
        Seq::empty()
    } else {
        let queue = queue_after(steps.drop_last(), capacity);
        let places = places_taken(steps.drop_last(), capacity);
        match steps.last() {
            QueueStep::Publish(_) => places,
            QueueStep::Take => if queue.len() > 0 {
                places.push(published_by(steps.drop_last()).len() - queue.len())
            } else {
                places
            },
        }
    }
}

/// A subscriber sees records in the order of publication and sees none
/// that was published before it joined. However publishes and takes
/// follow each other: its queue is a tail of what was published since it
/// joined, never longer than the capacity; every record it took out is
/// one of those published since, from before that tail; and of two
/// records it took out, the one it took first was published first.
pub proof fn lemma_publication_order(steps: Seq<QueueStep>, capacity: nat)
    ensures
        queue_after(steps, capacity).len() <= capacity,
        queue_after(steps, capacity).len() <= published_by(steps).len(),
        queue_after(steps, capacity) == published_by(steps).skip(
            published_by(steps).len() - queue_after(steps, capacity).len(),
        ),
        taken_during(steps, capacity).len() == places_taken(steps, capacity).len(),
        forall|i: int|
            0 <= i < places_taken(steps, capacity).len() ==> {
                &&& 0 <= (#[trigger] places_taken(steps, capacity)[i]) < published_by(steps).len()
                    - queue_after(steps, capacity).len()
                &&& taken_during(steps, capacity)[i] == published_by(
                    steps,
                )[places_taken(steps, capacity)[i]]
            },
        forall|i: int, j: int|
            0 <= i < j < places_taken(steps, capacity).len() ==> (#[trigger] places_taken(
                steps,
                capacity,
            )[i]) < (#[trigger] places_taken(steps, capacity)[j]),
    decreases steps.len(),
{
    if steps.len() > 0 {
        let before = steps.drop_last();
        lemma_publication_order(before, capacity);
        let p0 = published_by(before);
        let q0 = queue_after(before, capacity);
        let t0 = taken_during(before, capacity);
        let k0 = places_taken(before, capacity);
        let p = published_by(steps);
        let q = queue_after(steps, capacity);
        let t = taken_during(steps, capacity);
        let k = places_taken(steps, capacity);
        match steps.last() {
            QueueStep::Publish(record) => {
                assert(p == p0.push(record));
                assert(q0.push(record) =~= p.skip(p.len() - (q0.len() + 1)));
                assert(q =~= p.skip(p.len() - q.len()));
                assert forall|i: int| 0 <= i < k.len() implies 0 <= (#[trigger] k[i]) < p.len()
                    - q.len() && t[i] == p[k[i]] by {
                    assert(k0[i] < p0.len() - q0.len());
                    assert(t0[i] == p0[k0[i]]);
                }
            },
            QueueStep::Take => {
                if q0.len() > 0 {
                    assert(q =~= p.skip(p.len() - q.len()));
                    assert(q0[0] == p0[p0.len() - q0.len()]);
                    assert forall|i: int| 0 <= i < k.len() implies 0 <= (#[trigger] k[i])
                        < p.len() - q.len() && t[i] == p[k[i]] by {
                        if i < k0.len() {
                            assert(k0[i] < p0.len() - q0.len());
                            assert(t0[i] == p0[k0[i]]);
                        }
                    }
                    assert forall|i: int, j: int| 0 <= i < j < k.len() implies (#[trigger] k[i])
                        < (#[trigger] k[j]) by {
                        if j < k0.len() {
                            assert(k0[i] < k0[j]);
                        } else {
                            assert(k0[i] < p0.len() - q0.len());
                        }
                    }
                }
            },
        }
    }
}

} // verus!
