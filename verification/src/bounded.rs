//! The bounded first-in, first-out queue that both the history and every
//! subscriber's delivery queue are: its model, its laws, and the one
//! operation that fills it.

use vstd::prelude::*;
use crate::message::{views, CanMessage};

verus! {

/// The last `n` items of `s`, or all of `s` where it has no more than `n`.
pub open spec fn last_n<T>(s: Seq<T>, n: nat) -> Seq<T> {
    if s.len() <= n {
        s
    } else {
        s.skip(s.len() - n)
    }
}

/// A queue of capacity `capacity` after `item` was appended to it: the
/// item goes to the tail, and what exceeds the capacity leaves at the head.
pub open spec fn appended<T>(queue: Seq<T>, item: T, capacity: nat) -> Seq<T> {
    last_n(queue.push(item), capacity)
}

/// A queue after the items of `items` were appended one by one.
pub open spec fn appended_all<T>(queue: Seq<T>, items: Seq<T>, capacity: nat) -> Seq<T>
    decreases items.len(),
{
    if items.len() == 0 {
        queue
    } else {
        appended(appended_all(queue, items.drop_last(), capacity), items.last(), capacity)
    }
}

/// Appends `record` to a queue of at most `capacity` records, evicting
/// the oldest where the queue is full.
pub(crate) fn push_bounded(queue: &mut Vec<CanMessage>, record: CanMessage, capacity: usize)
    requires
        old(queue)@.len() <= capacity,
    ensures
        final(queue)@.len() <= capacity,
        views(final(queue)@) == appended(views(old(queue)@), record@, capacity as nat),
{
    let ghost before = queue@;
    if capacity == 0 {
        assert(views(before) =~= appended(views(before), record@, 0));
        return ;
    }
    if queue.len() == capacity {
        let _ = queue.remove(0);
    }
    queue.push(record);
    assert(views(queue@) =~= appended(views(before), record@, capacity as nat));
}

/// Append keeps a queue within its capacity and evicts nothing but the
/// oldest item, and that only from a full queue; wherever the capacity is
/// not zero the newest item ends up last.
pub proof fn lemma_appended_bounds<T>(queue: Seq<T>, item: T, capacity: nat)
    requires
        queue.len() <= capacity,
    ensures
        appended(queue, item, capacity).len() <= capacity,
        capacity > 0 ==> appended(queue, item, capacity).last() == item,
        queue.len() < capacity ==> appended(queue, item, capacity) == queue.push(item),
        queue.len() == capacity && capacity > 0 ==> appended(queue, item, capacity)
            == queue.skip(1).push(item),
        capacity == 0 ==> appended(queue, item, capacity) == queue,
{
    if queue.len() == capacity && capacity > 0 {
        assert(appended(queue, item, capacity) =~= queue.skip(1).push(item));
    }
    if capacity == 0 {
        assert(appended(queue, item, capacity) =~= queue);
    }
}

/// A queue that starts within its capacity holds, after any run of
/// appends, exactly the last `capacity` of all its items in insertion order.
pub proof fn lemma_appended_all_keeps_last<T>(queue: Seq<T>, items: Seq<T>, capacity: nat)
    requires
        queue.len() <= capacity,
    ensures
        appended_all(queue, items, capacity) == last_n(queue + items, capacity),
    decreases items.len(),
{
    if items.len() == 0 {
        assert(queue + items =~= queue);
    } else {
        let earlier = items.drop_last();
        lemma_appended_all_keeps_last(queue, earlier, capacity);
        assert((queue + earlier).push(items.last()) =~= queue + items);
        assert(last_n(last_n(queue + earlier, capacity).push(items.last()), capacity) =~= last_n(
            queue + items,
            capacity,
        ));
    }
}

/// An empty queue of capacity `capacity` into which `items` were appended
/// one by one holds exactly the last `capacity` of them, in insertion
/// order: the oldest are the ones that left.
pub proof fn lemma_holds_last<T>(items: Seq<T>, capacity: nat)
    ensures
        appended_all(Seq::empty(), items, capacity) == last_n(items, capacity),
        appended_all(Seq::<T>::empty(), items, capacity).len() == if items.len() <= capacity {
            items.len()
        } else {
            capacity
        },
        forall|i: int|
            0 <= i < last_n(items, capacity).len() ==> #[trigger] last_n(items, capacity)[i]
                == items[items.len() - last_n(items, capacity).len() + i],
{
    lemma_appended_all_keeps_last(Seq::empty(), items, capacity);
    assert(Seq::<T>::empty() + items =~= items);
}

} // verus!
