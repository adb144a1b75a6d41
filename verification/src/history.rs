//! The bounded history of recent records: append with eviction of the
//! oldest, and filtered point-in-time copies.

use vstd::prelude::*;
use crate::bounded::{appended, push_bounded};
use crate::message::{all_wf, views, CanMessage, MessageView};

verus! {

/// Whether a record passes `filter`: an empty filter lets everything
/// through, any other one the identifiers it lists.
pub open spec fn passes(filter: Seq<u32>, record: MessageView) -> bool {
    filter.len() == 0 || filter.contains(record.id)
}

/// The records of `history` that pass `filter`, in the order they have there.
pub open spec fn selected(history: Seq<MessageView>, filter: Seq<u32>) -> Seq<MessageView> {
    history.filter(|m: MessageView| passes(filter, m))
}

/// A bounded store of the most recent records, oldest first.
pub struct HistoryStore {
    records: Vec<CanMessage>,
    capacity: usize,
}

impl View for HistoryStore {
    type V = Seq<MessageView>;

    closed spec fn view(&self) -> Seq<MessageView> {
        views(self.records@)
    }
}

impl HistoryStore {
    /// The number of records the store keeps at most.
    pub closed spec fn capacity_spec(&self) -> nat {
        self.capacity as nat
    }

    /// The invariant that every store carries at run time: it never holds
    /// more than its capacity.
    #[verifier::type_invariant]
    pub open spec fn inv(self) -> bool {
        self@.len() <= self.capacity_spec()
    }

    /// An empty store that keeps at most `capacity` records.
    pub fn new(capacity: usize) -> (store: Self)
        ensures
            store@ == Seq::<MessageView>::empty(),
            store.capacity_spec() == capacity,
    {
        let store = HistoryStore { records: Vec::new(), capacity };
        assert(store@ =~= Seq::<MessageView>::empty());
        store
    }

    /// The capacity the store was made with.
    pub fn capacity(&self) -> (n: usize)
        ensures
            n == self.capacity_spec(),
    {
        self.capacity
    }

    /// The number of records held; never more than the capacity.
    pub fn len(&self) -> (n: usize)
        ensures
            n == self@.len(),
            n <= self.capacity_spec(),
    {
        proof {
            use_type_invariant(self);
        }
        self.records.len()
    }

    /// Whether the store holds nothing.
    pub fn is_empty(&self) -> (b: bool)
        ensures
            b <==> self@.len() == 0,
    {
        self.records.len() == 0
    }

    /// Appends `record` at the tail and evicts from the head whatever
    /// exceeds the capacity. It always succeeds.
    pub fn append(&mut self, record: CanMessage)
        ensures
            final(self)@ == appended(old(self)@, record@, old(self).capacity_spec()),
            final(self).capacity_spec() == old(self).capacity_spec(),
            final(self)@.len() <= final(self).capacity_spec(),
    {
        proof {
            use_type_invariant(&*self);
        }
        let mut records: Vec<CanMessage> = Vec::new();
        assert(views(records@) =~= Seq::<MessageView>::empty());
        core::mem::swap(&mut self.records, &mut records);
        push_bounded(&mut records, record, self.capacity);
        core::mem::swap(&mut self.records, &mut records);
    }

    /// An ordered copy of the records that pass `filter`: all of them where
    /// `filter` is empty, else those whose identifier it lists. There are
    /// no more of them than the store can hold, and each is a well-formed
    /// record.
    pub fn snapshot(&self, filter: &[u32]) -> (copy: Vec<CanMessage>)
        ensures
            views(copy@) == selected(self@, filter@),
            filter@.len() == 0 ==> views(copy@) == self@,
            copy@.len() <= self@.len() <= self.capacity_spec(),
            all_wf(views(copy@)),
    {
        proof {
            use_type_invariant(self);
        }
        let ghost pred = |m: MessageView| passes(filter@, m);
        let mut copy: Vec<CanMessage> = Vec::new();
        let mut i: usize = 0;
        assert(self@.take(0) =~= Seq::<MessageView>::empty());
        assert(views(copy@) =~= self@.take(0).filter(pred));
        while i < self.records.len()
            invariant
                i <= self.records.len(),
                pred == (|m: MessageView| passes(filter@, m)),
                views(copy@) == self@.take(i as int).filter(pred),
                copy@.len() <= i,
                all_wf(views(copy@)),
            decreases self.records.len() - i,
        {
            let record = &self.records[i];
            let keep = filter.len() == 0 || lists(filter, record.id());
            proof {
                assert(self@.take(i + 1) =~= self@.take(i as int).push(record@));
                self@.take(i as int).lemma_filter_push(record@, pred);
                assert(keep == pred(record@));
            }
            if keep {
                let ghost shorter = copy@;
                proof {
                    use_type_invariant(record);
                }
                copy.push(record.clone());
                assert(views(copy@) =~= views(shorter).push(record@));
            }
            i += 1;
        }
        assert(self@.take(i as int) =~= self@);
        proof {
            if filter@.len() == 0 {
                lemma_filter_all(self@, pred);
            }
        }
        copy
    }
}

/// Whether `id` occurs in `ids`.
pub fn lists(ids: &[u32], id: u32) -> (found: bool)
    ensures
        found == ids@.contains(id),
{
    let mut i: usize = 0;
    while i < ids.len()
        invariant
            i <= ids.len(),
            forall|j: int| 0 <= j < i ==> ids@[j] != id,
        decreases ids.len() - i,
    {
        if ids[i] == id {
            return true;
        }
        i += 1;
    }
    false
}

/// A snapshot holds only records of the history, each one that passes the
/// filter, and no others.
pub proof fn lemma_selected_members(history: Seq<MessageView>, filter: Seq<u32>, record: MessageView)
    ensures
        selected(history, filter).contains(record) <==> history.contains(record) && passes(
            filter,
            record,
        ),
        selected(history, filter).len() <= history.len(),
        filter.len() == 0 ==> selected(history, filter) == history,
{
    let pred = |m: MessageView| passes(filter, m);
    if selected(history, filter).contains(record) {
        let i = choose|i: int|
            0 <= i < selected(history, filter).len() && selected(history, filter)[i] == record;
        history.lemma_filter_pred(pred, i);
        history.lemma_filter_contains_rev(pred, record);
    }
    if history.contains(record) && passes(filter, record) {
        let i = choose|i: int| 0 <= i < history.len() && history[i] == record;
        history.lemma_filter_contains(pred, i);
    }
    history.lemma_filter_len(pred);
    if filter.len() == 0 {
        lemma_filter_all(history, pred);
    }
}

/// A snapshot keeps the order of the history: of two records in it, the
/// one that comes first was inserted first.
pub proof fn lemma_selected_keeps_order(
    history: Seq<MessageView>,
    filter: Seq<u32>,
    i: int,
    j: int,
)
    requires
        0 <= i < j < selected(history, filter).len(),
    ensures
        exists|p: int, q: int|
            0 <= p < q < history.len() && #[trigger] history[p] == selected(history, filter)[i]
                && #[trigger] history[q] == selected(history, filter)[j],
    decreases history.len(),
{
    let pred = |m: MessageView| passes(filter, m);
    let picked = selected(history, filter);
    if history.len() > 0 {
        let earlier = history.drop_last();
        let newest = history.last();
        assert(earlier.push(newest) =~= history);
        earlier.lemma_filter_push(newest, pred);
        let before = selected(earlier, filter);
        if j < before.len() {
            lemma_selected_keeps_order(earlier, filter, i, j);
            let (p, q) = choose|p: int, q: int|
                0 <= p < q < earlier.len() && #[trigger] earlier[p] == before[i]
                    && #[trigger] earlier[q] == before[j];
            assert(history[p] == picked[i] && history[q] == picked[j]);
        } else {
            assert(picked == before.push(newest));
            assert(before.contains(before[i]));
            earlier.lemma_filter_contains_rev(pred, before[i]);
            let p = choose|p: int| 0 <= p < earlier.len() && earlier[p] == before[i];
            let q = history.len() - 1;
            assert(history[p] == picked[i] && history[q] == picked[j]);
        }
    }
}

/// Filtering by a predicate that holds of every item changes nothing.
proof fn lemma_filter_all<T>(s: Seq<T>, pred: spec_fn(T) -> bool)
    requires
        forall|i: int| 0 <= i < s.len() ==> pred(#[trigger] s[i]),
    ensures
        s.filter(pred) == s,
    decreases s.len(),
{
    reveal(Seq::filter);
    if s.len() > 0 {
        assert forall|i: int| 0 <= i < s.drop_last().len() implies pred(
            #[trigger] s.drop_last()[i],
        ) by {
            assert(s.drop_last()[i] == s[i]);
        }
        lemma_filter_all(s.drop_last(), pred);
        assert(pred(s[s.len() - 1]));
        assert(s.drop_last().push(s.last()) =~= s);
    }
}

} // verus!
