//! The pending-task queue: highest priority first, ties broken by
//! insertion time, then by identifier.

use vstd::prelude::*;
use vstd::seq_lib::group_to_multiset_ensures;
use crate::clock::now_epoch;
use crate::task::TaskId;

verus! {

/// One queued entry: a task identifier with the priority and insertion
/// time that order it.
#[derive(Debug, Clone, Copy, PartialEq, Eq, Structural)]
pub struct QueueItem {
    pub id: TaskId,
    pub priority: i32,
    pub inserted_at: u64,
}

impl QueueItem {
    /// A queue entry inserted now.
    pub fn new(id: TaskId, priority: i32) -> (r: QueueItem)
        ensures
            r.id == id,
            r.priority == priority,
    {
        QueueItem { id, priority, inserted_at: now_epoch() }
    }

    /// A queue entry with an explicit insertion time.
    pub fn with_time(id: TaskId, priority: i32, inserted_at: u64) -> (r: QueueItem)
        ensures
            r == (QueueItem { id, priority, inserted_at }),
    {
        QueueItem { id, priority, inserted_at }
    }
}

/// `a` leaves the queue no later than `b`: higher priority first, then
/// earlier insertion, then smaller identifier.
pub open spec fn spec_precedes(a: QueueItem, b: QueueItem) -> bool {
    ||| a.priority > b.priority
    ||| (a.priority == b.priority && a.inserted_at < b.inserted_at)
    ||| (a.priority == b.priority && a.inserted_at == b.inserted_at && a.id.bits <= b.id.bits)
}

/// The order is total.
pub proof fn lemma_precedes_total(a: QueueItem, b: QueueItem)
    ensures
        spec_precedes(a, b) || spec_precedes(b, a),
{
}

fn precedes(a: &QueueItem, b: &QueueItem) -> (r: bool)
    ensures
        r == spec_precedes(*a, *b),
{
    if a.priority != b.priority {
        a.priority > b.priority
    } else if a.inserted_at != b.inserted_at {
        a.inserted_at < b.inserted_at
    } else {
        a.id.bits <= b.id.bits
    }
}

/// The queue of pending tasks. Its value is the sequence of entries it
/// holds; `pop` always removes an entry preceding every other.
#[derive(Debug)]
pub struct TaskQueue {
    items: Vec<QueueItem>,
}

impl View for TaskQueue {
    type V = Seq<QueueItem>;

    closed spec fn view(&self) -> Seq<QueueItem> {
        self.items@
    }
}

impl TaskQueue {
    /// An empty queue.
    pub fn new() -> (q: TaskQueue)
        ensures
            q@.len() == 0,
    {
        TaskQueue { items: Vec::new() }
    }

    pub fn push(&mut self, item: QueueItem)
        ensures
            final(self)@ == old(self)@.push(item),
    {
        self.items.push(item);
    }

    pub fn len(&self) -> (n: usize)
        ensures
            n == self@.len(),
    {
        self.items.len()
    }

    pub fn is_empty(&self) -> (r: bool)
        ensures
            r == (self@.len() == 0),
    {
        self.items.len() == 0
    }

    /// Remove and return an entry that precedes every entry the queue
    /// held; `None` only on an empty queue.
    pub fn pop(&mut self) -> (r: Option<QueueItem>)
        ensures
            match r {
                Some(m) => {
                    &&& old(self)@.len() > 0
                    &&& final(self)@.len() == old(self)@.len() - 1
                    &&& old(self)@.to_multiset() == final(self)@.to_multiset().insert(m)
                    &&& forall|i: int| 0 <= i < old(self)@.len() ==> spec_precedes(m, old(self)@[i])
                },
                None => {
                    &&& old(self)@.len() == 0
                    &&& final(self)@ == old(self)@
                },
            },
    {
        if self.items.len() == 0 {
            return None;
        }
        let mut best: usize = 0;
        let mut i: usize = 1;
        while i < self.items.len()
            invariant
                self.items@.len() > 0,
                0 <= best < i <= self.items@.len(),
                forall|j: int|
                    0 <= j < i ==> spec_precedes(self.items@[best as int], self.items@[j]),
            decreases self.items@.len() - i,
        {
            if !precedes(&self.items[best], &self.items[i]) {
                proof {
                    lemma_precedes_total(self.items@[best as int], self.items@[i as int]);
                }
                best = i;
            }
            i = i + 1;
        }
        let m = self.items.remove(best);
        proof {
            broadcast use group_to_multiset_ensures;

            assert(old(self)@.remove(best as int).to_multiset() =~= old(self)@.to_multiset().remove(
                m,
            ));
            assert(old(self)@.to_multiset().contains(m)) by {
                assert(old(self)@[best as int] == m);
                assert(old(self)@.contains(m));
            }
            assert(old(self)@.to_multiset() =~= final(self)@.to_multiset().insert(m));
        }
        Some(m)
    }
}

/// Pop order matches the lexicographic key: whatever entry a pop returns
/// precedes every entry still in the queue, so two successive pops come
/// out in order.
pub proof fn law_queue_pop_order(q0: Seq<QueueItem>, m1: QueueItem, q1: Seq<QueueItem>, m2: QueueItem)
    requires
        q0.to_multiset() == q1.to_multiset().insert(m1),
        forall|i: int| 0 <= i < q0.len() ==> spec_precedes(m1, q0[i]),
        q1.to_multiset().contains(m2),
    ensures
        spec_precedes(m1, m2),
{
    broadcast use group_to_multiset_ensures;

    assert(q0.to_multiset().count(m2) > 0);
    assert(q0.contains(m2));
    let i = choose|i: int| 0 <= i < q0.len() && q0[i] == m2;
    assert(spec_precedes(m1, q0[i]));
}

} // verus!
