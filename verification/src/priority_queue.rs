//! A priority work queue that reports quiescence.
//!
//! Items are delivered smallest priority first. The queue counts the items
//! that were sent and whose receive guard has not been released yet. When
//! that count falls back to zero, nothing is queued and nobody is working on
//! anything, so the queue puts a single [`QueueEntry::Drained`] marker up for
//! delivery. A `send` that arrives before the marker was taken withdraws it:
//! the queue is busy again and will signal the next time it runs dry.
//!
//! The type is a sequential state machine. A program with several workers
//! keeps it behind a lock, waits on a condition variable while `is_empty`
//! holds, and calls `release` from the destructor of its own guard.
use vstd::prelude::*;

verus! {

/// What the queue hands to a receiver.
#[derive(Debug)]
pub enum QueueEntry<K> {
    /// A payload with its priority.
    Item(K, u64),
    /// The queue ran empty and no receiver holds an item any more.
    Drained,
    /// Left behind in a guard whose entry was taken out.
    Taken,
}

/// The priority of an item; -1 for the two markers.
pub open spec fn priority_of<K>(e: QueueEntry<K>) -> int {
    match e {
        QueueEntry::Item(_, p) => p as int,
        _ => -1,
    }
}

impl<K> QueueEntry<K> {
    /// Returns a reference to the payload of an item.
    pub fn entry(&self) -> (r: Option<&K>)
        ensures
            r == match *self {
                QueueEntry::Item(k, _) => Some(&k),
                _ => None,
            },
    {
        match self {
            QueueEntry::Item(k, _) => Some(k),
            _ => None,
        }
    }

    /// Returns a reference to the priority of an item.
    pub fn priority(&self) -> (r: Option<&u64>)
        ensures
            r == match *self {
                QueueEntry::Item(_, p) => Some(&p),
                _ => None,
            },
    {
        match self {
            QueueEntry::Item(_, prio) => Some(prio),
            _ => None,
        }
    }

    /// Returns `true` for the `Drained` marker.
    pub fn is_drained(&self) -> (r: bool)
        ensures
            r == (*self is Drained),
    {
        match self {
            QueueEntry::Drained => true,
            _ => false,
        }
    }
}

impl<K: Clone> Clone for QueueEntry<K> {
    fn clone(&self) -> (r: Self)
        ensures
            priority_of(r) == priority_of(*self),
            r is Drained == *self is Drained,
            r is Taken == *self is Taken,
    {
        match self {
            QueueEntry::Item(k, prio) => QueueEntry::Item(k.clone(), *prio),
            QueueEntry::Drained => QueueEntry::Drained,
            QueueEntry::Taken => QueueEntry::Taken,
        }
    }
}

impl<K: Copy> Copy for QueueEntry<K> {

}

impl<K> Default for QueueEntry<K> {
    fn default() -> (r: Self)
        ensures
            r is Taken,
    {
        QueueEntry::Taken
    }
}

/// The queue as a mathematical value.
pub struct QueueState<K> {
    /// What is queued, in storage order: the last entry is delivered next.
    pub entries: Seq<QueueEntry<K>>,
    /// Items sent whose guard has not been released.
    pub in_progress: nat,
    /// No item was sent since the queue was made or last signalled.
    pub is_drained: bool,
}

/// Every entry is an item.
pub open spec fn all_items<K>(entries: Seq<QueueEntry<K>>) -> bool {
    forall|i: int| 0 <= i < entries.len() ==> (#[trigger] entries[i]) is Item
}

/// Priorities never rise from the front to the back.
pub open spec fn descending<K>(entries: Seq<QueueEntry<K>>) -> bool {
    forall|i: int, j: int|
        0 <= i < j < entries.len() ==> priority_of(#[trigger] entries[i]) >= priority_of(
            #[trigger] entries[j],
        )
}

/// Where a new item of priority `prio` goes: behind every entry of greater
/// priority and in front of the others, so that among equal priorities the
/// older item is delivered first.
pub open spec fn slot<K>(entries: Seq<QueueEntry<K>>, prio: u64) -> int
    decreases entries.len(),
{
    if entries.len() == 0 || priority_of(entries[0]) <= prio {
        0
    } else {
        1 + slot(entries.drop_first(), prio)
    }
}

impl<K> QueueState<K> {
    /// A queue that holds nothing and has nothing to signal.
    pub open spec fn idle() -> Self {
        QueueState { entries: Seq::empty(), in_progress: 0, is_drained: true }
    }

    /// The `Drained` marker is up for delivery.
    pub open spec fn marker_queued(self) -> bool {
        self.entries.len() == 1 && self.entries[0] is Drained
    }

    /// The queued items, without the marker.
    pub open spec fn items(self) -> Seq<QueueEntry<K>> {
        if self.in_progress == 0 {
            Seq::empty()
        } else {
            self.entries
        }
    }

    /// Items that were delivered and whose guard is still out.
    pub open spec fn outstanding(self) -> int {
        self.in_progress - self.items().len()
    }

    /// The invariant of every queue.
    pub open spec fn wf(self) -> bool {
        &&& self.is_drained <==> self.in_progress == 0
        &&& self.in_progress == 0 ==> self.entries.len() == 0 || self.marker_queued()
        &&& self.in_progress > 0 ==> {
            &&& all_items(self.entries)
            &&& descending(self.entries)
            &&& self.entries.len() <= self.in_progress
        }
    }

    /// The state after `send(item, prio)`.
    pub open spec fn send(self, item: K, prio: u64) -> Self {
        QueueState {
            entries: self.items().insert(slot(self.items(), prio), QueueEntry::Item(item, prio)),
            in_progress: self.in_progress + 1,
            is_drained: false,
        }
    }

    /// The entry that the next receive delivers, where one is queued.
    pub open spec fn next(self) -> QueueEntry<K> {
        self.entries.last()
    }

    /// The state after a receive.
    pub open spec fn recv(self) -> Self {
        QueueState { entries: self.entries.drop_last(), ..self }
    }

    /// The state after the guard of one delivery was released. `counted`
    /// says that the guard was made for an item.
    pub open spec fn release(self, counted: bool) -> Self {
        if counted && self.outstanding() > 0 {
            if self.in_progress == 1 {
                QueueState { entries: seq![QueueEntry::Drained], in_progress: 0, is_drained: true }
            } else {
                QueueState { in_progress: (self.in_progress - 1) as nat, ..self }
            }
        } else {
            self
        }
    }
}

/// A position that splits a descending run at `prio` is the slot of `prio`.
pub proof fn lemma_slot_is_split<K>(entries: Seq<QueueEntry<K>>, prio: u64, pos: int)
    requires
        0 <= pos <= entries.len(),
        forall|i: int| 0 <= i < pos ==> priority_of(#[trigger] entries[i]) > prio,
        forall|i: int| pos <= i < entries.len() ==> priority_of(#[trigger] entries[i]) <= prio,
    ensures
        slot(entries, prio) == pos,
    decreases entries.len(),
{
    if entries.len() == 0 || priority_of(entries[0]) <= prio {
        if pos > 0 {
            assert(priority_of(entries[0]) > prio);
        }
    } else {
        let rest = entries.drop_first();
        assert(pos > 0) by {
            if pos == 0 {
                assert(priority_of(entries[0]) <= prio);
            }
        }
        assert forall|i: int| 0 <= i < pos - 1 implies priority_of(#[trigger] rest[i]) > prio by {
            assert(rest[i] == entries[i + 1]);
        }
        assert forall|i: int| pos - 1 <= i < rest.len() implies priority_of(#[trigger] rest[i])
            <= prio by {
            assert(rest[i] == entries[i + 1]);
        }
        lemma_slot_is_split(rest, prio, pos - 1);
    }
}

/// The slot lies inside the run and splits it at `prio`.
pub proof fn lemma_slot_splits<K>(entries: Seq<QueueEntry<K>>, prio: u64)
    requires
        descending(entries),
    ensures
        0 <= slot(entries, prio) <= entries.len(),
        forall|i: int|
            0 <= i < slot(entries, prio) ==> priority_of(#[trigger] entries[i]) > prio,
        forall|i: int|
            slot(entries, prio) <= i < entries.len() ==> priority_of(#[trigger] entries[i])
                <= prio,
    decreases entries.len(),
{
    if entries.len() == 0 || priority_of(entries[0]) <= prio {
        assert forall|i: int| 0 <= i < entries.len() implies priority_of(#[trigger] entries[i])
            <= prio by {
            if i > 0 {
                assert(priority_of(entries[0]) >= priority_of(entries[i]));
            }
        }
    } else {
        let rest = entries.drop_first();
        assert(descending(rest)) by {
            assert forall|i: int, j: int| 0 <= i < j < rest.len() implies priority_of(
                #[trigger] rest[i],
            ) >= priority_of(#[trigger] rest[j]) by {
                assert(rest[i] == entries[i + 1]);
                assert(rest[j] == entries[j + 1]);
            }
        }
        lemma_slot_splits(rest, prio);
        let s = slot(rest, prio);
        assert forall|i: int| 0 <= i < s + 1 implies priority_of(#[trigger] entries[i])
            > prio by {
            if i > 0 {
                assert(entries[i] == rest[i - 1]);
            }
        }
        assert forall|i: int| s + 1 <= i < entries.len() implies priority_of(
            #[trigger] entries[i],
        ) <= prio by {
            assert(entries[i] == rest[i - 1]);
        }
    }
}

/// A send keeps the invariant.
pub proof fn lemma_send_keeps_wf<K>(s: QueueState<K>, item: K, prio: u64)
    requires
        s.wf(),
    ensures
        s.send(item, prio).wf(),
        s.send(item, prio).entries.len() == s.items().len() + 1,
{
    let items = s.items();
    assert(descending(items) && all_items(items));
    lemma_slot_splits(items, prio);
    let pos = slot(items, prio);
    let e = QueueEntry::Item(item, prio);
    let after = items.insert(pos, e);
    assert forall|i: int| 0 <= i < after.len() implies (#[trigger] after[i]) is Item by {
        if i < pos {
            assert(after[i] == items[i]);
        } else if i > pos {
            assert(after[i] == items[i - 1]);
        }
    }
    assert forall|i: int, j: int| 0 <= i < j < after.len() implies priority_of(
        #[trigger] after[i],
    ) >= priority_of(#[trigger] after[j]) by {
        let a = if i < pos {
            items[i]
        } else if i == pos {
            e
        } else {
            items[i - 1]
        };
        let b = if j < pos {
            items[j]
        } else if j == pos {
            e
        } else {
            items[j - 1]
        };
        assert(after[i] == a);
        assert(after[j] == b);
    }
}

/// A receive keeps the invariant.
pub proof fn lemma_recv_keeps_wf<K>(s: QueueState<K>)
    requires
        s.wf(),
        s.entries.len() > 0,
    ensures
        s.recv().wf(),
{
    let before = s.entries;
    let after = before.drop_last();
    if s.in_progress > 0 {
        assert forall|i: int| 0 <= i < after.len() implies (#[trigger] after[i]) is Item by {
            assert(after[i] == before[i]);
        }
        assert forall|i: int, j: int| 0 <= i < j < after.len() implies priority_of(
            #[trigger] after[i],
        ) >= priority_of(#[trigger] after[j]) by {
            assert(after[i] == before[i]);
            assert(after[j] == before[j]);
        }
    }
}

/// A guard around one delivered entry.
///
/// The receiver gives it back with [`PriorityQueue::release`] or
/// [`ReceiveGuard::into_item`] when it is done with the entry; that is what
/// lets the queue notice that it ran dry.
#[derive(Debug)]
pub struct ReceiveGuard<K> {
    item: QueueEntry<K>,
    counted: bool,
}

impl<K> ReceiveGuard<K> {
    /// The entry inside the guard.
    pub closed spec fn entry_spec(&self) -> QueueEntry<K> {
        self.item
    }

    /// Whether the guard was made for an item, and so counts as work in
    /// progress.
    pub closed spec fn counted(&self) -> bool {
        self.counted
    }

    fn new(item: QueueEntry<K>) -> (guard: Self)
        ensures
            guard.entry_spec() == item,
            guard.counted() == (item is Item),
    {
        let counted = match &item {
            QueueEntry::Item(_, _) => true,
            _ => false,
        };
        ReceiveGuard { item, counted }
    }

    /// Borrows the entry.
    pub fn entry(&self) -> (r: &QueueEntry<K>)
        ensures
            *r == self.entry_spec(),
    {
        &self.item
    }

    /// Takes the entry out and releases the guard to `pq`.
    pub fn into_item(self, pq: &mut PriorityQueue<K>) -> (entry: QueueEntry<K>)
        requires
            old(pq)@.wf(),
        ensures
            entry == self.entry_spec(),
            final(pq)@ == old(pq)@.release(self.counted()),
            final(pq)@.wf(),
    {
        let mut guard = self;
        let mut entry = QueueEntry::Taken;
        std::mem::swap(&mut guard.item, &mut entry);
        pq.release(guard);
        entry
    }
}

/// A queue which orders items by priority, smallest first.
#[derive(Debug)]
pub struct PriorityQueue<K> {
    heap: Vec<QueueEntry<K>>,
    in_progress: usize,
    is_drained: bool,
}

impl<K> View for PriorityQueue<K> {
    type V = QueueState<K>;

    closed spec fn view(&self) -> QueueState<K> {
        QueueState {
            entries: self.heap@,
            in_progress: self.in_progress as nat,
            is_drained: self.is_drained,
        }
    }
}

impl<K> PriorityQueue<K> {
    /// Creates a new, idle queue.
    pub fn new() -> (pq: PriorityQueue<K>)
        ensures
            pq@ == QueueState::<K>::idle(),
            pq@.wf(),
    {
        PriorityQueue { heap: Vec::new(), in_progress: 0, is_drained: true }
    }

    /// Nothing is queued: a receive would have to wait.
    pub fn is_empty(&self) -> (r: bool)
        ensures
            r == (self@.entries.len() == 0),
    {
        self.heap.len() == 0
    }

    /// The number of queued entries.
    pub fn len(&self) -> (r: usize)
        ensures
            r == self@.entries.len(),
    {
        self.heap.len()
    }

    /// The number of items sent whose guard was not released yet.
    pub fn in_progress(&self) -> (r: usize)
        ensures
            r == self@.in_progress,
    {
        self.in_progress
    }

    /// The index in `heap` at which an item of priority `prio` is stored.
    fn find_slot(&self, prio: u64) -> (pos: usize)
        requires
            all_items(self.heap@),
            descending(self.heap@),
        ensures
            pos == slot(self.heap@, prio),
            pos <= self.heap@.len(),
    {
        let mut lo: usize = 0;
        let mut hi: usize = self.heap.len();
        while lo < hi
            invariant
                0 <= lo <= hi <= self.heap@.len(),
                all_items(self.heap@),
                descending(self.heap@),
                forall|i: int| 0 <= i < lo ==> priority_of(#[trigger] self.heap@[i]) > prio,
                forall|i: int|
                    hi <= i < self.heap@.len() ==> priority_of(#[trigger] self.heap@[i]) <= prio,
            decreases hi - lo,
        {
            let mid = lo + (hi - lo) / 2;
            let above = match &self.heap[mid] {
                QueueEntry::Item(_, p) => *p > prio,
                _ => false,
            };
            if above {
                assert forall|i: int| 0 <= i < mid + 1 implies priority_of(
                    #[trigger] self.heap@[i],
                ) > prio by {
                    if i < mid {
                        assert(priority_of(self.heap@[i]) >= priority_of(self.heap@[mid as int]));
                    }
                }
                lo = mid + 1;
            } else {
                assert(self.heap@[mid as int] is Item);
                assert forall|i: int| mid <= i < self.heap@.len() implies priority_of(
                    #[trigger] self.heap@[i],
                ) <= prio by {
                    if i > mid {
                        assert(priority_of(self.heap@[mid as int]) >= priority_of(self.heap@[i]));
                    }
                }
                hi = mid;
            }
        }
        proof {
            lemma_slot_is_split(self.heap@, prio, lo as int);
        }
        lo
    }

    /// Pushes an item with some priority onto the queue. A `Drained` marker
    /// that nobody has taken yet is withdrawn.
    pub fn send(&mut self, item: K, prio: u64)
        requires
            old(self)@.wf(),
            old(self)@.in_progress < usize::MAX,
        ensures
            final(self)@ == old(self)@.send(item, prio),
            final(self)@.wf(),
    {
        if self.is_drained {
            self.heap.clear();
        }
        assert(self.heap@ =~= old(self)@.items());
        self.in_progress = self.in_progress + 1;
        self.is_drained = false;
        let pos = self.find_slot(prio);
        self.heap.insert(pos, QueueEntry::Item(item, prio));
        proof {
            lemma_send_keeps_wf(old(self)@, item, prio);
        }
    }

    /// Puts the `Drained` marker up for delivery, unless the queue has
    /// signalled already since the last `send`.
    fn send_drained(&mut self)
        requires
            old(self).in_progress == 0,
            old(self).heap@.len() == 0,
        ensures
            final(self).in_progress == 0,
            final(self).is_drained,
            final(self).heap@ == if old(self).is_drained {
                old(self).heap@
            } else {
                seq![QueueEntry::Drained]
            },
    {
        if !self.is_drained {
            self.is_drained = true;
            self.heap.push(QueueEntry::Drained);
            assert(self.heap@ =~= seq![QueueEntry::Drained]);
        }
    }

    /// Takes the next entry from the queue: the item of smallest priority,
    /// or the `Drained` marker. Something must be queued; see `try_recv`.
    pub fn recv(&mut self) -> (guard: ReceiveGuard<K>)
        requires
            old(self)@.wf(),
            old(self)@.entries.len() > 0,
        ensures
            guard.entry_spec() == old(self)@.next(),
            guard.counted() == (old(self)@.next() is Item),
            final(self)@ == old(self)@.recv(),
            final(self)@.wf(),
    {
        let entry = self.heap.pop().unwrap();
        proof {
            lemma_recv_keeps_wf(old(self)@);
        }
        ReceiveGuard::new(entry)
    }

    /// Takes the next entry if one is queued.
    pub fn try_recv(&mut self) -> (r: Option<ReceiveGuard<K>>)
        requires
            old(self)@.wf(),
        ensures
            final(self)@.wf(),
            old(self)@.entries.len() == 0 ==> r is None && final(self)@ == old(self)@,
            old(self)@.entries.len() > 0 ==> {
                &&& r matches Some(guard)
                &&& guard.entry_spec() == old(self)@.next()
                &&& guard.counted() == (old(self)@.next() is Item)
                &&& final(self)@ == old(self)@.recv()
            },
    {
        if self.heap.len() == 0 {
            None
        } else {
            Some(self.recv())
        }
    }

    /// Gives a guard back. When it was the last one out and nothing is
    /// queued, the `Drained` marker goes up for delivery.
    pub fn release(&mut self, guard: ReceiveGuard<K>)
        requires
            old(self)@.wf(),
        ensures
            final(self)@ == old(self)@.release(guard.counted()),
            final(self)@.wf(),
    {
        if guard.counted && self.in_progress > self.heap.len() {
            self.in_progress = self.in_progress - 1;
            if self.in_progress == 0 {
                self.send_drained();
            }
        }
    }
}

} // verus!
