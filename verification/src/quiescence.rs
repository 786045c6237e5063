//! Theorems about runs of the priority queue: the order in which a batch
//! comes out, and when the `Drained` marker is delivered.
use crate::priority_queue::{
    all_items, descending, lemma_recv_keeps_wf, lemma_send_keeps_wf, lemma_slot_splits,
    priority_of, slot, QueueEntry, QueueState,
};
use vstd::prelude::*;

verus! {

/// One thing that a sender or a receiver does to the queue.
pub enum QueueOp<K> {
    /// `send(item, prio)`.
    Send(K, u64),
    /// `try_recv()`.
    Recv,
    /// `release(guard)`; the flag says that the guard was made for an item.
    Release(bool),
}

/// The state after one operation.
pub open spec fn step<K>(s: QueueState<K>, op: QueueOp<K>) -> QueueState<K> {
    match op {
        QueueOp::Send(item, prio) => s.send(item, prio),
        QueueOp::Recv => if s.entries.len() == 0 {
            s
        } else {
            s.recv()
        },
        QueueOp::Release(counted) => s.release(counted),
    }
}

/// The state after a run of operations, first to last.
pub open spec fn run<K>(s: QueueState<K>, ops: Seq<QueueOp<K>>) -> QueueState<K>
    decreases ops.len(),
{
    if ops.len() == 0 {
        s
    } else {
        run(step(s, ops[0]), ops.drop_first())
    }
}

/// How often a run delivers the `Drained` marker.
pub open spec fn drained_deliveries<K>(s: QueueState<K>, ops: Seq<QueueOp<K>>) -> nat
    decreases ops.len(),
{
    if ops.len() == 0 {
        0
    } else {
        let here: nat = if ops[0] is Recv && s.entries.len() > 0 && s.next() is Drained {
            1
        } else {
            0
        };
        here + drained_deliveries(step(s, ops[0]), ops.drop_first())
    }
}

/// How many items a run delivers.
pub open spec fn item_deliveries<K>(s: QueueState<K>, ops: Seq<QueueOp<K>>) -> nat
    decreases ops.len(),
{
    if ops.len() == 0 {
        0
    } else {
        let here: nat = if ops[0] is Recv && s.entries.len() > 0 && s.next() is Item {
            1
        } else {
            0
        };
        here + item_deliveries(step(s, ops[0]), ops.drop_first())
    }
}

/// The run sends nothing.
pub open spec fn no_send<K>(ops: Seq<QueueOp<K>>) -> bool {
    forall|i: int| 0 <= i < ops.len() ==> !((#[trigger] ops[i]) is Send)
}

/// The run receives at least once.
pub open spec fn some_recv<K>(ops: Seq<QueueOp<K>>) -> bool {
    exists|i: int| 0 <= i < ops.len() && (#[trigger] ops[i]) is Recv
}

/// Each operation keeps the queue's invariant.
pub proof fn lemma_step_keeps_wf<K>(s: QueueState<K>, op: QueueOp<K>)
    requires
        s.wf(),
    ensures
        step(s, op).wf(),
{
    match op {
        QueueOp::Send(item, prio) => {
            lemma_send_keeps_wf(s, item, prio);
        },
        QueueOp::Recv => {
            if s.entries.len() > 0 {
                lemma_recv_keeps_wf(s);
            }
        },
        QueueOp::Release(counted) => {},
    }
}

/// Whatever senders and receivers do, and in whatever order, the queue keeps
/// its invariant. In particular the `Drained` marker is only ever up for
/// delivery while no item is queued and no item guard is out.
pub proof fn theorem_run_keeps_wf<K>(s: QueueState<K>, ops: Seq<QueueOp<K>>)
    requires
        s.wf(),
    ensures
        run(s, ops).wf(),
        run(s, ops).marker_queued() ==> run(s, ops).in_progress == 0,
    decreases ops.len(),
{
    if ops.len() > 0 {
        lemma_step_keeps_wf(s, ops[0]);
        theorem_run_keeps_wf(step(s, ops[0]), ops.drop_first());
    }
}

/// From a queue that holds nothing and has no work in progress, a run
/// without a send delivers nothing.
proof fn lemma_quiet_queue_delivers_nothing<K>(s: QueueState<K>, ops: Seq<QueueOp<K>>)
    requires
        s.wf(),
        s.in_progress == 0,
        s.entries.len() == 0,
        no_send(ops),
    ensures
        drained_deliveries(s, ops) == 0,
        item_deliveries(s, ops) == 0,
        run(s, ops) == s,
    decreases ops.len(),
{
    if ops.len() > 0 {
        let rest = ops.drop_first();
        assert(!(ops[0] is Send));
        assert(step(s, ops[0]) == s);
        assert forall|i: int| 0 <= i < rest.len() implies !((#[trigger] rest[i]) is Send) by {
            assert(rest[i] == ops[i + 1]);
        }
        lemma_quiet_queue_delivers_nothing(s, rest);
    }
}

/// From a queue whose marker is up, a run without a send delivers the
/// marker at its first receive and nothing else.
proof fn lemma_marker_delivered_once<K>(s: QueueState<K>, ops: Seq<QueueOp<K>>)
    requires
        s.wf(),
        s.marker_queued(),
        no_send(ops),
    ensures
        drained_deliveries(s, ops) == if some_recv(ops) {
            1nat
        } else {
            0nat
        },
        item_deliveries(s, ops) == 0,
    decreases ops.len(),
{
    if ops.len() == 0 {
        assert(!some_recv(ops));
    } else {
        let rest = ops.drop_first();
        assert(!(ops[0] is Send));
        assert forall|i: int| 0 <= i < rest.len() implies !((#[trigger] rest[i]) is Send) by {
            assert(rest[i] == ops[i + 1]);
        }
        if ops[0] is Recv {
            let t = step(s, ops[0]);
            assert(t.entries.len() == 0);
            lemma_recv_keeps_wf(s);
            lemma_quiet_queue_delivers_nothing(t, rest);
            assert(some_recv(ops));
        } else {
            assert(step(s, ops[0]) == s);
            lemma_marker_delivered_once(s, rest);
            if some_recv(rest) {
                let i = choose|i: int| 0 <= i < rest.len() && (#[trigger] rest[i]) is Recv;
                assert(ops[i + 1] is Recv);
            }
            if some_recv(ops) {
                let i = choose|i: int| 0 <= i < ops.len() && (#[trigger] ops[i]) is Recv;
                assert(rest[i - 1] is Recv);
            }
        }
    }
}

/// Quiescence is signalled exactly once. Take any queue in which nothing
/// is queued and one item guard is still out. Releasing that guard puts the
/// `Drained` marker up. After that, as long as nobody sends, the receivers
/// get the marker once, at the first receive, and no item, whatever else
/// they do.
pub proof fn theorem_last_release_signals_once<K>(s: QueueState<K>, tail: Seq<QueueOp<K>>)
    requires
        s.wf(),
        s.in_progress == 1,
        s.entries.len() == 0,
        no_send(tail),
    ensures
        s.release(true).marker_queued(),
        s.release(true).in_progress == 0,
        drained_deliveries(s.release(true), tail) == if some_recv(tail) {
            1nat
        } else {
            0nat
        },
        item_deliveries(s.release(true), tail) == 0,
{
    lemma_marker_delivered_once(s.release(true), tail);
}

/// A release that is not the last one, a receive of an item and a send
/// never put the marker up: it comes from the last release alone.
pub proof fn theorem_marker_comes_from_last_release<K>(s: QueueState<K>, op: QueueOp<K>)
    requires
        s.wf(),
        step(s, op).marker_queued(),
    ensures
        op is Release,
        s.marker_queued() || (op == QueueOp::<K>::Release(true) && s.in_progress == 1
            && s.entries.len() == 0),
{
    match op {
        QueueOp::Send(item, prio) => {
            lemma_send_keeps_wf(s, item, prio);
        },
        QueueOp::Recv => {
            if s.entries.len() > 0 {
                lemma_recv_keeps_wf(s);
                if s.in_progress > 0 {
                    assert(s.recv().entries[0] == s.entries[0]);
                }
            }
        },
        QueueOp::Release(counted) => {},
    }
}

/// The priorities of the items that a run delivers, in the order of
/// delivery.
pub open spec fn delivered_priorities<K>(s: QueueState<K>, ops: Seq<QueueOp<K>>) -> Seq<int>
    decreases ops.len(),
{
    if ops.len() == 0 {
        Seq::empty()
    } else {
        let here: Seq<int> = if ops[0] is Recv && s.entries.len() > 0 && s.next() is Item {
            seq![priority_of(s.next())]
        } else {
            Seq::empty()
        };
        here + delivered_priorities(step(s, ops[0]), ops.drop_first())
    }
}

/// Between two sends the priority of what is delivered never falls,
/// however many receivers take items and whenever they release their
/// guards; and nothing that is delivered comes before what was next in
/// line at the start.
pub proof fn theorem_deliveries_never_fall<K>(s: QueueState<K>, ops: Seq<QueueOp<K>>)
    requires
        s.wf(),
        no_send(ops),
    ensures
        forall|i: int, j: int|
            0 <= i < j < delivered_priorities(s, ops).len() ==> delivered_priorities(s, ops)[i]
                <= delivered_priorities(s, ops)[j],
        s.items().len() == 0 ==> delivered_priorities(s, ops).len() == 0,
        s.items().len() > 0 ==> forall|i: int|
            0 <= i < delivered_priorities(s, ops).len() ==> delivered_priorities(s, ops)[i]
                >= priority_of(s.next()),
    decreases ops.len(),
{
    if ops.len() > 0 {
        let rest = ops.drop_first();
        let t = step(s, ops[0]);
        assert(!(ops[0] is Send));
        assert forall|i: int| 0 <= i < rest.len() implies !((#[trigger] rest[i]) is Send) by {
            assert(rest[i] == ops[i + 1]);
        }
        lemma_step_keeps_wf(s, ops[0]);
        theorem_deliveries_never_fall(t, rest);
        let tail = delivered_priorities(t, rest);
        if ops[0] is Recv && s.entries.len() > 0 {
            if s.in_progress > 0 {
                let n = s.entries.len() as int;
                assert(s.entries[n - 1] is Item);
                assert(t.items() =~= s.entries.drop_last());
                if t.items().len() > 0 {
                    assert(t.next() == s.entries[n - 2]);
                    assert(priority_of(s.entries[n - 2]) >= priority_of(s.entries[n - 1]));
                }
                assert(delivered_priorities(s, ops) =~= seq![priority_of(s.next())] + tail);
            } else {
                assert(delivered_priorities(s, ops) =~= tail);
            }
        } else {
            assert(delivered_priorities(s, ops) =~= tail);
            assert(t.items() =~= s.items());
            if s.items().len() > 0 {
                assert(t.entries == s.entries);
            }
        }
    }
}

/// The state after sending a batch, first to last.
pub open spec fn send_all<K>(s: QueueState<K>, batch: Seq<(K, u64)>) -> QueueState<K>
    decreases batch.len(),
{
    if batch.len() == 0 {
        s
    } else {
        send_all(s, batch.drop_last()).send(batch.last().0, batch.last().1)
    }
}

/// The batch as queue entries.
pub open spec fn as_items<K>(batch: Seq<(K, u64)>) -> Seq<QueueEntry<K>> {
    Seq::new(batch.len(), |i: int| QueueEntry::Item(batch[i].0, batch[i].1))
}

/// One round of a lone receiver: take the next entry, if there is one, and
/// release its guard.
pub open spec fn round<K>(s: QueueState<K>) -> QueueState<K> {
    if s.entries.len() == 0 {
        s
    } else {
        s.recv().release(s.next() is Item)
    }
}

/// The state after `n` rounds.
pub open spec fn rounds<K>(s: QueueState<K>, n: nat) -> QueueState<K>
    decreases n,
{
    if n == 0 {
        s
    } else {
        round(rounds(s, (n - 1) as nat))
    }
}

/// What round `n`, counted from 0, delivers: `None` where the queue is
/// empty by then.
pub open spec fn delivered<K>(s: QueueState<K>, n: nat) -> Option<QueueEntry<K>> {
    let t = rounds(s, n);
    if t.entries.len() == 0 {
        None
    } else {
        Some(t.next())
    }
}

/// The first `n` deliveries.
pub open spec fn deliveries<K>(s: QueueState<K>, n: nat) -> Seq<QueueEntry<K>> {
    Seq::new(n, |i: int| delivered(s, i as nat).unwrap())
}

/// After a batch was sent to a queue without work in progress, the queue
/// holds the batch and counts each of its items.
proof fn lemma_send_all<K>(s: QueueState<K>, batch: Seq<(K, u64)>)
    requires
        s.wf(),
        s.in_progress == 0,
    ensures
        send_all(s, batch).wf(),
        send_all(s, batch).in_progress == batch.len(),
        batch.len() > 0 ==> send_all(s, batch).entries.len() == batch.len(),
        batch.len() > 0 ==> send_all(s, batch).entries.to_multiset() == as_items(
            batch,
        ).to_multiset(),
    decreases batch.len(),
{
    if batch.len() > 0 {
        let front = batch.drop_last();
        let before = send_all(s, front);
        lemma_send_all(s, front);
        lemma_send_keeps_wf(before, batch.last().0, batch.last().1);
        let e = QueueEntry::Item(batch.last().0, batch.last().1);
        let pos = slot(before.items(), batch.last().1);
        lemma_slot_splits(before.items(), batch.last().1);
        vstd::seq_lib::to_multiset_insert(before.items(), pos, e);
        vstd::seq_lib::to_multiset_build(as_items(front), e);
        assert(as_items(batch) =~= as_items(front).push(e));
        assert(before.items().to_multiset() == as_items(front).to_multiset()) by {
            if front.len() == 0 {
                assert(before.items() =~= as_items(front));
            }
        }
    }
}

/// A lone receiver empties a queue from the back, and the last release
/// puts the marker up.
proof fn lemma_rounds<K>(s: QueueState<K>, k: nat)
    requires
        s.wf(),
        s.entries.len() > 0,
        s.in_progress == s.entries.len(),
        k <= s.entries.len(),
    ensures
        k < s.entries.len() ==> rounds(s, k) == (QueueState {
            entries: s.entries.take(s.entries.len() - k),
            in_progress: (s.entries.len() - k) as nat,
            is_drained: false,
        }),
        k == s.entries.len() ==> rounds(s, k) == (QueueState {
            entries: seq![QueueEntry::<K>::Drained],
            in_progress: 0,
            is_drained: true,
        }),
    decreases k,
{
    let m = s.entries.len() as int;
    if k == 0 {
        assert(s.entries.take(m) =~= s.entries);
    } else {
        lemma_rounds(s, (k - 1) as nat);
        let t = rounds(s, (k - 1) as nat);
        assert(t.entries == s.entries.take(m - k + 1));
        assert(t.next() == s.entries[m - k]);
        assert(t.recv().entries =~= s.entries.take(m - k));
    }
}

/// Once the marker was taken, a lone receiver finds the queue empty.
proof fn lemma_rounds_after_marker<K>(s: QueueState<K>, k: nat)
    requires
        s.wf(),
        s.entries.len() > 0,
        s.in_progress == s.entries.len(),
        k > s.entries.len(),
    ensures
        rounds(s, k) == QueueState::<K>::idle(),
    decreases k,
{
    if k == s.entries.len() + 1 {
        lemma_rounds(s, (k - 1) as nat);
        let t = rounds(s, (k - 1) as nat);
        assert(t.recv().entries =~= Seq::<QueueEntry<K>>::empty());
    } else {
        lemma_rounds_after_marker(s, (k - 1) as nat);
    }
}

/// Items come out by priority, smallest first, then the marker, then
/// nothing. Send any batch to a queue without work in progress and let a
/// lone receiver take entry after entry, releasing each guard before the
/// next receive. It gets every item of the batch exactly once, in an order
/// in which the priority never falls; then the `Drained` marker, once; and
/// from then on it finds the queue empty.
pub proof fn theorem_batch_delivered_in_order<K>(s: QueueState<K>, batch: Seq<(K, u64)>)
    requires
        s.wf(),
        s.in_progress == 0,
        batch.len() > 0,
    ensures
        forall|i: nat|
            i < batch.len() ==> ((#[trigger] delivered(send_all(s, batch), i)) matches Some(e)
                && e is Item),
        forall|i: nat, j: nat|
            i < j < batch.len() ==> priority_of(
                (#[trigger] delivered(send_all(s, batch), i)).unwrap(),
            ) <= priority_of((#[trigger] delivered(send_all(s, batch), j)).unwrap()),
        deliveries(send_all(s, batch), batch.len()).to_multiset() == as_items(
            batch,
        ).to_multiset(),
        delivered(send_all(s, batch), batch.len()) == Some(QueueEntry::<K>::Drained),
        forall|i: nat| i > batch.len() ==> (#[trigger] delivered(send_all(s, batch), i)) is None,
{
    let q = send_all(s, batch);
    let n = batch.len();
    lemma_send_all(s, batch);
    assert(all_items(q.entries) && descending(q.entries));
    assert forall|i: nat| i < n implies (#[trigger] delivered(q, i)) == Some(
        q.entries[n - 1 - i],
    ) by {
        lemma_rounds(q, i);
    }
    assert forall|i: nat, j: nat| i < j < n implies priority_of(
        (#[trigger] delivered(q, i)).unwrap(),
    ) <= priority_of((#[trigger] delivered(q, j)).unwrap()) by {
        assert(delivered(q, i) == Some(q.entries[n - 1 - i]));
        assert(delivered(q, j) == Some(q.entries[n - 1 - j]));
    }
    assert(deliveries(q, n) =~= q.entries.reverse());
    q.entries.lemma_reverse_to_multiset();
    lemma_rounds(q, n);
    assert forall|i: nat| i > n implies (#[trigger] delivered(q, i)) is None by {
        lemma_rounds_after_marker(q, i);
    }
}

} // verus!
