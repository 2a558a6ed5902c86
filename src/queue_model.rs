use vstd::prelude::*;

verus! {

/// One operation on a FIFO queue, as the laws below replay them.
pub enum QueueOp<T> {
    Push(T),
    Pop,
}

/// The contents after one operation on a queue of `capacity` slots: a push
/// appends at the rear unless the queue is full, a pop removes the front
/// value unless the queue is empty.
pub open spec fn queue_step<T>(contents: Seq<T>, capacity: nat, op: QueueOp<T>) -> Seq<T> {
    match op {
        QueueOp::Push(v) => if contents.len() < capacity {
            contents.push(v)
        } else {
            contents
        },
        QueueOp::Pop => if contents.len() > 0 {
            contents.drop_first()
        } else {
            contents
        },
    }
}

/// The contents after running `ops`, in order, from `start`.
pub open spec fn replay<T>(start: Seq<T>, capacity: nat, ops: Seq<QueueOp<T>>) -> Seq<T>
    decreases ops.len(),
{
    if ops.len() == 0 {
        start
    } else {
        queue_step(replay(start, capacity, ops.drop_last()), capacity, ops.last())
    }
}

/// The values the pops among `ops` returned, in the order they came out.
pub open spec fn popped<T>(start: Seq<T>, capacity: nat, ops: Seq<QueueOp<T>>) -> Seq<T>
    decreases ops.len(),
{
    if ops.len() == 0 {
        Seq::empty()
    } else {
        let before = replay(start, capacity, ops.drop_last());
        let earlier = popped(start, capacity, ops.drop_last());
        match ops.last() {
            QueueOp::Pop => if before.len() > 0 {
                earlier.push(before[0])
            } else {
                earlier
            },
            QueueOp::Push(_) => earlier,
        }
    }
}

/// The values the pushes among `ops` offered, in order.
pub open spec fn pushed<T>(ops: Seq<QueueOp<T>>) -> Seq<T>
    decreases ops.len(),
{
    if ops.len() == 0 {
        Seq::empty()
    } else {
        match ops.last() {
            QueueOp::Push(v) => pushed(ops.drop_last()).push(v),
            QueueOp::Pop => pushed(ops.drop_last()),
        }
    }
}

/// Every push among `ops` finds a free slot.
pub open spec fn respects_capacity<T>(
    start: Seq<T>,
    capacity: nat,
    ops: Seq<QueueOp<T>>,
) -> bool {
    forall|k: int|
        0 <= k < ops.len() && (#[trigger] ops[k]) is Push ==> replay(
            start,
            capacity,
            ops.take(k),
        ).len() < capacity
}

/// First in, first out: when no push finds the queue full, the values popped
/// followed by the values still queued are the starting contents followed
/// by every value pushed, in order. So pops return values in push order.
pub proof fn lemma_fifo_order<T>(start: Seq<T>, capacity: nat, ops: Seq<QueueOp<T>>)
    requires
        respects_capacity(start, capacity, ops),
    ensures
        popped(start, capacity, ops) + replay(start, capacity, ops) == start + pushed(ops),
    decreases ops.len(),
{
    if ops.len() > 0 {
        let prefix = ops.drop_last();
        assert forall|k: int|
            0 <= k < prefix.len() && (#[trigger] prefix[k]) is Push implies replay(
                start,
                capacity,
                prefix.take(k),
            ).len() < capacity by {
            assert(prefix.take(k) =~= ops.take(k));
            assert(ops[k] == prefix[k]);
        }
        lemma_fifo_order(start, capacity, prefix);
        let before = replay(start, capacity, prefix);
        let earlier = popped(start, capacity, prefix);
        match ops.last() {
            QueueOp::Push(v) => {
                assert(ops[ops.len() - 1] is Push);
                assert(ops.take(ops.len() - 1) =~= prefix);
                assert(earlier + before.push(v) =~= (earlier + before).push(v));
                assert(start + pushed(prefix).push(v) =~= (start + pushed(prefix)).push(v));
            },
            QueueOp::Pop => {
                if before.len() > 0 {
                    assert(earlier.push(before[0]) + before.drop_first() =~= earlier + before);
                }
            },
        }
    }
}

/// Filling an empty queue of `capacity` slots with `values` leaves exactly
/// those values queued; a further push is refused and changes nothing; after
/// one pop, a push is accepted again.
pub proof fn lemma_capacity_boundary<T>(values: Seq<T>, capacity: nat, extra: T)
    requires
        values.len() == capacity,
        capacity > 0,
    ensures
        ({
            let fill = Seq::new(capacity, |i: int| QueueOp::Push(values[i]));
            let full = replay(Seq::empty(), capacity, fill);
            &&& full == values
            &&& full.len() == capacity
            &&& queue_step(full, capacity, QueueOp::Push(extra)) == full
            &&& queue_step(queue_step(full, capacity, QueueOp::Pop), capacity, QueueOp::Push(extra))
                == values.drop_first().push(extra)
        }),
{
    let fill = Seq::new(capacity, |i: int| QueueOp::Push(values[i]));
    lemma_fill(values, capacity, fill, capacity as int);
    assert(fill.take(capacity as int) =~= fill);
    assert(values.take(capacity as int) =~= values);
}

/// Pushing the first `k` of `values` into an empty queue with room for all
/// of them queues exactly those `k` values.
proof fn lemma_fill<T>(values: Seq<T>, capacity: nat, fill: Seq<QueueOp<T>>, k: int)
    requires
        values.len() == capacity,
        fill == Seq::new(capacity, |i: int| QueueOp::Push(values[i])),
        0 <= k <= capacity,
    ensures
        replay(Seq::empty(), capacity, fill.take(k)) == values.take(k),
    decreases k,
{
    if k > 0 {
        lemma_fill(values, capacity, fill, k - 1);
        assert(fill.take(k).drop_last() =~= fill.take(k - 1));
        assert(values.take(k - 1).push(values[k - 1]) =~= values.take(k));
    } else {
        assert(values.take(0) =~= Seq::<T>::empty());
    }
}

} // verus!
