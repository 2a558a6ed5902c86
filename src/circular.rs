use vstd::prelude::*;

use crate::error::BufferError;
use crate::index::{absolute_index, lemma_wrap_cases, wrap};
use crate::queue_model::{queue_step, QueueOp};

verus! {

broadcast use lemma_wrap_cases;

/// A fixed-capacity FIFO queue over a ring of optional slots.
///
/// The occupied slots form one run of `len` slots starting at `front`,
/// wrapping at the end of the array; `rear` is the slot just past that run.
/// `len` alone tells an empty queue from a full one.
#[derive(Debug, Clone)]
pub struct CircularBuffer<T> {
    buffer: Vec<Option<T>>,
    front: usize,
    rear: usize,
    capacity: usize,
    len: usize,
}

impl<T> View for CircularBuffer<T> {
    type V = Seq<T>;

    /// The queued values, from the front (next to leave) to the rear.
    closed spec fn view(&self) -> Seq<T> {
        Seq::new(
            self.len as nat,
            |i: int| self.buffer@[wrap(self.front as int, i, self.capacity as int)]->Some_0,
        )
    }
}

impl<T> CircularBuffer<T> {
    /// The number of values the queue can hold.
    pub closed spec fn capacity(&self) -> nat {
        self.capacity as nat
    }

    /// The array has one slot per unit of capacity; the logical slots
    /// `0..len` counted from `front` are occupied and all others are empty;
    /// `rear` is logical slot `len`.
    pub closed spec fn well_formed(&self) -> bool {
        &&& 0 < self.capacity
        &&& self.buffer@.len() == self.capacity
        &&& self.front < self.capacity
        &&& self.len <= self.capacity
        &&& self.rear == wrap(self.front as int, self.len as int, self.capacity as int)
        &&& forall|i: int|
            0 <= i < self.capacity ==> (#[trigger] self.buffer@[wrap(
                self.front as int,
                i,
                self.capacity as int,
            )] is Some <==> i < self.len)
    }

    /// Creates an empty queue of `size` slots.
    ///
    /// Fails with `ZeroCapacity` for `size == 0`.
    pub fn new(size: usize) -> (r: Result<Self, BufferError>)
        ensures
            match r {
                Ok(q) => {
                    &&& size > 0
                    &&& q.well_formed()
                    &&& q.capacity() == size
                    &&& q@ == Seq::<T>::empty()
                },
                Err(e) => size == 0 && e == BufferError::ZeroCapacity,
            },
    {
        if size == 0 {
            return Err(BufferError::ZeroCapacity);
        }
        let mut buffer: Vec<Option<T>> = Vec::with_capacity(size);
        let mut i: usize = 0;
        while i < size
            invariant
                i <= size,
                buffer@.len() == i,
                forall|j: int| 0 <= j < i ==> buffer@[j] is None,
            decreases size - i,
        {
            buffer.push(None);
            i = i + 1;
        }
        let q = CircularBuffer { buffer, front: 0, rear: 0, capacity: size, len: 0 };
        assert(q@ =~= Seq::<T>::empty());
        Ok(q)
    }

    /// Appends `value` at the rear, or hands it back when the queue is full.
    pub fn try_push(&mut self, value: T) -> (r: Result<(), T>)
        requires
            old(self).well_formed(),
        ensures
            final(self).well_formed(),
            final(self).capacity() == old(self).capacity(),
            final(self)@ == queue_step(old(self)@, old(self).capacity(), QueueOp::Push(value)),
            old(self)@.len() < old(self).capacity() ==> {
                &&& r == Ok::<(), T>(())
                &&& final(self)@ == old(self)@.push(value)
            },
            old(self)@.len() == old(self).capacity() ==> {
                &&& r == Err::<(), T>(value)
                &&& *final(self) == *old(self)
            },
    {
        if self.is_full() {
            return Err(value);
        }
        let ghost before = self@;
        let rear = self.rear;
        self.buffer[rear] = Some(value);
        self.rear = absolute_index(rear, 1, self.capacity);
        self.len = self.len + 1;
        assert forall|i: int| 0 <= i < self.capacity implies (#[trigger] self.buffer@[wrap(
            self.front as int,
            i,
            self.capacity as int,
        )] is Some <==> i < self.len) by {
            if wrap(self.front as int, i, self.capacity as int) != rear as int {
                assert(self.buffer@[wrap(self.front as int, i, self.capacity as int)]
                    == old(self).buffer@[wrap(self.front as int, i, self.capacity as int)]);
            }
        }
        assert(self@ =~= before.push(value));
        Ok(())
    }

    /// Appends `value` at the rear.
    ///
    /// On a full queue it fails with `BufferFull` and leaves the queue as it
    /// was; `try_push` is the form that hands the value back.
    pub fn push(&mut self, value: T) -> (r: Result<(), BufferError>)
        requires
            old(self).well_formed(),
        ensures
            final(self).well_formed(),
            final(self).capacity() == old(self).capacity(),
            final(self)@ == queue_step(old(self)@, old(self).capacity(), QueueOp::Push(value)),
            old(self)@.len() < old(self).capacity() ==> {
                &&& r == Ok::<(), BufferError>(())
                &&& final(self)@ == old(self)@.push(value)
            },
            old(self)@.len() == old(self).capacity() ==> {
                &&& r == Err::<(), BufferError>(BufferError::BufferFull)
                &&& *final(self) == *old(self)
            },
    {
        match self.try_push(value) {
            Ok(()) => Ok(()),
            Err(_) => Err(BufferError::BufferFull),
        }
    }

    /// Removes and returns the value at the front, or `None` when the queue
    /// is empty, which then stays as it was.
    pub fn pop(&mut self) -> (r: Option<T>)
        requires
            old(self).well_formed(),
        ensures
            final(self).well_formed(),
            final(self).capacity() == old(self).capacity(),
            final(self)@ == queue_step(old(self)@, old(self).capacity(), QueueOp::Pop),
            old(self)@.len() == 0 ==> r is None && *final(self) == *old(self),
            old(self)@.len() > 0 ==> {
                &&& r == Some(old(self)@[0])
                &&& final(self)@ == old(self)@.drop_first()
            },
    {
        if self.is_empty() {
            return None;
        }
        let ghost before = self@;
        let front = self.front;
        assert(self.buffer@[wrap(front as int, 0, self.capacity as int)] is Some);
        let value = self.buffer[front].take();
        self.front = absolute_index(front, 1, self.capacity);
        self.len = self.len - 1;
        assert forall|i: int| 0 <= i < self.capacity implies (#[trigger] self.buffer@[wrap(
            self.front as int,
            i,
            self.capacity as int,
        )] is Some <==> i < self.len) by {
            assert(wrap(self.front as int, i, self.capacity as int) == wrap(
                front as int,
                i + 1,
                self.capacity as int,
            ));
        }
        assert(self@ =~= before.drop_first());
        value
    }

    /// The number of queued values.
    pub fn len(&self) -> (r: usize)
        requires
            self.well_formed(),
        ensures
            r == self@.len(),
    {
        self.len
    }

    /// Whether no value is queued.
    pub fn is_empty(&self) -> (r: bool)
        requires
            self.well_formed(),
        ensures
            r == (self@.len() == 0),
    {
        self.len == 0
    }

    /// Whether every slot is occupied.
    pub fn is_full(&self) -> (r: bool)
        requires
            self.well_formed(),
        ensures
            r == (self@.len() == self.capacity()),
    {
        self.len == self.capacity
    }

    /// The value `index` places behind the front, without removing it, or
    /// `None` for an index at or past the queue's length.
    pub fn get(&self, index: usize) -> (r: Option<&T>)
        requires
            self.well_formed(),
        ensures
            index < self@.len() ==> r == Some(&self@[index as int]),
            index >= self@.len() ==> r is None,
    {
        if index >= self.len {
            return None;
        }
        let absolute = absolute_index(self.front, index, self.capacity);
        self.buffer[absolute].as_ref()
    }

    /// Removes `min(count, len)` values from the front, dropping them.
    pub fn remove_multiple(&mut self, count: usize)
        requires
            old(self).well_formed(),
        ensures
            final(self).well_formed(),
            final(self).capacity() == old(self).capacity(),
            final(self)@ == old(self)@.subrange(
                if count < old(self)@.len() {
                    count as int
                } else {
                    old(self)@.len() as int
                },
                old(self)@.len() as int,
            ),
            count >= old(self)@.len() ==> final(self)@.len() == 0,
    {
        let count_to_remove = if count > self.len {
            self.len
        } else {
            count
        };
        let ghost start = self@;
        let mut k: usize = 0;
        while k < count_to_remove
            invariant
                self.well_formed(),
                self.capacity() == old(self).capacity(),
                count_to_remove <= start.len(),
                k <= count_to_remove,
                self@ == start.subrange(k as int, start.len() as int),
            decreases count_to_remove - k,
        {
            let _ = self.pop();
            k = k + 1;
        }
    }

    /// Turns the queue into a one-shot sequence of its values, front first.
    pub fn into_iter(self) -> (r: CircularBufferIntoIter<T>)
        requires
            self.well_formed(),
        ensures
            r.well_formed(),
            r@ == self@,
    {
        let r = CircularBufferIntoIter {
            buffer: self.buffer,
            front: self.front,
            capacity: self.capacity,
            current: 0,
            remaining: self.len,
        };
        assert(r@ =~= self@);
        r
    }
}

/// The values of a consumed `CircularBuffer`, handed out front first.
pub struct CircularBufferIntoIter<T> {
    buffer: Vec<Option<T>>,
    front: usize,
    capacity: usize,
    current: usize,
    remaining: usize,
}

impl<T> View for CircularBufferIntoIter<T> {
    type V = Seq<T>;

    /// The values not yet handed out, next first.
    closed spec fn view(&self) -> Seq<T> {
        Seq::new(
            self.remaining as nat,
            |i: int|
                self.buffer@[wrap(
                    self.front as int,
                    self.current + i,
                    self.capacity as int,
                )]->Some_0,
        )
    }
}

impl<T> CircularBufferIntoIter<T> {
    /// The logical slots `current..current + remaining` from `front` are
    /// occupied and lie within one turn of the ring.
    pub closed spec fn well_formed(&self) -> bool {
        &&& 0 < self.capacity
        &&& self.buffer@.len() == self.capacity
        &&& self.front < self.capacity
        &&& self.current + self.remaining <= self.capacity
        &&& forall|i: int|
            self.current <= i < self.current + self.remaining ==> (#[trigger] self.buffer@[wrap(
                self.front as int,
                i,
                self.capacity as int,
            )] is Some)
    }

    /// Hands out the next value and moves past it, or returns `None` once
    /// every value has been handed out.
    pub fn next(&mut self) -> (r: Option<T>)
        requires
            old(self).well_formed(),
        ensures
            final(self).well_formed(),
            old(self)@.len() == 0 ==> r is None && *final(self) == *old(self),
            old(self)@.len() > 0 ==> {
                &&& r == Some(old(self)@[0])
                &&& final(self)@ == old(self)@.drop_first()
            },
    {
        if self.remaining == 0 {
            return None;
        }
        let ghost before = self@;
        let index = absolute_index(self.front, self.current, self.capacity);
        self.current = self.current + 1;
        self.remaining = self.remaining - 1;
        let value = self.buffer[index].take();
        assert forall|i: int|
            self.current <= i < self.current + self.remaining implies (#[trigger] self.buffer@[wrap(
            self.front as int,
            i,
            self.capacity as int,
        )] is Some) by {
            assert(old(self).buffer@[wrap(self.front as int, i, self.capacity as int)] is Some);
        }
        assert(self@ =~= before.drop_first());
        value
    }

    /// Hands out every remaining value, in order, as a vector.
    pub fn collect(self) -> (r: Vec<T>)
        requires
            self.well_formed(),
        ensures
            r@ == self@,
    {
        let ghost all = self@;
        let mut iter = self;
        let mut out: Vec<T> = Vec::new();
        while iter.remaining > 0
            invariant
                iter.well_formed(),
                all == out@ + iter@,
            decreases iter.remaining,
        {
            let ghost before = iter@;
            match iter.next() {
                Some(v) => {
                    out.push(v);
                },
                None => {},
            }
            assert(all =~= out@ + iter@) by {
                assert(before =~= seq![before[0]] + before.drop_first());
            }
        }
        assert(iter@ =~= Seq::<T>::empty());
        out
    }
}

} // verus!
