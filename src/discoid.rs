use vstd::prelude::*;
use vstd::arithmetic::div_mod::{
    lemma_basic_div, lemma_hoist_over_denominator, lemma_mod_multiples_vanish,
};
use vstd::arithmetic::mul::lemma_mul_is_commutative;
use vstd::arithmetic::power2::{
    lemma_pow2_adds, lemma_pow2_pos, lemma_pow2_strictly_increases, lemma_pow2_unfold, pow2,
};
use vstd::bits::{lemma_u64_pow2_no_overflow, lemma_u64_shl_is_mul};

use crate::error::BufferError;
use crate::index::{absolute_index, lemma_wrap_cases, wrap};

verus! {

broadcast use lemma_wrap_cases;

/// The most slots a slot buffer can have: one per bit of its occupancy mask.
pub const MAX_SLOT_CAPACITY: usize = 64;

/// The occupancy mask of a run of slots: bit `i` is set exactly when slot
/// `i` holds a value, and no bit at or past the run's length is set.
pub open spec fn occupancy_mask<T>(slots: Seq<Option<T>>) -> nat
    decreases slots.len(),
{
    if slots.len() == 0 {
        0
    } else {
        occupancy_mask(slots.drop_last()) + if slots.last() is Some {
            pow2((slots.len() - 1) as nat)
        } else {
            0
        }
    }
}

/// The slots after a write of `value` at logical index `index`.
pub open spec fn slots_after_set<T>(slots: Seq<Option<T>>, index: int, value: T) -> Seq<
    Option<T>,
> {
    slots.update(index, Some(value))
}

/// The slots after the first `count` logical slots are cleared and the front
/// moves past them: what was at logical `count + i` is now at `i`, and the
/// last `count` logical slots are empty.
pub open spec fn slots_after_discard<T>(slots: Seq<Option<T>>, count: int) -> Seq<Option<T>> {
    slots.subrange(count, slots.len() as int) + Seq::new(count as nat, |_i: int| None::<T>)
}

/// What a read of logical index `index` finds: the occupant, or nothing for
/// an empty slot or an index past the capacity.
pub open spec fn slot_read<T>(slots: Seq<Option<T>>, index: int) -> Option<T> {
    if 0 <= index < slots.len() {
        slots[index]
    } else {
        None
    }
}

/// A fixed-capacity ring of optional slots with a movable logical front.
///
/// Logical index `i` lives at absolute slot `(front + i) mod capacity`.
/// Occupied and empty slots may alternate freely.
pub struct DiscoidBuffer<T> {
    buffer: Vec<Option<T>>,
    front: usize,
    capacity: usize,
}

impl<T> View for DiscoidBuffer<T> {
    type V = Seq<Option<T>>;

    /// The slots in logical order, starting at the front.
    closed spec fn view(&self) -> Seq<Option<T>> {
        Seq::new(
            self.capacity as nat,
            |i: int| self.buffer@[wrap(self.front as int, i, self.capacity as int)],
        )
    }
}

impl<T> DiscoidBuffer<T> {
    /// The backing array has one slot per unit of capacity, the capacity
    /// fits the occupancy mask, and the front is a slot of the array.
    pub closed spec fn well_formed(&self) -> bool {
        &&& 0 < self.capacity <= MAX_SLOT_CAPACITY
        &&& self.buffer@.len() == self.capacity
        &&& self.front < self.capacity
    }

    /// Creates a buffer of `size` empty slots with its front at slot 0.
    ///
    /// Fails with `ZeroCapacity` for `size == 0` and with `CapacityTooLarge`
    /// when `size` exceeds the bits of the occupancy mask.
    pub fn new(size: usize) -> (r: Result<Self, BufferError>)
        ensures
            match r {
                Ok(b) => {
                    &&& 0 < size <= MAX_SLOT_CAPACITY
                    &&& b.well_formed()
                    &&& b@ == Seq::new(size as nat, |_i: int| None::<T>)
                },
                Err(e) => {
                    ||| size == 0 && e == BufferError::ZeroCapacity
                    ||| size > MAX_SLOT_CAPACITY && e == BufferError::CapacityTooLarge
                },
            },
    {
        if size == 0 {
            return Err(BufferError::ZeroCapacity);
        }
        if size > MAX_SLOT_CAPACITY {
            return Err(BufferError::CapacityTooLarge);
        }
        let mut buffer: Vec<Option<T>> = Vec::with_capacity(size);
        let mut i: usize = 0;
        while i < size
            invariant
                i <= size,
                buffer@.len() == i,
                forall|j: int| 0 <= j < i ==> buffer@[j] is None,
            decreases size - i,
        {
            buffer.push(None);
            i = i + 1;
        }
        let b = DiscoidBuffer { buffer, front: 0, capacity: size };
        assert(b@ =~= Seq::new(size as nat, |_i: int| None::<T>));
        Ok(b)
    }

    /// Writes `value` at logical index `index`, dropping any earlier
    /// occupant.
    ///
    /// An index at or past the capacity is a caller error: it fails with
    /// `IndexOutOfBounds`, leaves the buffer as it was and drops `value`.
    pub fn set_at_index(&mut self, index: usize, value: T) -> (r: Result<(), BufferError>)
        requires
            old(self).well_formed(),
        ensures
            final(self).well_formed(),
            index < old(self)@.len() ==> {
                &&& r == Ok::<(), BufferError>(())
                &&& final(self)@ == slots_after_set(old(self)@, index as int, value)
            },
            index >= old(self)@.len() ==> {
                &&& r == Err::<(), BufferError>(BufferError::IndexOutOfBounds)
                &&& *final(self) == *old(self)
            },
    {
        let buffer_len = self.capacity;
        if index >= buffer_len {
            return Err(BufferError::IndexOutOfBounds);
        }
        let ghost before = self@;
        let absolute = absolute_index(self.front, index, buffer_len);
        self.buffer[absolute] = Some(value);
        assert(self@ =~= slots_after_set(before, index as int, value));
        Ok(())
    }

    /// The occupant of logical index `index`, or `None` for an empty slot or
    /// an index at or past the capacity.
    pub fn get_ref_at_index(&self, index: usize) -> (r: Option<&T>)
        requires
            self.well_formed(),
        ensures
            match r {
                Some(v) => slot_read(self@, index as int) == Some(*v),
                None => slot_read(self@, index as int) is None,
            },
    {
        let buffer_len = self.capacity;
        if index >= buffer_len {
            return None;
        }
        let absolute = absolute_index(self.front, index, buffer_len);
        self.buffer[absolute].as_ref()
    }

    /// Clears the first `count` logical slots and advances the front past
    /// them, by `count mod capacity` absolute slots.
    ///
    /// Asking for more than the capacity is a caller error: it fails with
    /// `DiscardTooMany` and clears nothing.
    pub fn discard_front(&mut self, count: usize) -> (r: Result<(), BufferError>)
        requires
            old(self).well_formed(),
        ensures
            final(self).well_formed(),
            count <= old(self)@.len() ==> {
                &&& r == Ok::<(), BufferError>(())
                &&& final(self)@ == slots_after_discard(old(self)@, count as int)
            },
            count > old(self)@.len() ==> {
                &&& r == Err::<(), BufferError>(BufferError::DiscardTooMany)
                &&& *final(self) == *old(self)
            },
    {
        if count > self.capacity {
            return Err(BufferError::DiscardTooMany);
        }
        let ghost start = self@;
        let mut k: usize = 0;
        while k < count
            invariant
                self.well_formed(),
                k <= count <= self.capacity,
                start.len() == self.capacity,
                self@ == slots_after_discard(start, k as int),
            decreases count - k,
        {
            let ghost before = self@;
            let front = self.front;
            self.buffer[front] = None;
            self.front = absolute_index(front, 1, self.capacity);
            assert(self@ =~= before.drop_first().push(None));
            assert(slots_after_discard(start, k + 1) =~= slots_after_discard(
                start,
                k as int,
            ).drop_first().push(None));
            k = k + 1;
        }
        Ok(())
    }

    /// The occupancy mask of the buffer: bit `i` is set exactly when logical
    /// slot `i` holds a value.
    pub fn get_bits_representation(&self) -> (r: u64)
        requires
            self.well_formed(),
        ensures
            r == occupancy_mask(self@),
    {
        let mut bits: u64 = 0;
        let buffer_len = self.capacity;
        let mut i: usize = 0;
        while i < buffer_len
            invariant
                self.well_formed(),
                buffer_len == self.capacity,
                i <= buffer_len,
                bits == occupancy_mask(self@.take(i as int)),
            decreases buffer_len - i,
        {
            let index = absolute_index(self.front, i, buffer_len);
            proof {
                assert(self@.take(i + 1).drop_last() =~= self@.take(i as int));
                lemma_mask_bound(self@.take(i as int));
                lemma_u64_pow2_no_overflow(i as nat);
                lemma_u64_shl_is_mul(1, i as u64);
                lemma_or_fresh_bit(bits, i as u64);
            }
            if self.buffer[index].is_some() {
                bits = bits | (1u64 << (i as u64));
            }
            i = i + 1;
        }
        assert(self@.take(buffer_len as int) =~= self@);
        bits
    }
}

/// A read of logical index `i` after a write at logical index `j` finds the
/// written value when `i == j`, and otherwise what it found before.
pub proof fn lemma_read_after_set<T>(slots: Seq<Option<T>>, i: int, j: int, value: T)
    requires
        0 <= j < slots.len(),
    ensures
        slot_read(slots_after_set(slots, j, value), i) == if i == j {
            Some(value)
        } else {
            slot_read(slots, i)
        },
{
}

/// After the first `count` slots are discarded, logical index `i` reads what
/// logical index `i + count` read before, or nothing once `i + count` is past
/// the capacity. In particular a value written at logical index `j` is found
/// at `j - count` when `count <= j`, and at no index when `count > j`.
pub proof fn lemma_read_after_discard<T>(slots: Seq<Option<T>>, count: int, i: int)
    requires
        0 <= count <= slots.len(),
        0 <= i,
    ensures
        slot_read(slots_after_discard(slots, count), i) == if i + count < slots.len() {
            slot_read(slots, i + count)
        } else {
            None
        },
{
}

/// Bit `i` of the occupancy mask is set exactly when slot `i` holds a
/// value, and the mask has no bit at or past the number of slots.
pub proof fn lemma_mask_bit<T>(slots: Seq<Option<T>>, i: nat)
    ensures
        i < slots.len() ==> ((occupancy_mask(slots) as int / pow2(i) as int) % 2 == 1
            <==> slots[i as int] is Some),
        i >= slots.len() ==> occupancy_mask(slots) as int / pow2(i) as int == 0,
    decreases slots.len(),
{
    lemma_mask_bound(slots);
    lemma_pow2_pos(i);
    if i >= slots.len() {
        if i > slots.len() {
            lemma_pow2_strictly_increases(slots.len(), i);
        }
        lemma_basic_div(occupancy_mask(slots) as int, pow2(i) as int);
    } else {
        let rest = slots.drop_last();
        let top = (slots.len() - 1) as nat;
        let low = occupancy_mask(rest) as int;
        let bit: int = if slots.last() is Some { 1 } else { 0 };
        lemma_mask_bound(rest);
        assert(occupancy_mask(slots) == low + bit * pow2(top));
        if i == top {
            lemma_hoist_over_denominator(low, bit, pow2(i));
            lemma_basic_div(low, pow2(i) as int);
        } else {
            lemma_mask_bit(rest, i);
            let gap = (top - i) as nat;
            lemma_pow2_adds(i, gap);
            lemma_pow2_unfold(gap);
            let half = bit * pow2((gap - 1) as nat);
            assert(bit * pow2(top) == (2 * half) * pow2(i)) by {
                if bit == 1 {
                    assert(pow2(top) == pow2(gap) * pow2(i)) by {
                        lemma_mul_is_commutative(pow2(i) as int, pow2(gap) as int);
                    }
                }
            }
            lemma_hoist_over_denominator(low, 2 * half, pow2(i));
            lemma_mod_multiples_vanish(half, low / pow2(i) as int, 2);
            assert(rest[i as int] == slots[i as int]);
        }
    }
}

/// The mask of a run of slots stays below two to the run's length.
proof fn lemma_mask_bound<T>(slots: Seq<Option<T>>)
    ensures
        occupancy_mask(slots) < pow2(slots.len()),
    decreases slots.len(),
{
    if slots.len() > 0 {
        lemma_mask_bound(slots.drop_last());
        lemma_pow2_unfold(slots.len());
    } else {
        lemma_pow2_pos(0);
    }
}

/// Setting a bit above every set bit adds its value.
proof fn lemma_or_fresh_bit(bits: u64, i: u64)
    requires
        i < 64,
    ensures
        bits < (1u64 << i) ==> (bits | (1u64 << i)) == bits + (1u64 << i),
{
    assert(bits < (1u64 << i) ==> (bits | (1u64 << i)) == bits + (1u64 << i)) by (bit_vector)
        requires
            i < 64,
    ;
}

} // verus!
