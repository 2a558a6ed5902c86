use vstd::prelude::*;
use vstd::arithmetic::div_mod::{
    lemma_add_mod_noop, lemma_mod_add_multiples_vanish, lemma_mod_bound, lemma_small_mod,
};

verus! {

/// The absolute slot that logical position `index` maps to when logical
/// position 0 sits at absolute slot `front`.
pub open spec fn wrap(front: int, index: int, capacity: int) -> int {
    (front + index) % capacity
}

/// Within one turn of the ring, wrapping is at most one subtraction of the
/// capacity.
pub broadcast proof fn lemma_wrap_cases(front: int, index: int, capacity: int)
    requires
        0 <= front < capacity,
        0 <= index <= capacity,
    ensures
        #[trigger] wrap(front, index, capacity) == if front + index < capacity {
            front + index
        } else {
            front + index - capacity
        },
{
    if front + index < capacity {
        lemma_small_mod((front + index) as nat, capacity as nat);
    } else {
        lemma_mod_add_multiples_vanish(front + index - capacity, capacity);
        lemma_small_mod((front + index - capacity) as nat, capacity as nat);
    }
}

/// Maps a logical index, counted from `front`, to an absolute slot of a
/// backing array of `capacity` slots: `(front + index) mod capacity`.
///
/// The sum is never formed, so no overflow can occur whatever the inputs.
pub fn absolute_index(front: usize, index: usize, capacity: usize) -> (r: usize)
    requires
        capacity > 0,
    ensures
        r == wrap(front as int, index as int, capacity as int),
        r < capacity,
{
    let start = front % capacity;
    let offset = index % capacity;
    proof {
        lemma_mod_bound(front as int, capacity as int);
        lemma_mod_bound(index as int, capacity as int);
        lemma_add_mod_noop(front as int, index as int, capacity as int);
        lemma_wrap_cases(start as int, offset as int, capacity as int);
    }
    let room = capacity - start;
    if offset < room {
        start + offset
    } else {
        offset - room
    }
}

} // verus!
