use vstd::prelude::*;

verus! {

/// The failures that the buffers report. Absence (an empty slot, an empty
/// queue) is never one of them: it is `None`.
#[derive(Debug, Clone, Copy, PartialEq, Eq, Structural)]
pub enum BufferError {
    /// A push was attempted while every slot was occupied.
    BufferFull,
    /// A buffer was requested with no slots at all.
    ZeroCapacity,
    /// A slot buffer was requested with more slots than its occupancy mask
    /// has bits.
    CapacityTooLarge,
    /// A write named a logical index at or past the capacity.
    IndexOutOfBounds,
    /// More slots were to be discarded than the buffer has.
    DiscardTooMany,
}

impl BufferError {
    /// A one-line description of the failure, for people reading logs.
    pub fn message(&self) -> (r: &'static str)
        ensures
            r@ == match *self {
                BufferError::BufferFull => "circular buffer: cannot push, buffer is full"@,
                BufferError::ZeroCapacity => "ring buffer: capacity must be at least one slot"@,
                BufferError::CapacityTooLarge => "discoid buffer: capacity exceeds the occupancy mask width"@,
                BufferError::IndexOutOfBounds => "discoid buffer: index out of bounds"@,
                BufferError::DiscardTooMany => "discoid buffer: discarding too much"@,
            },
    {
        match self {
            BufferError::BufferFull => "circular buffer: cannot push, buffer is full",
            BufferError::ZeroCapacity => "ring buffer: capacity must be at least one slot",
            BufferError::CapacityTooLarge => "discoid buffer: capacity exceeds the occupancy mask width",
            BufferError::IndexOutOfBounds => "discoid buffer: index out of bounds",
            BufferError::DiscardTooMany => "discoid buffer: discarding too much",
        }
    }
}

} // verus!
