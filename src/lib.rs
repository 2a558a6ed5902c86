//! Fixed-capacity ring storage: a slot buffer with per-slot occupancy and a
//! FIFO queue, both addressed through one wraparound index function.

pub mod circular;
pub mod discoid;
pub mod error;
pub mod index;
pub mod queue_model;

pub use circular::{CircularBuffer, CircularBufferIntoIter};
pub use discoid::DiscoidBuffer;
pub use error::BufferError;
pub use index::absolute_index;
