//! An indexed ring buffer: a fixed-capacity circular queue with one producer,
//! one consumer and any number of readers, where every stored item is named by
//! a wrap-around absolute index.

pub mod endpoint;
pub mod index;
pub mod ring;

pub use index::IndexUtil;
pub use ring::{RingBuffer, MAX_BUFFER_SIZE};
pub use endpoint::{indexed_ring_buffer, Consumer, Producer, Reader};
