//! Implementations of the insertion traits for the backing containers: a
//! contiguous growable array and a double-ended growable ring buffer.

pub mod vec;
pub mod vec_deque;
