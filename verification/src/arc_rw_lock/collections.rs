//! Container implementations for the read/write-lock insertion traits.

pub mod vec;
pub mod vec_deque;
