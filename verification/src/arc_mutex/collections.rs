//! Container implementations for the exclusive-lock insertion traits.

pub mod vec;
pub mod vec_deque;
