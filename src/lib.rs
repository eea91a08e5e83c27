//! A slot-recycling arena: values are stored in a growable vector and
//! referred to by typed integer handles; freed slots are kept on a
//! singly-linked stack threaded through the vector and reused last-in,
//! first-out.
pub mod arena;
pub mod idx;
pub mod laws;

pub use arena::{ArenaView, FreeList};
pub use idx::Idx;
