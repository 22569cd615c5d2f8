//! A dense slab arena: a growable, densely packed store that hands out
//! stable index-based handles to values of a single type, reuses freed
//! slots in LIFO order before growing, and never reads a slot after
//! release nor releases a slot twice.

pub mod dheap;
pub mod laws;
