//! Fixed-capacity data structures that work in place on a buffer owned by the
//! caller and never allocate: a binary heap with a max or min ordering policy,
//! a stack and a ring-buffer queue.
pub mod binary;
pub mod heap;
pub mod queue;
pub mod stack;

pub use binary::{MaxHeap, MinHeap};
pub use heap::{BinaryHeap, HeapError, Order};
pub use queue::Queue;
pub use stack::Stack;
