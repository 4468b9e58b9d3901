//! A double-ended priority queue.
//!
//! A min-max heap keeps its elements in an array laid out as a complete
//! binary tree whose levels alternate between "min" and "max" roles. Both
//! the smallest and the largest element can be read in constant time, and
//! either can be removed in logarithmic time.

pub mod drain;
pub mod heap;
pub mod hole;
pub mod index;
pub mod iter;
pub mod laws;
pub mod order;
pub mod outcome;
pub mod peek;
pub mod script;
pub mod shape;
pub mod sorting;
pub mod walk;

pub use drain::{DrainAsc, DrainDesc};
pub use heap::MinMaxHeap;
pub use iter::{Drain, IntoIter, Iter};
pub use peek::{PeekMaxMut, PeekMinMut};
