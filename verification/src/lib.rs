//! A dense, rectangular, multi-dimensional array whose number of dimensions is
//! fixed at compile time and whose extents are chosen at run time.
//!
//! The elements live in one contiguous vector in row-major order. A table of
//! strides, one per inner dimension, turns a coordinate tuple into a position
//! in that vector. Indexing narrows a borrowed view by one dimension per step.

pub mod array;
pub mod container;
pub mod enumerate;
pub mod equality;
pub mod laws;
pub mod layout;
pub mod view;

pub use container::MultiVec;
pub use view::{MultiVecMut, MultiVecRef};
