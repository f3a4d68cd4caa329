//! Container primitives built from scratch: a growable array, a doubly
//! linked list, and an unbalanced binary search tree, with verified
//! contracts over sequence and set models.

pub mod error;
pub mod laws;
pub mod list;
pub mod owned_pointer;
pub mod render;
pub mod tree;
pub mod vector;

pub use error::ListError;
pub use list::List;
pub use owned_pointer::OwnedPointer;
pub use tree::Tree;
pub use vector::Vector;
