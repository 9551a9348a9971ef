//! The expression tree that serialization was first lowered to.
pub mod nodes;
