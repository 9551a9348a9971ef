//! The expression tree that deserialization was first lowered to, and its
//! builders.
pub mod builders;
pub mod nodes;
