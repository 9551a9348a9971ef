//! The first, closure-based SSA representation and the textual pattern
//! matcher that the lowering tests compare listings with.
pub mod ir;
pub mod ops;
