//! Intermediate representation, pattern matching and layout rules behind the
//! sorbit derive macros.
pub mod text;
pub mod ssa_ir;
pub mod schedule;
pub mod ir;
pub mod attribute;
pub mod ops;
pub mod structure;
pub mod ir_de;
pub mod ir_se;
pub mod utility;
