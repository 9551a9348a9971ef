//! Structs with a layout: the fields as attributes describe them, how bit
//! fields are grouped, and how fields are lowered to operations.
pub mod field;
pub mod field_group;
pub mod parameters;
pub mod parse;
pub mod struct_layout;
pub mod values;
pub mod lowering_laws;
