# sorbit_derive_impl

The logic behind sorbit's `Serialize` and `Deserialize` derive macros, as a
verified library.

A struct with a layout (byte order, offsets, alignment, rounding, bit
fields) is checked and lowered to an intermediate representation of
operations in regions; the operations are listed for inspection, matched
against textual patterns, and ordered into statements of generated code.

- `src/` is the library, verified with Verus: the parameter rules of
  `sorbit` attributes (`structure::parameters`), the reading of their values
  (bit ranges, byte orders, bit numberings: `structure::values`), the grouping of bit field
  members (`structure::field_group`), the lowering of fields and structs
  (`structure::field`, `structure::struct_layout`), the operation builders
  (`ops`), the representation and its listing (`ir`), the scheduling of
  statements (`schedule`, on petgraph), the pattern matcher and the
  closure-based SSA form (`ssa_ir`), and the earlier expression trees
  (`ir::nodes`, `ir_se`, `ir_de`).
- `app/` reads derive input with `syn` and writes tokens with `quote`.
- `tests/` exercises the library.
