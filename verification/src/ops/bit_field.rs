//! Builders of the bit field operations.
use vstd::prelude::*;

use crate::attribute::{BitNumbering, bit_numbering_text, bit_numbering_to_text, range_text, range_to_text};
use crate::ir::dag::{IdSource, Value};
use crate::ir::operation::{all_regions_view, OperationView, RegionView};
use crate::ir::region::Region;
use crate::ops::{build_operation, emits, single, shape, lemma_emitted_single, result_of, values1, values2, texts1, texts2, texts3};

verus! {

/// The form of a `empty_bit_field` operation with identifier `id`.
pub open spec fn empty_bit_field_shape(id: usize, packed_ty: Seq<char>) -> OperationView {
    shape("empty_bit_field"@, id, Seq::<Value>::empty(), 1, seq![packed_ty], Seq::<RegionView>::empty(), false)
}

/// `empty_bit_field`: An empty bit field stored as `packed_ty`.
pub fn empty_bit_field(region: &mut Region, ids: &mut IdSource, packed_ty: &str) -> (result: Value)
    requires
        !old(region).is_terminated(),
    ensures
        emits(
            *old(region),
            *final(region),
            *old(ids),
            *final(ids),
            single(empty_bit_field_shape(old(ids).next, packed_ty@)),
        ),
        result == result_of(old(ids).next, 0),
{
    let ghost before = *region;
    let ghost ids_before = *ids;
    let outputs = build_operation(
        region,
        ids,
        "empty_bit_field",
        Vec::new(),
        1,
        texts1(packed_ty.to_owned()),
        Vec::new(),
        false,
    );
    proof {
        assert(all_regions_view(Seq::<Region>::empty()) =~= Seq::<RegionView>::empty());
        lemma_emitted_single(
            before,
            *region,
            ids_before,
            *ids,
            "empty_bit_field"@,
            Seq::<Value>::empty(),
            seq![packed_ty@],
            Seq::<Region>::empty(),
        );
    }
    outputs[0]
}

/// The form of a `pack_bit_field` operation with identifier `id`.
pub open spec fn pack_bit_field_shape(id: usize, value: Value, bit_field: Value, start: u8, end: u8, bit_numbering: BitNumbering) -> OperationView {
    shape("pack_bit_field"@, id, seq![value, bit_field], 1, seq![range_text(start, end), bit_numbering_text(bit_numbering)], Seq::<RegionView>::empty(), false)
}

/// `pack_bit_field`: Packs `value` into the bits `start..end` of `bit_field`.
pub fn pack_bit_field(region: &mut Region, ids: &mut IdSource, value: Value, bit_field: Value, start: u8, end: u8, bit_numbering: BitNumbering) -> (result: Value)
    requires
        !old(region).is_terminated(),
    ensures
        emits(
            *old(region),
            *final(region),
            *old(ids),
            *final(ids),
            single(pack_bit_field_shape(old(ids).next, value, bit_field, start, end, bit_numbering)),
        ),
        result == result_of(old(ids).next, 0),
{
    let ghost before = *region;
    let ghost ids_before = *ids;
    let outputs = build_operation(
        region,
        ids,
        "pack_bit_field",
        values2(value, bit_field),
        1,
        texts2(range_to_text(start, end), bit_numbering_to_text(bit_numbering)),
        Vec::new(),
        false,
    );
    proof {
        assert(all_regions_view(Seq::<Region>::empty()) =~= Seq::<RegionView>::empty());
        lemma_emitted_single(
            before,
            *region,
            ids_before,
            *ids,
            "pack_bit_field"@,
            seq![value, bit_field],
            seq![range_text(start, end), bit_numbering_text(bit_numbering)],
            Seq::<Region>::empty(),
        );
    }
    outputs[0]
}

/// The form of a `unpack_bit_field` operation with identifier `id`.
pub open spec fn unpack_bit_field_shape(id: usize, bit_field: Value, ty: Seq<char>, start: u8, end: u8, bit_numbering: BitNumbering) -> OperationView {
    shape("unpack_bit_field"@, id, seq![bit_field], 1, seq![ty, range_text(start, end), bit_numbering_text(bit_numbering)], Seq::<RegionView>::empty(), false)
}

/// `unpack_bit_field`: Unpacks a `ty` from the bits `start..end` of `bit_field`.
pub fn unpack_bit_field(region: &mut Region, ids: &mut IdSource, bit_field: Value, ty: &str, start: u8, end: u8, bit_numbering: BitNumbering) -> (result: Value)
    requires
        !old(region).is_terminated(),
    ensures
        emits(
            *old(region),
            *final(region),
            *old(ids),
            *final(ids),
            single(unpack_bit_field_shape(old(ids).next, bit_field, ty@, start, end, bit_numbering)),
        ),
        result == result_of(old(ids).next, 0),
{
    let ghost before = *region;
    let ghost ids_before = *ids;
    let outputs = build_operation(
        region,
        ids,
        "unpack_bit_field",
        values1(bit_field),
        1,
        texts3(ty.to_owned(), range_to_text(start, end), bit_numbering_to_text(bit_numbering)),
        Vec::new(),
        false,
    );
    proof {
        assert(all_regions_view(Seq::<Region>::empty()) =~= Seq::<RegionView>::empty());
        lemma_emitted_single(
            before,
            *region,
            ids_before,
            *ids,
            "unpack_bit_field"@,
            seq![bit_field],
            seq![ty@, range_text(start, end), bit_numbering_text(bit_numbering)],
            Seq::<Region>::empty(),
        );
    }
    outputs[0]
}


} // verus!
