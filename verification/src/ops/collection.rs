//! Builders of the operations on collections.
use vstd::prelude::*;

use crate::ir::dag::{IdSource, Value};
use crate::ir::operation::{all_regions_view, OperationView, RegionView};
use crate::ir::region::Region;
use crate::ops::{build_operation, emits, single, shape, lemma_emitted_single, result_of, values1, values2, texts0, texts1};

verus! {

/// The form of a `len` operation with identifier `id`.
pub open spec fn len_shape(id: usize, serializer: Value, collection: Value, len_ty: Seq<char>) -> OperationView {
    shape("len"@, id, seq![serializer, collection], 1, seq![len_ty], Seq::<RegionView>::empty(), false)
}

/// `len`: The length of `collection`, as a `len_ty`.
pub fn len(region: &mut Region, ids: &mut IdSource, serializer: Value, collection: Value, len_ty: &str) -> (result: Value)
    requires
        !old(region).is_terminated(),
    ensures
        emits(
            *old(region),
            *final(region),
            *old(ids),
            *final(ids),
            single(len_shape(old(ids).next, serializer, collection, len_ty@)),
        ),
        result == result_of(old(ids).next, 0),
{
    let ghost before = *region;
    let ghost ids_before = *ids;
    let outputs = build_operation(
        region,
        ids,
        "len",
        values2(serializer, collection),
        1,
        texts1(len_ty.to_owned()),
        Vec::new(),
        false,
    );
    proof {
        assert(all_regions_view(Seq::<Region>::empty()) =~= Seq::<RegionView>::empty());
        lemma_emitted_single(
            before,
            *region,
            ids_before,
            *ids,
            "len"@,
            seq![serializer, collection],
            seq![len_ty@],
            Seq::<Region>::empty(),
        );
    }
    outputs[0]
}

/// The form of a `byte_count` operation with identifier `id`.
pub open spec fn byte_count_shape(id: usize, serializer: Value, span: Value, byte_count_ty: Seq<char>) -> OperationView {
    shape("byte_count"@, id, seq![serializer, span], 1, seq![byte_count_ty], Seq::<RegionView>::empty(), false)
}

/// `byte_count`: The byte count of `span`, as a `byte_count_ty`.
pub fn byte_count(region: &mut Region, ids: &mut IdSource, serializer: Value, span: Value, byte_count_ty: &str) -> (result: Value)
    requires
        !old(region).is_terminated(),
    ensures
        emits(
            *old(region),
            *final(region),
            *old(ids),
            *final(ids),
            single(byte_count_shape(old(ids).next, serializer, span, byte_count_ty@)),
        ),
        result == result_of(old(ids).next, 0),
{
    let ghost before = *region;
    let ghost ids_before = *ids;
    let outputs = build_operation(
        region,
        ids,
        "byte_count",
        values2(serializer, span),
        1,
        texts1(byte_count_ty.to_owned()),
        Vec::new(),
        false,
    );
    proof {
        assert(all_regions_view(Seq::<Region>::empty()) =~= Seq::<RegionView>::empty());
        lemma_emitted_single(
            before,
            *region,
            ids_before,
            *ids,
            "byte_count"@,
            seq![serializer, span],
            seq![byte_count_ty@],
            Seq::<Region>::empty(),
        );
    }
    outputs[0]
}

/// The form of a `items` operation with identifier `id`.
pub open spec fn items_shape(id: usize, collection: Value) -> OperationView {
    shape("items"@, id, seq![collection], 1, Seq::<Seq<char>>::empty(), Seq::<RegionView>::empty(), false)
}

/// `items`: The items of `collection`.
pub fn items(region: &mut Region, ids: &mut IdSource, collection: Value) -> (result: Value)
    requires
        !old(region).is_terminated(),
    ensures
        emits(
            *old(region),
            *final(region),
            *old(ids),
            *final(ids),
            single(items_shape(old(ids).next, collection)),
        ),
        result == result_of(old(ids).next, 0),
{
    let ghost before = *region;
    let ghost ids_before = *ids;
    let outputs = build_operation(
        region,
        ids,
        "items",
        values1(collection),
        1,
        texts0(),
        Vec::new(),
        false,
    );
    proof {
        assert(all_regions_view(Seq::<Region>::empty()) =~= Seq::<RegionView>::empty());
        lemma_emitted_single(
            before,
            *region,
            ids_before,
            *ids,
            "items"@,
            seq![collection],
            Seq::<Seq<char>>::empty(),
            Seq::<Region>::empty(),
        );
    }
    outputs[0]
}

/// The form of a `deserialize_items_exact` operation with identifier `id`.
pub open spec fn deserialize_items_exact_shape(id: usize, deserializer: Value, len: Value, collection_ty: Seq<char>) -> OperationView {
    shape("deserialize_items_exact"@, id, seq![deserializer, len], 1, seq![collection_ty], Seq::<RegionView>::empty(), false)
}

/// `deserialize_items_exact`: Deserializes exactly `len` items into a `collection_ty`.
pub fn deserialize_items_exact(region: &mut Region, ids: &mut IdSource, deserializer: Value, len: Value, collection_ty: &str) -> (result: Value)
    requires
        !old(region).is_terminated(),
    ensures
        emits(
            *old(region),
            *final(region),
            *old(ids),
            *final(ids),
            single(deserialize_items_exact_shape(old(ids).next, deserializer, len, collection_ty@)),
        ),
        result == result_of(old(ids).next, 0),
{
    let ghost before = *region;
    let ghost ids_before = *ids;
    let outputs = build_operation(
        region,
        ids,
        "deserialize_items_exact",
        values2(deserializer, len),
        1,
        texts1(collection_ty.to_owned()),
        Vec::new(),
        false,
    );
    proof {
        assert(all_regions_view(Seq::<Region>::empty()) =~= Seq::<RegionView>::empty());
        lemma_emitted_single(
            before,
            *region,
            ids_before,
            *ids,
            "deserialize_items_exact"@,
            seq![deserializer, len],
            seq![collection_ty@],
            Seq::<Region>::empty(),
        );
    }
    outputs[0]
}

/// The form of a `deserialize_items_by_len` operation with identifier `id`.
pub open spec fn deserialize_items_by_len_shape(id: usize, deserializer: Value, len: Value, collection_ty: Seq<char>) -> OperationView {
    shape("deserialize_items_by_len"@, id, seq![deserializer, len], 1, seq![collection_ty], Seq::<RegionView>::empty(), false)
}

/// `deserialize_items_by_len`: Deserializes a `collection_ty` whose item count `len` holds.
pub fn deserialize_items_by_len(region: &mut Region, ids: &mut IdSource, deserializer: Value, len: Value, collection_ty: &str) -> (result: Value)
    requires
        !old(region).is_terminated(),
    ensures
        emits(
            *old(region),
            *final(region),
            *old(ids),
            *final(ids),
            single(deserialize_items_by_len_shape(old(ids).next, deserializer, len, collection_ty@)),
        ),
        result == result_of(old(ids).next, 0),
{
    let ghost before = *region;
    let ghost ids_before = *ids;
    let outputs = build_operation(
        region,
        ids,
        "deserialize_items_by_len",
        values2(deserializer, len),
        1,
        texts1(collection_ty.to_owned()),
        Vec::new(),
        false,
    );
    proof {
        assert(all_regions_view(Seq::<Region>::empty()) =~= Seq::<RegionView>::empty());
        lemma_emitted_single(
            before,
            *region,
            ids_before,
            *ids,
            "deserialize_items_by_len"@,
            seq![deserializer, len],
            seq![collection_ty@],
            Seq::<Region>::empty(),
        );
    }
    outputs[0]
}

/// The form of a `deserialize_items_by_byte_count` operation with identifier `id`.
pub open spec fn deserialize_items_by_byte_count_shape(id: usize, deserializer: Value, byte_count: Value, collection_ty: Seq<char>) -> OperationView {
    shape("deserialize_items_by_byte_count"@, id, seq![deserializer, byte_count], 1, seq![collection_ty], Seq::<RegionView>::empty(), false)
}

/// `deserialize_items_by_byte_count`: Deserializes a `collection_ty` whose byte count `byte_count` holds.
pub fn deserialize_items_by_byte_count(region: &mut Region, ids: &mut IdSource, deserializer: Value, byte_count: Value, collection_ty: &str) -> (result: Value)
    requires
        !old(region).is_terminated(),
    ensures
        emits(
            *old(region),
            *final(region),
            *old(ids),
            *final(ids),
            single(deserialize_items_by_byte_count_shape(old(ids).next, deserializer, byte_count, collection_ty@)),
        ),
        result == result_of(old(ids).next, 0),
{
    let ghost before = *region;
    let ghost ids_before = *ids;
    let outputs = build_operation(
        region,
        ids,
        "deserialize_items_by_byte_count",
        values2(deserializer, byte_count),
        1,
        texts1(collection_ty.to_owned()),
        Vec::new(),
        false,
    );
    proof {
        assert(all_regions_view(Seq::<Region>::empty()) =~= Seq::<RegionView>::empty());
        lemma_emitted_single(
            before,
            *region,
            ids_before,
            *ids,
            "deserialize_items_by_byte_count"@,
            seq![deserializer, byte_count],
            seq![collection_ty@],
            Seq::<Region>::empty(),
        );
    }
    outputs[0]
}


} // verus!
