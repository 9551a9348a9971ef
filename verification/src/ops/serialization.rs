//! Builders of the operations that drive a serializer or deserializer.
use vstd::prelude::*;

use crate::attribute::{ByteOrder, bool_text, bool_to_text, byte_order_text, byte_order_to_text, number_to_text};
use crate::ir::dag::{IdSource, Value};
use crate::ir::operation::{all_regions_view, region_view, lemma_all_regions_view, OperationView, RegionView};
use crate::ir::region::Region;
use crate::ops::{build_operation, emits, single, shape, lemma_emitted_single, result_of, values1, values2, texts0, texts1, texts2, regions1};
use crate::text::decimal;

verus! {

/// The form of a `success` operation with identifier `id`.
pub open spec fn success_shape(id: usize, serializer: Value) -> OperationView {
    shape("success"@, id, seq![serializer], 1, Seq::<Seq<char>>::empty(), Seq::<RegionView>::empty(), false)
}

/// `success`: The success result of `serializer`.
pub fn success(region: &mut Region, ids: &mut IdSource, serializer: Value) -> (result: Value)
    requires
        !old(region).is_terminated(),
    ensures
        emits(
            *old(region),
            *final(region),
            *old(ids),
            *final(ids),
            single(success_shape(old(ids).next, serializer)),
        ),
        result == result_of(old(ids).next, 0),
{
    let ghost before = *region;
    let ghost ids_before = *ids;
    let outputs = build_operation(
        region,
        ids,
        "success",
        values1(serializer),
        1,
        texts0(),
        Vec::new(),
        false,
    );
    proof {
        assert(all_regions_view(Seq::<Region>::empty()) =~= Seq::<RegionView>::empty());
        lemma_emitted_single(
            before,
            *region,
            ids_before,
            *ids,
            "success"@,
            seq![serializer],
            Seq::<Seq<char>>::empty(),
            Seq::<Region>::empty(),
        );
    }
    outputs[0]
}

/// The form of a `error` operation with identifier `id`.
pub open spec fn error_shape(id: usize, deserializer: Value, message: Seq<char>) -> OperationView {
    shape("error"@, id, seq![deserializer], 1, seq![message], Seq::<RegionView>::empty(), false)
}

/// `error`: An error result of `deserializer` with `message`.
pub fn error(region: &mut Region, ids: &mut IdSource, deserializer: Value, message: &str) -> (result: Value)
    requires
        !old(region).is_terminated(),
    ensures
        emits(
            *old(region),
            *final(region),
            *old(ids),
            *final(ids),
            single(error_shape(old(ids).next, deserializer, message@)),
        ),
        result == result_of(old(ids).next, 0),
{
    let ghost before = *region;
    let ghost ids_before = *ids;
    let outputs = build_operation(
        region,
        ids,
        "error",
        values1(deserializer),
        1,
        texts1(message.to_owned()),
        Vec::new(),
        false,
    );
    proof {
        assert(all_regions_view(Seq::<Region>::empty()) =~= Seq::<RegionView>::empty());
        lemma_emitted_single(
            before,
            *region,
            ids_before,
            *ids,
            "error"@,
            seq![deserializer],
            seq![message@],
            Seq::<Region>::empty(),
        );
    }
    outputs[0]
}

/// The form of a `pad` operation with identifier `id`.
pub open spec fn pad_shape(id: usize, serializer: Value, until: u64, serializing: bool) -> OperationView {
    shape("pad"@, id, seq![serializer], 1, seq![decimal(until as nat), bool_text(serializing)], Seq::<RegionView>::empty(), false)
}

/// `pad`: Pads up to `until` bytes.
pub fn pad(region: &mut Region, ids: &mut IdSource, serializer: Value, until: u64, serializing: bool) -> (result: Value)
    requires
        !old(region).is_terminated(),
    ensures
        emits(
            *old(region),
            *final(region),
            *old(ids),
            *final(ids),
            single(pad_shape(old(ids).next, serializer, until, serializing)),
        ),
        result == result_of(old(ids).next, 0),
{
    let ghost before = *region;
    let ghost ids_before = *ids;
    let outputs = build_operation(
        region,
        ids,
        "pad",
        values1(serializer),
        1,
        texts2(number_to_text(until), bool_to_text(serializing)),
        Vec::new(),
        false,
    );
    proof {
        assert(all_regions_view(Seq::<Region>::empty()) =~= Seq::<RegionView>::empty());
        lemma_emitted_single(
            before,
            *region,
            ids_before,
            *ids,
            "pad"@,
            seq![serializer],
            seq![decimal(until as nat), bool_text(serializing)],
            Seq::<Region>::empty(),
        );
    }
    outputs[0]
}

/// The form of a `align` operation with identifier `id`.
pub open spec fn align_shape(id: usize, serializer: Value, multiple_of: u64, serializing: bool) -> OperationView {
    shape("align"@, id, seq![serializer], 1, seq![decimal(multiple_of as nat), bool_text(serializing)], Seq::<RegionView>::empty(), false)
}

/// `align`: Pads up to the next multiple of `multiple_of` bytes.
pub fn align(region: &mut Region, ids: &mut IdSource, serializer: Value, multiple_of: u64, serializing: bool) -> (result: Value)
    requires
        !old(region).is_terminated(),
    ensures
        emits(
            *old(region),
            *final(region),
            *old(ids),
            *final(ids),
            single(align_shape(old(ids).next, serializer, multiple_of, serializing)),
        ),
        result == result_of(old(ids).next, 0),
{
    let ghost before = *region;
    let ghost ids_before = *ids;
    let outputs = build_operation(
        region,
        ids,
        "align",
        values1(serializer),
        1,
        texts2(number_to_text(multiple_of), bool_to_text(serializing)),
        Vec::new(),
        false,
    );
    proof {
        assert(all_regions_view(Seq::<Region>::empty()) =~= Seq::<RegionView>::empty());
        lemma_emitted_single(
            before,
            *region,
            ids_before,
            *ids,
            "align"@,
            seq![serializer],
            seq![decimal(multiple_of as nat), bool_text(serializing)],
            Seq::<Region>::empty(),
        );
    }
    outputs[0]
}

/// The form of a `annotate_result` operation with identifier `id`.
pub open spec fn annotate_result_shape(id: usize, outcome: Value, annotation: Seq<char>) -> OperationView {
    shape("annotate_result"@, id, seq![outcome], 1, seq![annotation], Seq::<RegionView>::empty(), false)
}

/// `annotate_result`: The result `outcome` with an error annotated by `annotation`.
pub fn annotate_result(region: &mut Region, ids: &mut IdSource, outcome: Value, annotation: &str) -> (result: Value)
    requires
        !old(region).is_terminated(),
    ensures
        emits(
            *old(region),
            *final(region),
            *old(ids),
            *final(ids),
            single(annotate_result_shape(old(ids).next, outcome, annotation@)),
        ),
        result == result_of(old(ids).next, 0),
{
    let ghost before = *region;
    let ghost ids_before = *ids;
    let outputs = build_operation(
        region,
        ids,
        "annotate_result",
        values1(outcome),
        1,
        texts1(annotation.to_owned()),
        Vec::new(),
        false,
    );
    proof {
        assert(all_regions_view(Seq::<Region>::empty()) =~= Seq::<RegionView>::empty());
        lemma_emitted_single(
            before,
            *region,
            ids_before,
            *ids,
            "annotate_result"@,
            seq![outcome],
            seq![annotation@],
            Seq::<Region>::empty(),
        );
    }
    outputs[0]
}

/// The form of a `serialize_object` operation with identifier `id`.
pub open spec fn serialize_object_shape(id: usize, serializer: Value, object: Value) -> OperationView {
    shape("serialize_object"@, id, seq![serializer, object], 1, Seq::<Seq<char>>::empty(), Seq::<RegionView>::empty(), false)
}

/// `serialize_object`: Serializes `object`.
pub fn serialize_object(region: &mut Region, ids: &mut IdSource, serializer: Value, object: Value) -> (result: Value)
    requires
        !old(region).is_terminated(),
    ensures
        emits(
            *old(region),
            *final(region),
            *old(ids),
            *final(ids),
            single(serialize_object_shape(old(ids).next, serializer, object)),
        ),
        result == result_of(old(ids).next, 0),
{
    let ghost before = *region;
    let ghost ids_before = *ids;
    let outputs = build_operation(
        region,
        ids,
        "serialize_object",
        values2(serializer, object),
        1,
        texts0(),
        Vec::new(),
        false,
    );
    proof {
        assert(all_regions_view(Seq::<Region>::empty()) =~= Seq::<RegionView>::empty());
        lemma_emitted_single(
            before,
            *region,
            ids_before,
            *ids,
            "serialize_object"@,
            seq![serializer, object],
            Seq::<Seq<char>>::empty(),
            Seq::<Region>::empty(),
        );
    }
    outputs[0]
}

/// The form of a `serialize_composite` operation with identifier `id`.
pub open spec fn serialize_composite_shape(id: usize, serializer: Value, body: RegionView) -> OperationView {
    shape("serialize_composite"@, id, seq![serializer], 1, Seq::<Seq<char>>::empty(), seq![body], false)
}

/// `serialize_composite`: Serializes what `body` does as one composite.
pub fn serialize_composite(region: &mut Region, ids: &mut IdSource, serializer: Value, body: Region) -> (result: Value)
    requires
        !old(region).is_terminated(),
    ensures
        emits(
            *old(region),
            *final(region),
            *old(ids),
            *final(ids),
            single(serialize_composite_shape(old(ids).next, serializer, region_view(body))),
        ),
        result == result_of(old(ids).next, 0),
{
    let ghost before = *region;
    let ghost ids_before = *ids;
    let ghost body_copy = body;
    let ghost body_form = region_view(body);
    let outputs = build_operation(
        region,
        ids,
        "serialize_composite",
        values1(serializer),
        1,
        texts0(),
        regions1(body),
        false,
    );
    proof {
        lemma_all_regions_view(seq![body_copy]);
        assert(all_regions_view(seq![body_copy]) =~= seq![body_form]);
        lemma_emitted_single(
            before,
            *region,
            ids_before,
            *ids,
            "serialize_composite"@,
            seq![serializer],
            Seq::<Seq<char>>::empty(),
            seq![body_copy],
        );
    }
    outputs[0]
}

/// The form of a `deserialize_object` operation with identifier `id`.
pub open spec fn deserialize_object_shape(id: usize, deserializer: Value, ty: Seq<char>) -> OperationView {
    shape("deserialize_object"@, id, seq![deserializer], 1, seq![ty], Seq::<RegionView>::empty(), false)
}

/// `deserialize_object`: Deserializes an object of type `ty`.
pub fn deserialize_object(region: &mut Region, ids: &mut IdSource, deserializer: Value, ty: &str) -> (result: Value)
    requires
        !old(region).is_terminated(),
    ensures
        emits(
            *old(region),
            *final(region),
            *old(ids),
            *final(ids),
            single(deserialize_object_shape(old(ids).next, deserializer, ty@)),
        ),
        result == result_of(old(ids).next, 0),
{
    let ghost before = *region;
    let ghost ids_before = *ids;
    let outputs = build_operation(
        region,
        ids,
        "deserialize_object",
        values1(deserializer),
        1,
        texts1(ty.to_owned()),
        Vec::new(),
        false,
    );
    proof {
        assert(all_regions_view(Seq::<Region>::empty()) =~= Seq::<RegionView>::empty());
        lemma_emitted_single(
            before,
            *region,
            ids_before,
            *ids,
            "deserialize_object"@,
            seq![deserializer],
            seq![ty@],
            Seq::<Region>::empty(),
        );
    }
    outputs[0]
}

/// The form of a `deserialize_composite` operation with identifier `id`.
pub open spec fn deserialize_composite_shape(id: usize, deserializer: Value, body: RegionView) -> OperationView {
    shape("deserialize_composite"@, id, seq![deserializer], 1, Seq::<Seq<char>>::empty(), seq![body], false)
}

/// `deserialize_composite`: Deserializes what `body` does as one composite.
pub fn deserialize_composite(region: &mut Region, ids: &mut IdSource, deserializer: Value, body: Region) -> (result: Value)
    requires
        !old(region).is_terminated(),
    ensures
        emits(
            *old(region),
            *final(region),
            *old(ids),
            *final(ids),
            single(deserialize_composite_shape(old(ids).next, deserializer, region_view(body))),
        ),
        result == result_of(old(ids).next, 0),
{
    let ghost before = *region;
    let ghost ids_before = *ids;
    let ghost body_copy = body;
    let ghost body_form = region_view(body);
    let outputs = build_operation(
        region,
        ids,
        "deserialize_composite",
        values1(deserializer),
        1,
        texts0(),
        regions1(body),
        false,
    );
    proof {
        lemma_all_regions_view(seq![body_copy]);
        assert(all_regions_view(seq![body_copy]) =~= seq![body_form]);
        lemma_emitted_single(
            before,
            *region,
            ids_before,
            *ids,
            "deserialize_composite"@,
            seq![deserializer],
            Seq::<Seq<char>>::empty(),
            seq![body_copy],
        );
    }
    outputs[0]
}

/// The form of a `byte_order` operation with identifier `id`.
pub open spec fn byte_order_shape(id: usize, serializer: Value, order: ByteOrder, is_serializing: bool, body: RegionView) -> OperationView {
    shape("byte_order"@, id, seq![serializer], 1, seq![byte_order_text(order), bool_text(is_serializing)], seq![body], false)
}

/// `byte_order`: Runs `body` with the byte order `order`.
pub fn byte_order(region: &mut Region, ids: &mut IdSource, serializer: Value, order: ByteOrder, is_serializing: bool, body: Region) -> (result: Value)
    requires
        !old(region).is_terminated(),
    ensures
        emits(
            *old(region),
            *final(region),
            *old(ids),
            *final(ids),
            single(byte_order_shape(old(ids).next, serializer, order, is_serializing, region_view(body))),
        ),
        result == result_of(old(ids).next, 0),
{
    let ghost before = *region;
    let ghost ids_before = *ids;
    let ghost body_copy = body;
    let ghost body_form = region_view(body);
    let outputs = build_operation(
        region,
        ids,
        "byte_order",
        values1(serializer),
        1,
        texts2(byte_order_to_text(order), bool_to_text(is_serializing)),
        regions1(body),
        false,
    );
    proof {
        lemma_all_regions_view(seq![body_copy]);
        assert(all_regions_view(seq![body_copy]) =~= seq![body_form]);
        lemma_emitted_single(
            before,
            *region,
            ids_before,
            *ids,
            "byte_order"@,
            seq![serializer],
            seq![byte_order_text(order), bool_text(is_serializing)],
            seq![body_copy],
        );
    }
    outputs[0]
}


} // verus!
