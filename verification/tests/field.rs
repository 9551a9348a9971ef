use sorbit_derive_impl::attribute::{BitNumbering, ByteOrder, Member, Transform};
use sorbit_derive_impl::ir::dag::{Id, IdSource, Value};
use sorbit_derive_impl::ir::region::Region;
use sorbit_derive_impl::ir::{ToDeserializeOp, ToSerializeOp};
use sorbit_derive_impl::ops::language::yield_;
use sorbit_derive_impl::structure::field::{BitFieldMember, Field};
use sorbit_derive_impl::structure::parse::FieldLayoutProperties;

fn assert_listing_matches(operation: &str, pattern: &str) {
    if let Err(message) = sorbit_derive_impl::ssa_ir::ir::matches(operation, pattern) {
        panic!("{message}");
    }
}

fn named(name: &str) -> Member {
    Member::Named(name.to_string())
}

fn standalone_value(ids: &mut IdSource) -> Value {
    Id::new(ids).value(0)
}

fn direct(layout_properties: FieldLayoutProperties) -> Field {
    Field::Direct {
        member: named("foo"),
        ty: "i32".to_string(),
        transform: Transform::Unchanged,
        layout_properties,
    }
}

fn serialized_listing(input: &Field) -> String {
    let mut ids = IdSource::new();
    let serializer = standalone_value(&mut ids);
    let mut region = Region::new(&mut ids, 0);
    let results = input.to_serialize_op(&mut region, &mut ids, (serializer, true));
    yield_(&mut region, &mut ids, results);
    region.to_string(true)
}

fn deserialized_listing(input: &Field) -> String {
    let mut ids = IdSource::new();
    let deserializer = standalone_value(&mut ids);
    let mut region = Region::new(&mut ids, 0);
    let results = input.to_deserialize_op(&mut region, &mut ids, deserializer);
    yield_(&mut region, &mut ids, results);
    region.to_string(true)
}

fn make_bit_field_empty() -> Field {
    Field::Bit {
        ident: "_bit_field".to_string(),
        ty: "u16".to_string(),
        bit_numbering: BitNumbering::LSB0,
        layout_properties: Default::default(),
        members: vec![],
    }
}

fn make_bit_field_with_members() -> Field {
    Field::Bit {
        ident: "_bit_field".to_string(),
        ty: "u16".to_string(),
        bit_numbering: BitNumbering::LSB0,
        layout_properties: Default::default(),
        members: vec![
            BitFieldMember { member: named("foo"), ty: "u8".to_string(), transform: Transform::Unchanged, bits: 4..7 },
            BitFieldMember { member: named("bar"), ty: "i8".to_string(), transform: Transform::Unchanged, bits: 0..4 },
        ],
    }
}

#[test]
fn to_serialize_op_direct_default() {
    let op = serialized_listing(&direct(Default::default()));

    let pattern = "
        {
            %foo = symref [foo]
            %res = serialize_object %serializer, %foo
            yield %res
        }
        ";
    assert_listing_matches(&op, pattern);
}

#[test]
fn to_serialize_op_direct_byte_order() {
    let op = serialized_listing(&direct(FieldLayoutProperties { byte_order: Some(ByteOrder::BigEndian), ..Default::default() }));

    let pattern = "
        {
            %res = byte_order[BigEndian, true] %serializer |%se_inner| {
                %foo = symref [foo]
                %res_inner = serialize_object %se_inner, %foo
                yield %res_inner
            }
            yield %res
        }
        ";
    assert_listing_matches(&op, pattern);
}

#[test]
fn to_serialize_op_direct_layout() {
    let op = serialized_listing(&direct(FieldLayoutProperties { byte_order: None, offset: Some(1), align: Some(2), round: Some(3) }));

    let pattern = "
        {
            %offset = pad [1, true] %serializer
            %try_offset = try %offset

            %align = align [2, true] %serializer
            %try_align = try %align
            
            %res = serialize_composite %serializer |%s_inner| {
                %foo = symref [foo]
                %res_inner = serialize_object %s_inner, %foo
                %round = align [3, true] %s_inner
                %try_round = try %round
                yield %res_inner
            }
            %res_try = try %res
            %res_1 = member [1, false] %res_try
            %res_ok = ok %res_1
            yield %res_ok
        }
        ";
    assert_listing_matches(&op, pattern);
}

#[test]
fn to_serialize_op_direct_layout_byte_order() {
    let op = serialized_listing(&direct(FieldLayoutProperties { byte_order: Some(ByteOrder::BigEndian), offset: Some(1), align: Some(2), round: Some(3) }));

    let pattern = "
        {
            %offset = pad [1, true] %serializer
            %try_offset = try %offset

            %align = align [2, true] %serializer
            %try_align = try %align
            
            %res = serialize_composite %serializer |%s_inner| {
                %res_inner = byte_order[BigEndian, true] %s_inner |%se_bo| {
                    %foo = symref [foo]
                    %res_bo = serialize_object %se_bo, %foo
                    yield %res_bo
                }
                %round = align [3, true] %s_inner
                %try_round = try %round
                yield %res_inner
            }
            %res_try = try %res
            %res_1 = member [1, false] %res_try
            %res_ok = ok %res_1
            yield %res_ok
        }
        ";
    assert_listing_matches(&op, pattern);
}

#[test]
fn to_deserialize_op_direct_default() {
    let op = deserialized_listing(&direct(Default::default()));

    let pattern = "
        {
            %res = deserialize_object [i32] %serializer
            yield %res
        }
        ";
    assert_listing_matches(&op, pattern);
}

#[test]
fn to_deserialize_op_direct_byte_order() {
    let op = deserialized_listing(&direct(FieldLayoutProperties { byte_order: Some(ByteOrder::BigEndian), ..Default::default() }));

    let pattern = "
        {
            %res = byte_order[BigEndian, false] %de |%de_bo| {
                %res_bo = deserialize_object [i32] %de_bo
                yield %res_bo
            }
            yield %res
        }
        ";
    assert_listing_matches(&op, pattern);
}

#[test]
fn to_deserialize_op_direct_layout() {
    let op = deserialized_listing(&direct(FieldLayoutProperties { byte_order: None, offset: Some(1), align: Some(2), round: Some(3) }));

    let pattern = "
        {
            %offset = pad [1, false] %deserializer
            %try_offset = try %offset

            %align = align [2, false] %deserializer
            %try_align = try %align

            %res = deserialize_composite %deserializer |%des_inner| {
                %res_inner = deserialize_object [i32] %des_inner
                %round = align [3, false] %des_inner
                %try_round = try %round
                yield %res_inner
            }
            yield %res
        }
        ";
    assert_listing_matches(&op, pattern);
}

#[test]
fn to_deserialize_op_direct_layout_byte_order() {
    let op = deserialized_listing(&direct(FieldLayoutProperties { byte_order: Some(ByteOrder::BigEndian), offset: Some(1), align: Some(2), round: Some(3) }));

    let pattern = "
        {
            %offset = pad [1, false] %deserializer
            %try_offset = try %offset

            %align = align [2, false] %deserializer
            %try_align = try %align

            %res = deserialize_composite %deserializer |%des_inner| {
                %res_inner = byte_order[BigEndian, false] %des_inner |%de_bo| {
                    %res_bo = deserialize_object [i32] %de_bo
                    yield %res_bo
                }
                %round = align [3, false] %des_inner
                %try_round = try %round
                yield %res_inner
            }
            yield %res
        }
        ";
    assert_listing_matches(&op, pattern);
}

#[test]
fn to_serialize_op_bit_default() {
    let op = serialized_listing(&make_bit_field_empty());

    let pattern = "
        {
            %bf = empty_bit_field [u16]
            %ref_bf = ref %bf
            %s = serialize_object %serializer %ref_bf
            yield %s
        }
        ";
    assert_listing_matches(&op, pattern);
}

#[test]
fn to_serialize_op_bit_with_members() {
    let op = serialized_listing(&make_bit_field_with_members());

    let pattern = "
        {
            %bf0 = empty_bit_field [u16]
            
            %foo = symref [foo]
            %maybe_bf1 = pack_bit_field [4..7, LSB0] %foo %bf0
            %bf1 = try %maybe_bf1

            %bar = symref [bar]
            %maybe_bf2 = pack_bit_field [0..4, LSB0] %bar %bf1
            %bf2 = try %maybe_bf2

            %ref_bf2 = ref %bf2
            %s = serialize_object %serializer %ref_bf2
            yield %s
        }
        ";
    assert_listing_matches(&op, pattern);
}

#[test]
fn to_deserialize_op_bit_empty() {
    let op = deserialized_listing(&make_bit_field_empty());

    let pattern = "
        {
            %s = deserialize_object [::sorbit::bit::BitField < u16 > ] %deserializer
            %bf = try %s
            yield
        }
        ";
    assert_listing_matches(&op, pattern);
}

#[test]
fn to_deserialize_op_bit_with_members() {
    let op = deserialized_listing(&make_bit_field_with_members());

    let pattern = "
        {
            %s = deserialize_object [::sorbit::bit::BitField < u16 >] %deserializer
            %bf = try %s

            %maybe_foo = unpack_bit_field [u8, 4..7, LSB0] %bf
            %maybe_bar = unpack_bit_field [i8, 0..4, LSB0] %bf

            yield %maybe_foo, %maybe_bar
        }
        ";
    assert_listing_matches(&op, pattern);
}

#[test]
fn yield_terminates_region() {
    let mut ids = IdSource::new();
    let mut region = Region::new(&mut ids, 1);
    assert!(!region.terminated());
    let argument = region.arguments()[0];
    yield_(&mut region, &mut ids, vec![argument]);
    assert!(region.terminated());
    assert_eq!(region.operations().len(), 1);
}
