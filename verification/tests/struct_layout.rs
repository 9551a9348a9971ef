use sorbit_derive_impl::attribute::{BitNumbering, ByteOrder, Member, Transform};
use sorbit_derive_impl::ir::dag::IdSource;
use sorbit_derive_impl::ir::region::Region;
use sorbit_derive_impl::ir::{ToDeserializeOp, ToSerializeOp};
use sorbit_derive_impl::structure::field::{BitFieldMember, Field};
use sorbit_derive_impl::structure::field_group::ErrorPosition;
use sorbit_derive_impl::structure::parse;
use sorbit_derive_impl::structure::parse::{BitFieldStorageProperties, FieldLayoutProperties};
use sorbit_derive_impl::structure::struct_layout::Struct;

fn assert_listing_matches(operation: &str, pattern: &str) {
    if let Err(message) = sorbit_derive_impl::ssa_ir::ir::matches(operation, pattern) {
        panic!("{message}");
    }
}

fn named(name: &str) -> Member {
    Member::Named(name.to_string())
}

fn empty_struct(generics: &str) -> Struct {
    Struct {
        ident: "Test".to_string(),
        generics: generics.to_string(),
        byte_order: None,
        len: None,
        round: None,
        fields: vec![],
    }
}

fn direct(name: &str, ty: &str) -> Field {
    Field::Direct {
        member: named(name),
        ty: ty.to_string(),
        transform: Transform::Unchanged,
        layout_properties: Default::default(),
    }
}

fn serialized_listing(input: &Struct) -> String {
    let mut ids = IdSource::new();
    let mut region = Region::new(&mut ids, 0);
    input.to_serialize_op(&mut region, &mut ids, ());
    region.to_string(true)
}

fn deserialized_listing(input: &Struct) -> String {
    let mut ids = IdSource::new();
    let mut region = Region::new(&mut ids, 0);
    input.to_deserialize_op(&mut region, &mut ids, ());
    region.to_string(true)
}

#[test]
fn to_serialize_op_generic() {
    // The generics `<'x, T: Clone>` as their tokens print; the where clause
    // is not part of them.
    let input = empty_struct("< 'x , T : Clone >");
    let op = serialized_listing(&input);

    let pattern = "
        {
            impl_serialize [ Test, < 'x T : Clone > ] |%serializer| {
                %self = self
                destructure [ Test ] %self
                %maybe_composite = serialize_composite %serializer |%s_inner| {
                    %nothing = success %s_inner
                    yield %nothing
                }
                %composite = try %maybe_composite
                %span = member [0, false] %composite
                %ok_span = ok %span
                yield %ok_span
            }
        }
        ";
    assert_listing_matches(&op, pattern);
}

#[test]
fn to_serialize_op_with_layout() {
    let input = Struct { len: Some(12), round: Some(8), ..empty_struct("") };
    let op = serialized_listing(&input);

    let pattern = "
        {
            impl_serialize [ Test ] |%serializer| {
                %self = self
                destructure [ Test ] %self
                %maybe_composite = serialize_composite %serializer |%s_inner| {
                    %nothing = success %s_inner
                    %maybe_len = pad [12, true] %s_inner
                    %len = try %maybe_len
                    %maybe_round = align [8, true] %s_inner
                    %round = try %maybe_round
                    yield %nothing
                }
                %composite = try %maybe_composite
                %span = member [0, false] %composite
                %ok_span = ok %span
                yield %ok_span
            }
        }
        ";
    assert_listing_matches(&op, pattern);
}

#[test]
fn to_serialize_op_with_fields() {
    let input = Struct { fields: vec![direct("foo", "u8"), direct("bar", "i8")], ..empty_struct("") };
    let op = serialized_listing(&input);

    let pattern = "
        {
            impl_serialize [ Test ] |%serializer| {
                %self = self
                destructure [Test, foo: foo, bar: bar] %self
                %maybe_composite = serialize_composite %serializer |%s_inner| {
                    %foo = symref [foo]
                    %maybe_span_foo = serialize_object %s_inner, %foo

                    %bar = symref [bar]
                    %maybe_span_bar = serialize_object %s_inner, %bar

                    %span_foo = try %maybe_span_foo
                    %span_bar = try %maybe_span_bar
                    %spans = tuple %span_foo, %span_bar
                    %ok_spans = ok %spans
                    yield %ok_spans
                }
                %composite = try %maybe_composite
                %span = member [0, false] %composite
                %ok_span = ok %span
                yield %ok_span
            }
        }
        ";
    assert_listing_matches(&op, pattern);
}

#[test]
fn to_deserialize_op_generic() {
    let input = empty_struct("< 'x , T : Clone >");
    let op = deserialized_listing(&input);

    let pattern = "
        {
            impl_deserialize [ Test, < 'x T : Clone > ] |%deserializer| {
                %maybe_composite = deserialize_composite %deserializer |%de_inner| {
                    %struct = struct [Test]
                    %ok_struct = ok %struct
                    yield %ok_struct
                }
                yield %maybe_composite
            }
        }
        ";
    assert_listing_matches(&op, pattern);
}

#[test]
fn to_deserialize_op_with_fields() {
    let input = Struct { fields: vec![direct("foo", "u8"), direct("bar", "i8")], ..empty_struct("") };
    let op = deserialized_listing(&input);

    let pattern = "
        {
            impl_deserialize [ Test ] |%deserializer| {
                %maybe_composite = deserialize_composite %deserializer |%de_inner| {
                    %maybe_foo = deserialize_object [u8] %de_inner
                    %foo = try %maybe_foo
                    sym [foo] %foo
                    %maybe_bar = deserialize_object [i8] %de_inner
                    %bar = try %maybe_bar
                    sym [bar] %bar
                    %struct = struct [Test, foo, bar] %foo, %bar
                    %ok_struct = ok %struct
                    yield %ok_struct
                }
                yield %maybe_composite
            }
        }
        ";
    assert_listing_matches(&op, pattern);
}

#[test]
fn to_deserialize_op_with_layout_and_byte_order() {
    let input = Struct {
        byte_order: Some(ByteOrder::BigEndian),
        len: Some(12),
        round: Some(8),
        ..empty_struct("")
    };
    let op = deserialized_listing(&input);

    let pattern = "
        {
            impl_deserialize [ Test ] |%deserializer| {
                %ordered = byte_order [BigEndian, false] %deserializer |%de_ordered| {
                    %maybe_composite = deserialize_composite %de_ordered |%de_inner| {
                        %maybe_len = pad [12, false] %de_inner
                        %len = try %maybe_len
                        %maybe_round = align [8, false] %de_inner
                        %round = try %maybe_round
                        %struct = struct [Test]
                        %ok_struct = ok %struct
                        yield %ok_struct
                    }
                    yield %maybe_composite
                }
                yield %ordered
            }
        }
        ";
    assert_listing_matches(&op, pattern);
}

#[test]
fn to_serialize_op_with_byte_order() {
    let input = Struct { byte_order: Some(ByteOrder::LittleEndian), ..empty_struct("") };
    let op = serialized_listing(&input);

    let pattern = "
        {
            impl_serialize [ Test ] |%serializer| {
                %self = self
                destructure [ Test ] %self
                %ordered = byte_order [LittleEndian, true] %serializer |%s_ordered| {
                    %maybe_composite = serialize_composite %s_ordered |%s_inner| {
                        %nothing = success %s_inner
                        yield %nothing
                    }
                    %composite = try %maybe_composite
                    %span = member [0, false] %composite
                    %ok_span = ok %span
                    yield %ok_span
                }
                yield %ordered
            }
        }
        ";
    assert_listing_matches(&op, pattern);
}

#[test]
fn to_deserialize_op_bit_field_members() {
    let bits = Field::Bit {
        ident: "_bit_field".to_string(),
        ty: "u16".to_string(),
        bit_numbering: BitNumbering::LSB0,
        layout_properties: Default::default(),
        members: vec![
            BitFieldMember { member: named("foo"), ty: "u8".to_string(), transform: Transform::Unchanged, bits: 4..7 },
            BitFieldMember { member: named("bar"), ty: "i8".to_string(), transform: Transform::Unchanged, bits: 0..4 },
        ],
    };
    let input = Struct { fields: vec![bits], ..empty_struct("") };
    let op = deserialized_listing(&input);

    let pattern = "
        {
            impl_deserialize [ Test ] |%deserializer| {
                %maybe_composite = deserialize_composite %deserializer |%de_inner| {
                    %maybe_bits = deserialize_object [::sorbit::bit::BitField < u16 >] %de_inner
                    %bits = try %maybe_bits
                    %maybe_foo = unpack_bit_field [u8, 4..7, LSB0] %bits
                    %maybe_bar = unpack_bit_field [i8, 0..4, LSB0] %bits
                    %foo = try %maybe_foo
                    %bar = try %maybe_bar
                    sym [foo] %foo
                    sym [bar] %bar
                    %struct = struct [Test, foo, bar] %foo, %bar
                    %ok_struct = ok %struct
                    yield %ok_struct
                }
                yield %maybe_composite
            }
        }
        ";
    assert_listing_matches(&op, pattern);
}

#[test]
fn members_in_field_order() {
    let bits = Field::Bit {
        ident: "_bit_field".to_string(),
        ty: "u16".to_string(),
        bit_numbering: BitNumbering::MSB0,
        layout_properties: Default::default(),
        members: vec![
            BitFieldMember { member: named("b"), ty: "u8".to_string(), transform: Transform::Unchanged, bits: 0..4 },
            BitFieldMember { member: Member::Unnamed(3), ty: "u8".to_string(), transform: Transform::Unchanged, bits: 4..8 },
        ],
    };
    let input = Struct { fields: vec![direct("a", "u8"), bits, direct("c", "u32")], ..empty_struct("") };
    let members: Vec<Member> = input.members().into_iter().map(|m| m.duplicate()).collect();
    assert_eq!(members, vec![named("a"), named("b"), Member::Unnamed(3), named("c")]);
}

fn parsed_bit(ident: &str, storage_ty: Option<&str>, bits: std::ops::Range<u8>) -> parse::Field {
    parse::Field::Bit {
        ident: Some(ident.to_string()),
        ty: "u8".to_string(),
        transform: Transform::Unchanged,
        bits,
        storage_ident: "_flags".to_string(),
        storage_properties: BitFieldStorageProperties {
            storage_ty: storage_ty.map(|ty| ty.to_string()),
            bit_numbering: None,
        },
        layout_properties: Default::default(),
    }
}

fn parsed_direct(ident: &str) -> parse::Field {
    parse::Field::Direct {
        ident: Some(ident.to_string()),
        ty: "u32".to_string(),
        transform: Transform::Unchanged,
        layout_properties: FieldLayoutProperties { offset: Some(4), ..Default::default() },
    }
}

fn parsed_struct(fields: Vec<parse::Field>) -> parse::Struct {
    parse::Struct {
        ident: "Test".to_string(),
        generics: String::new(),
        byte_order: Some(ByteOrder::BigEndian),
        len: Some(16),
        round: None,
        fields,
    }
}

#[test]
fn from_parsed_groups_bit_fields() {
    let value = parsed_struct(vec![
        parsed_direct("a"),
        parsed_bit("x", Some("u16"), 0..4),
        parsed_bit("y", None, 4..8),
    ]);
    let actual = Struct::from_parsed(value).unwrap();
    assert_eq!(actual.ident, "Test");
    assert_eq!(actual.byte_order, Some(ByteOrder::BigEndian));
    assert_eq!(actual.len, Some(16));
    assert_eq!(actual.round, None);
    let expected = vec![
        Field::Direct {
            member: named("a"),
            ty: "u32".to_string(),
            transform: Transform::Unchanged,
            layout_properties: FieldLayoutProperties { offset: Some(4), ..Default::default() },
        },
        Field::Bit {
            ident: "_flags".to_string(),
            ty: "u16".to_string(),
            bit_numbering: BitNumbering::LSB0,
            layout_properties: Default::default(),
            members: vec![
                BitFieldMember { member: named("x"), ty: "u8".to_string(), transform: Transform::Unchanged, bits: 0..4 },
                BitFieldMember { member: named("y"), ty: "u8".to_string(), transform: Transform::Unchanged, bits: 4..8 },
            ],
        },
    ];
    assert_eq!(actual.fields, expected);
}

#[test]
fn from_parsed_refuses_separated_members() {
    let value = parsed_struct(vec![
        parsed_bit("x", Some("u16"), 0..4),
        parsed_direct("a"),
        parsed_bit("y", None, 4..8),
    ]);
    let error = Struct::from_parsed(value).unwrap_err();
    assert_eq!(error.position, ErrorPosition::Item(2));
    assert_eq!(error.message, "the members of bit field `_flags` must be consecutive");
}

#[test]
fn from_parsed_refuses_missing_storage_type() {
    let value = parsed_struct(vec![parsed_bit("x", None, 0..4), parsed_bit("y", None, 4..8)]);
    let error = Struct::from_parsed(value).unwrap_err();
    assert_eq!(error.position, ErrorPosition::BitField);
    assert_eq!(error.message, "the storage type of the bit field is not specified");
}

#[test]
fn serializing_and_deserializing_name_the_same_members() {
    let fields = vec![
        Field::Direct {
            member: Member::Unnamed(0),
            ty: "u8".to_string(),
            transform: Transform::Unchanged,
            layout_properties: Default::default(),
        },
        direct("b", "u16"),
    ];
    let input = Struct { fields, ..empty_struct("") };
    let serialized = serialized_listing(&input);
    assert!(serialized.contains("destructure [Test, 0: m0, b: b]"));
    let input = Struct {
        fields: vec![
            Field::Direct {
                member: Member::Unnamed(0),
                ty: "u8".to_string(),
                transform: Transform::Unchanged,
                layout_properties: Default::default(),
            },
            direct("b", "u16"),
        ],
        ..empty_struct("")
    };
    let deserialized = deserialized_listing(&input);
    assert!(deserialized.contains("struct [Test, 0, b]"));
    assert!(deserialized.contains("sym [m0]"));
}

#[test]
fn from_parsed_points_at_the_struct_field_of_a_member() {
    let value = parsed_struct(vec![
        parsed_direct("a"),
        parsed_direct("b"),
        parsed_bit("x", Some("u16"), 0..4),
        parsed_bit("y", Some("u32"), 4..8),
    ]);
    let error = Struct::from_parsed(value).unwrap_err();
    assert_eq!(error.position, ErrorPosition::Item(3));
    assert_eq!(error.message, "the storage type of the bit field is redefined with a different value");
}
