use sorbit_derive_impl::attribute::{BitNumbering, ByteOrder, Member, Transform};
use sorbit_derive_impl::structure::field::{BitFieldMember, Field};
use sorbit_derive_impl::structure::field_group::{
    group_fields, ErrorPosition, LayoutField, LayoutSubField,
};
use sorbit_derive_impl::structure::parse;
use sorbit_derive_impl::structure::parse::{BitFieldStorageProperties, FieldLayoutProperties};

fn no_storage() -> BitFieldStorageProperties {
    BitFieldStorageProperties { storage_ty: None, bit_numbering: None }
}

fn bit(ident: Option<&str>, storage: &str) -> parse::Field {
    parse::Field::Bit {
        ident: ident.map(|s| s.to_string()),
        ty: "f32".to_string(),
        transform: Transform::Unchanged,
        bits: 0..4,
        storage_ident: storage.to_string(),
        storage_properties: no_storage(),
        layout_properties: Default::default(),
    }
}

fn sub(member: Member) -> LayoutSubField {
    LayoutSubField {
        member,
        ty: "f32".to_string(),
        transform: Transform::Unchanged,
        bits: 0..4,
        storage_properties: no_storage(),
        layout_properties: Default::default(),
    }
}

#[test]
fn mixed_direct_and_bit() {
    let fields = vec![
        parse::Field::Direct {
            ident: Some("foo".to_string()),
            ty: "u8".to_string(),
            transform: Transform::Unchanged,
            layout_properties: Default::default(),
        },
        bit(Some("bar"), "_bit_field"),
        parse::Field::Direct {
            ident: None,
            ty: "u32".to_string(),
            transform: Transform::Unchanged,
            layout_properties: Default::default(),
        },
    ];
    let actual = group_fields(fields).unwrap();
    let expected = vec![
        LayoutField::Direct {
            member: Member::Named("foo".to_string()),
            ty: "u8".to_string(),
            transform: Transform::Unchanged,
            layout_properties: Default::default(),
        },
        LayoutField::Bit {
            ident: "_bit_field".to_string(),
            sub_fields: vec![sub(Member::Named("bar".to_string()))],
        },
        LayoutField::Direct {
            member: Member::Unnamed(2),
            ty: "u32".to_string(),
            transform: Transform::Unchanged,
            layout_properties: Default::default(),
        },
    ];
    assert_eq!(actual, expected);
}

#[test]
fn split_by_storage_id() {
    let fields = vec![bit(None, "_bit_field_1"), bit(None, "_bit_field_1"), bit(None, "_bit_field_2")];
    let actual = group_fields(fields).unwrap();
    let expected = vec![
        LayoutField::Bit {
            ident: "_bit_field_1".to_string(),
            sub_fields: vec![sub(Member::Unnamed(0)), sub(Member::Unnamed(1))],
        },
        LayoutField::Bit { ident: "_bit_field_2".to_string(), sub_fields: vec![sub(Member::Unnamed(2))] },
    ];
    assert_eq!(actual, expected);
}

#[test]
fn non_consecutive_items_are_refused() {
    let fields = vec![bit(None, "_bit_field_1"), bit(None, "_bit_field_2"), bit(None, "_bit_field_1")];
    let error = group_fields(fields).unwrap_err();
    assert_eq!(error.message, "the members of bit field `_bit_field_1` must be consecutive");
    assert_eq!(error.position, ErrorPosition::Item(2));
}

#[test]
fn direct_field_between_bit_members_is_refused() {
    let fields = vec![
        bit(None, "_b"),
        parse::Field::Direct {
            ident: None,
            ty: "u8".to_string(),
            transform: Transform::Unchanged,
            layout_properties: Default::default(),
        },
        bit(None, "_b"),
    ];
    let error = group_fields(fields).unwrap_err();
    assert_eq!(error.position, ErrorPosition::Item(2));
}

fn make_items() -> Vec<LayoutSubField> {
    (0..3u32).map(|index| sub(Member::Unnamed(index))).collect()
}

#[test]
fn find_storage_ty_none() {
    let items = make_items();
    let error = LayoutField::find_storage_ty(&items).unwrap_err();
    assert_eq!(error.message, "the storage type of the bit field is not specified");
    assert_eq!(error.position, ErrorPosition::BitField);
}

#[test]
fn find_storage_ty_unique() {
    let mut items = make_items();
    items[1].storage_properties.storage_ty = Some("u32".to_string());
    items[2].storage_properties.storage_ty = Some("u32".to_string());
    assert_eq!(LayoutField::find_storage_ty(&items).unwrap(), "u32");
}

#[test]
fn find_storage_ty_ambiguous() {
    let mut items = make_items();
    items[0].storage_properties.storage_ty = Some("u32".to_string());
    items[2].storage_properties.storage_ty = Some("u16".to_string());
    assert!(LayoutField::find_storage_ty(&items).is_err());
}

#[test]
fn find_offset_none() {
    let items = make_items();
    assert_eq!(LayoutField::find_offset(&items).unwrap(), None);
}

#[test]
fn find_offset_unique() {
    let mut items = make_items();
    items[1].layout_properties.offset = Some(1);
    assert_eq!(LayoutField::find_offset(&items).unwrap(), Some(1));
}

#[test]
fn find_offset_ambiguous() {
    let mut items = make_items();
    items[0].layout_properties.offset = Some(1);
    items[2].layout_properties.offset = Some(2);
    assert!(LayoutField::find_offset(&items).is_err());
}

#[test]
fn find_align_none() {
    let items = make_items();
    assert_eq!(LayoutField::find_align(&items).unwrap(), None);
}

#[test]
fn find_align_unique() {
    let mut items = make_items();
    items[1].layout_properties.align = Some(1);
    assert_eq!(LayoutField::find_align(&items).unwrap(), Some(1));
}

#[test]
fn find_align_ambiguous() {
    let mut items = make_items();
    items[0].layout_properties.align = Some(1);
    items[2].layout_properties.align = Some(2);
    assert!(LayoutField::find_align(&items).is_err());
}

#[test]
fn find_round_none() {
    let items = make_items();
    assert_eq!(LayoutField::find_round(&items).unwrap(), None);
}

#[test]
fn find_round_unique() {
    let mut items = make_items();
    items[1].layout_properties.round = Some(1);
    assert_eq!(LayoutField::find_round(&items).unwrap(), Some(1));
}

#[test]
fn find_round_ambiguous() {
    let mut items = make_items();
    items[0].layout_properties.round = Some(1);
    items[2].layout_properties.round = Some(2);
    assert!(LayoutField::find_round(&items).is_err());
}

#[test]
fn ambiguous_offset_points_at_first_difference() {
    let mut items = make_items();
    items[0].layout_properties.offset = Some(1);
    items[1].layout_properties.offset = Some(1);
    items[2].layout_properties.offset = Some(2);
    let error = LayoutField::find_offset(&items).unwrap_err();
    assert_eq!(error.message, "the offset of the bit field is redefined with a different value");
    assert_eq!(error.position, ErrorPosition::Item(2));
}

#[test]
fn find_byte_order_and_bit_numbering() {
    let mut items = make_items();
    items[2].layout_properties.byte_order = Some(ByteOrder::LittleEndian);
    items[0].storage_properties.bit_numbering = Some(BitNumbering::MSB0);
    assert_eq!(LayoutField::find_byte_order(&items).unwrap(), Some(ByteOrder::LittleEndian));
    assert_eq!(LayoutField::find_bit_numbering(&items).unwrap(), Some(BitNumbering::MSB0));
    items[1].storage_properties.bit_numbering = Some(BitNumbering::LSB0);
    let error = LayoutField::find_bit_numbering(&items).unwrap_err();
    assert_eq!(error.message, "the bit numbering of the bit field is redefined with a different value");
}

#[test]
fn into_field_gathers_bit_field_settings() {
    let mut items = make_items();
    items[0].storage_properties.storage_ty = Some("u16".to_string());
    items[1].layout_properties.offset = Some(4);
    let field = LayoutField::Bit { ident: "_b".to_string(), sub_fields: items }.into_field().unwrap();
    match field {
        Field::Bit { ident, ty, bit_numbering, layout_properties, members } => {
            assert_eq!(ident, "_b");
            assert_eq!(ty, "u16");
            assert_eq!(bit_numbering, BitNumbering::LSB0);
            assert_eq!(
                layout_properties,
                FieldLayoutProperties { byte_order: None, offset: Some(4), align: None, round: None }
            );
            assert_eq!(members.len(), 3);
            assert_eq!(
                members[1],
                BitFieldMember { member: Member::Unnamed(1), ty: "f32".to_string(), transform: Transform::Unchanged, bits: 0..4 }
            );
        }
        _ => panic!("expected a bit field"),
    }
}

#[test]
fn into_field_requires_storage_type() {
    let items = make_items();
    let error = LayoutField::Bit { ident: "_b".to_string(), sub_fields: items }.into_field().unwrap_err();
    assert_eq!(error.position, ErrorPosition::BitField);
}

#[test]
#[should_panic]
fn non_consecutive_items() {
    let fields = vec![bit(None, "_bit_field_1"), bit(None, "_bit_field_2"), bit(None, "_bit_field_1")];
    group_fields(fields).unwrap();
}
