//! Grouping the members of bit fields: consecutive fields that name the same
//! bit field become one field, whose settings all its members must agree on.
use vstd::prelude::*;

use crate::attribute::{BitNumbering, ByteOrder, Member, Transform};
use crate::structure::field::{BitFieldMember, Field};
use crate::structure::parse;
use crate::structure::parse::{BitFieldStorageProperties, FieldLayoutProperties};
use crate::text::{append_str, chars_to_string, str_chars};

verus! {

/// Where an error points: at the item (field or bit field member) with
/// this index, or at the bit field itself.
#[derive(Clone, Copy, PartialEq, Eq, Structural, Debug)]
pub enum ErrorPosition {
    Item(usize),
    BitField,
}

/// An error in the layout of a struct.
#[derive(PartialEq, Eq, Debug)]
pub struct LayoutError {
    pub message: String,
    pub position: ErrorPosition,
}

/// A member of a bit field, before the bit field's settings are gathered.
#[derive(PartialEq, Eq, Debug)]
pub struct LayoutSubField {
    pub member: Member,
    pub ty: String,
    pub transform: Transform,
    pub bits: std::ops::Range<u8>,
    pub storage_properties: BitFieldStorageProperties,
    pub layout_properties: FieldLayoutProperties,
}

/// A field of the layout: a direct field, or a bit field with its members.
#[derive(PartialEq, Eq, Debug)]
pub enum LayoutField {
    Direct {
        member: Member,
        ty: String,
        transform: Transform,
        layout_properties: FieldLayoutProperties,
    },
    Bit { ident: String, sub_fields: Vec<LayoutSubField> },
}

/// The member that the field at `index` is: its name, or its index.
pub open spec fn member_of(ident: Option<String>, index: int) -> Member {
    match ident {
        Some(name) => Member::Named(name),
        None => Member::Unnamed(index as u32),
    }
}

/// The member that the field at `index` is: its name, or its index.
pub fn to_member(ident: Option<String>, index: usize) -> (m: Member)
    ensures
        m == member_of(ident, index as int),
{
    match ident {
        Some(name) => Member::Named(name),
        None => Member::Unnamed(#[verifier::truncate] (index as u32)),
    }
}

//------------------------------------------------------------------------------
// Grouping.
//------------------------------------------------------------------------------

/// A group of the layout, as far as grouping goes: a direct field, or a bit
/// field's name and its members so far.
pub enum GroupView {
    Direct(LayoutField),
    Bit(String, Seq<LayoutSubField>),
}

/// The group view of a layout field.
pub open spec fn group_view(f: LayoutField) -> GroupView {
    match f {
        LayoutField::Direct { .. } => GroupView::Direct(f),
        LayoutField::Bit { ident, sub_fields } => GroupView::Bit(ident, sub_fields@),
    }
}

/// The group views of layout fields.
pub open spec fn group_views(fs: Seq<LayoutField>) -> Seq<GroupView> {
    fs.map_values(|f: LayoutField| group_view(f))
}

/// The bit field that a field belongs to, if it is a bit field member.
pub open spec fn storage_of(f: parse::Field) -> Option<Seq<char>> {
    match f {
        parse::Field::Bit { storage_ident, .. } => Some(storage_ident@),
        _ => None,
    }
}

/// Grouping the first `n` fields: each direct field is a group of its own; a
/// bit field member joins the group just before it when that is its bit
/// field, and otherwise starts one, unless its bit field has started a
/// group before, which is an error at that field. Besides the groups, the
/// names of the bit fields started so far.
pub open spec fn grouping(fields: Seq<parse::Field>, n: int) -> Result<
    (Seq<GroupView>, Seq<Seq<char>>),
    int,
>
    decreases n,
{
    if n <= 0 {
        Ok((Seq::empty(), Seq::empty()))
    } else {
        match grouping(fields, n - 1) {
            Err(i) => Err(i),
            Ok((groups, seen)) => match fields[n - 1] {
                parse::Field::Direct { ident, ty, transform, layout_properties } => Ok(
                    (
                        groups.push(
                            GroupView::Direct(
                                LayoutField::Direct {
                                    member: member_of(ident, n - 1),
                                    ty,
                                    transform,
                                    layout_properties,
                                },
                            ),
                        ),
                        seen,
                    ),
                ),
                parse::Field::Bit {
                    ident,
                    ty,
                    transform,
                    bits,
                    storage_ident,
                    storage_properties,
                    layout_properties,
                } => {
                    let sub = LayoutSubField {
                        member: member_of(ident, n - 1),
                        ty,
                        transform,
                        bits,
                        storage_properties,
                        layout_properties,
                    };
                    if groups.len() > 0 && groups.last() is Bit && groups.last()->Bit_0@
                        == storage_ident@ {
                        Ok(
                            (
                                groups.update(
                                    groups.len() - 1,
                                    GroupView::Bit(
                                        groups.last()->Bit_0,
                                        groups.last()->Bit_1.push(sub),
                                    ),
                                ),
                                seen,
                            ),
                        )
                    } else if seen.contains(storage_ident@) {
                        Err(n - 1)
                    } else {
                        Ok(
                            (
                                groups.push(GroupView::Bit(storage_ident, seq![sub])),
                                seen.push(storage_ident@),
                            ),
                        )
                    }
                },
            },
        }
    }
}

/// The error for members of the bit field `name` that are not consecutive.
pub open spec fn non_consecutive_message(name: Seq<char>) -> Seq<char> {
    "the members of bit field `"@ + name + "` must be consecutive"@
}

/// Two fields are members of the same bit field.
pub open spec fn same_bit_field(a: parse::Field, b: parse::Field) -> bool {
    storage_of(a) is Some && storage_of(a) == storage_of(b)
}

/// Among the first `n` fields, the members of each bit field are
/// consecutive.
pub open spec fn members_consecutive(fields: Seq<parse::Field>, n: int) -> bool {
    forall|i: int, j: int, k: int|
        0 <= i < j < k < n && #[trigger] same_bit_field(fields[i], fields[k]) ==> #[trigger] same_bit_field(
            fields[j],
            fields[k],
        )
}

proof fn lemma_grouping_error_stays(fields: Seq<parse::Field>, a: int, b: int)
    requires
        0 <= a <= b,
        grouping(fields, a) is Err,
    ensures
        grouping(fields, b) == grouping(fields, a),
    decreases b - a,
{
    if a < b {
        lemma_grouping_error_stays(fields, a, b - 1);
    }
}

/// What grouping the first `n` fields keeps track of: the bit fields started
/// are those of the members so far, and the last group is the last field's.
pub open spec fn grouping_facts(
    fields: Seq<parse::Field>,
    n: int,
    groups: Seq<GroupView>,
    seen: Seq<Seq<char>>,
) -> bool {
    &&& forall|x: Seq<char>|
        #![trigger seen.contains(x)]
        seen.contains(x) <==> exists|i: int| 0 <= i < n && #[trigger] storage_of(fields[i]) == Some(x)
    &&& n == 0 ==> groups.len() == 0
    &&& n > 0 ==> {
        &&& groups.len() > 0
        &&& (groups.last() is Bit <==> fields[n - 1] is Bit)
        &&& (groups.last() is Bit ==> Some(groups.last()->Bit_0@) == storage_of(fields[n - 1]))
    }
}

proof fn lemma_consecutive_shrinks(fields: Seq<parse::Field>, n: int, m: int)
    requires
        0 <= m <= n,
        members_consecutive(fields, n),
    ensures
        members_consecutive(fields, m),
{
}

proof fn lemma_grouping_invariant(fields: Seq<parse::Field>, n: int)
    requires
        0 <= n <= fields.len(),
    ensures
        grouping(fields, n) is Ok <==> members_consecutive(fields, n),
        grouping(fields, n) is Ok ==> grouping_facts(
            fields,
            n,
            grouping(fields, n)->Ok_0.0,
            grouping(fields, n)->Ok_0.1,
        ),
    decreases n,
{
    if n == 0 {
        return;
    }
    lemma_grouping_invariant(fields, n - 1);
    let m = n - 1;
    let f = fields[m];
    if grouping(fields, m) is Err {
        if members_consecutive(fields, n) {
            lemma_consecutive_shrinks(fields, n, m);
        }
        return;
    }
    let (groups, seen) = grouping(fields, m)->Ok_0;
    match f {
        parse::Field::Direct { .. } => {
            assert(storage_of(f) is None);
            if members_consecutive(fields, m) {
                assert forall|i: int, j: int, k: int|
                    0 <= i < j < k < n && #[trigger] same_bit_field(fields[i], fields[k]) implies #[trigger] same_bit_field(
                    fields[j],
                    fields[k],
                ) by {
                    assert(k < m);
                }
            } else {
                lemma_consecutive_shrinks_not(fields, m, n);
            }
            let (g2, s2) = grouping(fields, n)->Ok_0;
            assert forall|x: Seq<char>| #![trigger s2.contains(x)] s2.contains(x) <==> exists|i: int|
                0 <= i < n && #[trigger] storage_of(fields[i]) == Some(x) by {
                if exists|i: int| 0 <= i < n && #[trigger] storage_of(fields[i]) == Some(x) {
                    let i = choose|i: int| 0 <= i < n && #[trigger] storage_of(fields[i]) == Some(x);
                    assert(i < m);
                }
            }
        },
        parse::Field::Bit { storage_ident, .. } => {
            let x = storage_ident@;
            assert(storage_of(f) == Some(x));
            if groups.len() > 0 && groups.last() is Bit && groups.last()->Bit_0@ == x {
                assert(storage_of(fields[m - 1]) == Some(x));
                if members_consecutive(fields, m) {
                    assert forall|i: int, j: int, k: int|
                        0 <= i < j < k < n && #[trigger] same_bit_field(fields[i], fields[k]) implies #[trigger] same_bit_field(
                        fields[j],
                        fields[k],
                    ) by {
                        if k == m {
                            if j < m - 1 {
                                assert(same_bit_field(fields[i], fields[m - 1]));
                                assert(same_bit_field(fields[j], fields[m - 1]));
                            }
                        }
                    }
                } else {
                    lemma_consecutive_shrinks_not(fields, m, n);
                }
                let (g2, s2) = grouping(fields, n)->Ok_0;
                assert(s2 == seen);
                assert forall|y: Seq<char>| #![trigger s2.contains(y)] s2.contains(y) <==> exists|i: int|
                    0 <= i < n && #[trigger] storage_of(fields[i]) == Some(y) by {
                    if exists|i: int| 0 <= i < n && #[trigger] storage_of(fields[i]) == Some(y) {
                        let i = choose|i: int| 0 <= i < n && #[trigger] storage_of(fields[i]) == Some(y);
                        if i == m {
                            assert(storage_of(fields[m - 1]) == Some(y));
                        }
                    }
                }
            } else if seen.contains(x) {
                let i = choose|i: int| 0 <= i < m && #[trigger] storage_of(fields[i]) == Some(x);
                assert(m > 0);
                assert(i != m - 1);
                assert(same_bit_field(fields[i], fields[m]));
                assert(!same_bit_field(fields[m - 1], fields[m]));
            } else {
                if members_consecutive(fields, m) {
                    assert forall|i: int, j: int, k: int|
                        0 <= i < j < k < n && #[trigger] same_bit_field(fields[i], fields[k]) implies #[trigger] same_bit_field(
                        fields[j],
                        fields[k],
                    ) by {
                        if k == m {
                            assert(storage_of(fields[i]) == Some(x));
                            assert(seen.contains(x));
                        }
                    }
                } else {
                    lemma_consecutive_shrinks_not(fields, m, n);
                }
                let (g2, s2) = grouping(fields, n)->Ok_0;
                assert(s2 == seen.push(x));
                assert forall|y: Seq<char>| #![trigger s2.contains(y)] s2.contains(y) <==> exists|i: int|
                    0 <= i < n && #[trigger] storage_of(fields[i]) == Some(y) by {
                    if s2.contains(y) {
                        if y == x {
                            assert(storage_of(fields[m]) == Some(y));
                        } else {
                            let q = choose|q: int| 0 <= q < s2.len() && s2[q] == y;
                            assert(seen[q] == y);
                            assert(seen.contains(y));
                        }
                    }
                    if exists|i: int| 0 <= i < n && #[trigger] storage_of(fields[i]) == Some(y) {
                        let i = choose|i: int| 0 <= i < n && #[trigger] storage_of(fields[i]) == Some(y);
                        if i == m {
                            assert(s2[s2.len() - 1] == x);
                        } else {
                            assert(seen.contains(y));
                            let q = choose|q: int| 0 <= q < seen.len() && seen[q] == y;
                            assert(s2[q] == y);
                        }
                    }
                }
            }
        },
    }
}

proof fn lemma_consecutive_shrinks_not(fields: Seq<parse::Field>, m: int, n: int)
    requires
        0 <= m <= n,
        !members_consecutive(fields, m),
    ensures
        !members_consecutive(fields, n),
{
    if members_consecutive(fields, n) {
        lemma_consecutive_shrinks(fields, n, m);
    }
}

/// Grouping succeeds exactly when the members of each bit field are
/// consecutive.
pub proof fn lemma_grouping_succeeds_iff_consecutive(fields: Seq<parse::Field>)
    ensures
        grouping(fields, fields.len() as int) is Ok <==> members_consecutive(
            fields,
            fields.len() as int,
        ),
{
    lemma_grouping_invariant(fields, fields.len() as int);
}

fn names_contain(names: &Vec<String>, name: &String) -> (r: bool)
    ensures
        r == names@.map_values(|s: String| s@).contains(name@),
{
    let mut i: usize = 0;
    while i < names.len()
        invariant
            i <= names.len(),
            forall|j: int| 0 <= j < i ==> names@[j]@ != name@,
        decreases names.len() - i,
    {
        if names[i] == *name {
            assert(names@.map_values(|s: String| s@)[i as int] == name@);
            return true;
        }
        i = i + 1;
    }
    proof {
        if names@.map_values(|s: String| s@).contains(name@) {
            let views = names@.map_values(|s: String| s@);
            let j = choose|j: int| 0 <= j < views.len() && #[trigger] views[j] == name@;
            assert(names@[j]@ == name@);
        }
    }
    false
}

/// Groups the fields of a struct: consecutive members of the same bit field
/// become one bit field; a bit field whose members are not consecutive is an
/// error at its first member after the gap.
pub fn group_fields(fields: Vec<parse::Field>) -> (r: Result<Vec<LayoutField>, LayoutError>)
    ensures
        match r {
            Ok(groups) => grouping(fields@, fields@.len() as int) is Ok && group_views(groups@)
                == grouping(fields@, fields@.len() as int)->Ok_0.0,
            Err(e) => grouping(fields@, fields@.len() as int) is Err && e.position
                == ErrorPosition::Item(grouping(fields@, fields@.len() as int)->Err_0 as usize)
                && e.message@ == non_consecutive_message(
                storage_of(fields@[grouping(fields@, fields@.len() as int)->Err_0]).unwrap(),
            ),
        },
{
    let ghost input = fields@;
    let mut layout_fields: Vec<LayoutField> = Vec::new();
    let mut layout_field_idents: Vec<String> = Vec::new();
    let mut rest = fields;
    let mut index: usize = 0;
    let total = rest.len();
    let mut error: Option<LayoutError> = None;
    while rest.len() > 0
        invariant_except_break
            index <= input.len(),
            rest@ == input.skip(index as int),
            grouping(input, index as int) is Ok,
            group_views(layout_fields@) == grouping(input, index as int)->Ok_0.0,
            layout_field_idents@.map_values(|s: String| s@) == grouping(input, index as int)->Ok_0.1,
            error is None,
        invariant
            total == input.len(),
        ensures
            match error {
                Some(e) => grouping(input, input.len() as int) is Err && e.position == ErrorPosition::Item(
                    grouping(input, input.len() as int)->Err_0 as usize,
                ) && e.message@ == non_consecutive_message(
                    storage_of(input[grouping(input, input.len() as int)->Err_0]).unwrap(),
                ),
                None => grouping(input, input.len() as int) is Ok && group_views(layout_fields@)
                    == grouping(input, input.len() as int)->Ok_0.0,
            },
        decreases rest.len(),
    {
        let field = rest.remove(0);
        proof {
            assert(field == input[index as int]);
        }
        let ghost groups = group_views(layout_fields@);
        match field {
            parse::Field::Direct { ident, ty, transform, layout_properties } => {
                let member = to_member(ident, index);
                layout_fields.push(LayoutField::Direct { member, ty, transform, layout_properties });
                proof {
                    assert(group_views(layout_fields@) =~= groups.push(
                        group_view(layout_fields@.last()),
                    ));
                }
            },
            parse::Field::Bit {
                ident,
                ty,
                transform,
                bits,
                storage_ident,
                storage_properties,
                layout_properties,
            } => {
                let member = to_member(ident, index);
                let sub_field = LayoutSubField {
                    member,
                    ty,
                    transform,
                    bits,
                    storage_properties,
                    layout_properties,
                };
                let last = layout_fields.pop();
                match last {
                    Some(LayoutField::Bit { ident: group_ident, sub_fields: mut subs }) => {
                        if group_ident == storage_ident {
                            let ghost before = subs@;
                            subs.push(sub_field);
                            layout_fields.push(LayoutField::Bit { ident: group_ident, sub_fields: subs });
                            proof {
                                assert(group_views(layout_fields@) =~= groups.update(
                                    groups.len() - 1,
                                    GroupView::Bit(group_ident, before.push(sub_field)),
                                ));
                            }
                        } else {
                            layout_fields.push(LayoutField::Bit { ident: group_ident, sub_fields: subs });
                            proof {
                                assert(group_views(layout_fields@) =~= groups);
                            }
                            if names_contain(&layout_field_idents, &storage_ident) {
                                let mut message = str_chars("the members of bit field `");
                                append_str(&mut message, storage_ident.as_str());
                                append_str(&mut message, "` must be consecutive");
                                proof {
                                    assert(grouping(input, index + 1) == Err::<(Seq<GroupView>, Seq<Seq<char>>), int>(index as int));
                                    lemma_grouping_error_stays(input, index + 1, input.len() as int);

                                    assert(message@ =~= non_consecutive_message(storage_ident@));
                                }
                                error = Some(
                                    LayoutError {
                                        message: chars_to_string(&message),
                                        position: ErrorPosition::Item(index),
                                    },
                                );
                                break;
                            }
                            let ghost names = layout_field_idents@;
                            layout_field_idents.push(storage_ident.clone());
                            layout_fields.push(
                                LayoutField::Bit { ident: storage_ident, sub_fields: vec![sub_field] },
                            );
                            proof {
                                assert(layout_field_idents@.map_values(|s: String| s@) =~= names.map_values(
                                    |s: String| s@,
                                ).push(storage_ident@));
                                assert(layout_fields@.last()->Bit_sub_fields@ =~= seq![sub_field]);
                                assert(group_views(layout_fields@) =~= groups.push(
                                    GroupView::Bit(storage_ident, seq![sub_field]),
                                ));
                            }
                        }
                    },
                    other => {
                        match other {
                            Some(direct) => {
                                layout_fields.push(direct);
                            },
                            None => {},
                        }
                        proof {
                            assert(group_views(layout_fields@) =~= groups);
                        }
                        if names_contain(&layout_field_idents, &storage_ident) {
                            let mut message = str_chars("the members of bit field `");
                            append_str(&mut message, storage_ident.as_str());
                            append_str(&mut message, "` must be consecutive");
                            proof {
                                assert(grouping(input, index + 1) == Err::<(Seq<GroupView>, Seq<Seq<char>>), int>(index as int));
                                lemma_grouping_error_stays(input, index + 1, input.len() as int);

                                assert(message@ =~= non_consecutive_message(storage_ident@));
                            }
                            error = Some(
                                LayoutError {
                                    message: chars_to_string(&message),
                                    position: ErrorPosition::Item(index),
                                },
                            );
                            break;
                        }
                        let ghost names = layout_field_idents@;
                        layout_field_idents.push(storage_ident.clone());
                        layout_fields.push(
                            LayoutField::Bit { ident: storage_ident, sub_fields: vec![sub_field] },
                        );
                        proof {
                            assert(layout_field_idents@.map_values(|s: String| s@) =~= names.map_values(
                                |s: String| s@,
                            ).push(storage_ident@));
                            assert(layout_fields@.last()->Bit_sub_fields@ =~= seq![sub_field]);
                            assert(group_views(layout_fields@) =~= groups.push(
                                GroupView::Bit(storage_ident, seq![sub_field]),
                            ));
                        }
                    },
                }
            },
        }
        index = index + 1;
        proof {
            assert(rest@ =~= input.skip(index as int));
        }
    }
    match error {
        Some(e) => Err(e),
        None => Ok(layout_fields),
    }
}

//------------------------------------------------------------------------------
// Settings that the members of a bit field must agree on.
//------------------------------------------------------------------------------

/// Whether the first `n` settings agree: the first one given, or none, or
/// the place of the first one that differs from the first one given.
pub open spec fn agreement<T>(values: Seq<Option<T>>, n: int) -> Result<Option<T>, int>
    decreases n,
{
    if n <= 0 {
        Ok(None)
    } else {
        match agreement(values, n - 1) {
            Err(i) => Err(i),
            Ok(None) => Ok(values[n - 1]),
            Ok(Some(v)) => match values[n - 1] {
                Some(w) => if w == v {
                    Ok(Some(v))
                } else {
                    Err(n - 1)
                },
                None => Ok(Some(v)),
            },
        }
    }
}

/// Whether all the settings agree.
pub open spec fn all_agree<T>(values: Seq<Option<T>>) -> Result<Option<T>, int> {
    agreement(values, values.len() as int)
}

proof fn lemma_agreement_error_stays<T>(values: Seq<Option<T>>, a: int, b: int)
    requires
        0 <= a <= b,
        agreement(values, a) is Err,
    ensures
        agreement(values, b) == agreement(values, a),
    decreases b - a,
{
    if a < b {
        lemma_agreement_error_stays(values, a, b - 1);
    }
}

/// The offsets given by the members.
pub open spec fn offsets(items: Seq<LayoutSubField>) -> Seq<Option<u64>> {
    items.map_values(|s: LayoutSubField| s.layout_properties.offset)
}

/// The alignments given by the members.
pub open spec fn alignments(items: Seq<LayoutSubField>) -> Seq<Option<u64>> {
    items.map_values(|s: LayoutSubField| s.layout_properties.align)
}

/// The roundings given by the members.
pub open spec fn roundings(items: Seq<LayoutSubField>) -> Seq<Option<u64>> {
    items.map_values(|s: LayoutSubField| s.layout_properties.round)
}

/// The byte orders given by the members.
pub open spec fn byte_orders(items: Seq<LayoutSubField>) -> Seq<Option<ByteOrder>> {
    items.map_values(|s: LayoutSubField| s.layout_properties.byte_order)
}

/// The bit numberings given by the members.
pub open spec fn bit_numberings(items: Seq<LayoutSubField>) -> Seq<Option<BitNumbering>> {
    items.map_values(|s: LayoutSubField| s.storage_properties.bit_numbering)
}

/// The storage types given by the members, as text.
pub open spec fn storage_types(items: Seq<LayoutSubField>) -> Seq<Option<Seq<char>>> {
    items.map_values(
        |s: LayoutSubField|
            match s.storage_properties.storage_ty {
                Some(t) => Some(t@),
                None => None,
            },
    )
}

/// The outcome of checking that settings agree, as the library reports it:
/// the setting, or the error with `message` at the first member that differs.
pub open spec fn setting_outcome<T>(values: Seq<Option<T>>, message: Seq<char>, r: Result<Option<T>, LayoutError>) -> bool {
    match all_agree(values) {
        Ok(v) => r == Ok::<Option<T>, LayoutError>(v),
        Err(i) => r matches Err(e) && e.message@ == message && e.position == ErrorPosition::Item(
            i as usize,
        ),
    }
}

fn agree_u64(values: &Vec<Option<u64>>, message: &str) -> (r: Result<Option<u64>, LayoutError>)
    ensures
        setting_outcome(values@, message@, r),
{
    let mut first: Option<u64> = None;
    let mut i: usize = 0;
    while i < values.len()
        invariant
            i <= values.len(),
            agreement(values@, i as int) == Ok::<Option<u64>, int>(first),
        decreases values.len() - i,
    {
        match (first, values[i]) {
            (None, v) => {
                first = v;
            },
            (Some(v), Some(w)) => {
                if w != v {
                    proof {
                        lemma_agreement_error_stays(values@, i + 1, values@.len() as int);
                    }
                    return Err(LayoutError { message: message.to_owned(), position: ErrorPosition::Item(i) });
                }
            },
            (Some(_), None) => {},
        }
        i = i + 1;
    }
    Ok(first)
}

fn agree_byte_order(values: &Vec<Option<ByteOrder>>, message: &str) -> (r: Result<Option<ByteOrder>, LayoutError>)
    ensures
        setting_outcome(values@, message@, r),
{
    let mut first: Option<ByteOrder> = None;
    let mut i: usize = 0;
    while i < values.len()
        invariant
            i <= values.len(),
            agreement(values@, i as int) == Ok::<Option<ByteOrder>, int>(first),
        decreases values.len() - i,
    {
        match (first, values[i]) {
            (None, v) => {
                first = v;
            },
            (Some(v), Some(w)) => {
                if w != v {
                    proof {
                        lemma_agreement_error_stays(values@, i + 1, values@.len() as int);
                    }
                    return Err(LayoutError { message: message.to_owned(), position: ErrorPosition::Item(i) });
                }
            },
            (Some(_), None) => {},
        }
        i = i + 1;
    }
    Ok(first)
}

fn agree_bit_numbering(values: &Vec<Option<BitNumbering>>, message: &str) -> (r: Result<Option<BitNumbering>, LayoutError>)
    ensures
        setting_outcome(values@, message@, r),
{
    let mut first: Option<BitNumbering> = None;
    let mut i: usize = 0;
    while i < values.len()
        invariant
            i <= values.len(),
            agreement(values@, i as int) == Ok::<Option<BitNumbering>, int>(first),
        decreases values.len() - i,
    {
        match (first, values[i]) {
            (None, v) => {
                first = v;
            },
            (Some(v), Some(w)) => {
                if w != v {
                    proof {
                        lemma_agreement_error_stays(values@, i + 1, values@.len() as int);
                    }
                    return Err(LayoutError { message: message.to_owned(), position: ErrorPosition::Item(i) });
                }
            },
            (Some(_), None) => {},
        }
        i = i + 1;
    }
    Ok(first)
}

impl LayoutField {
    /// The byte order that the members give, if any; members that give
    /// different ones are an error.
    pub fn find_byte_order(items: &Vec<LayoutSubField>) -> (r: Result<Option<ByteOrder>, LayoutError>)
        ensures
            setting_outcome(
                byte_orders(items@),
                "the byte order of the bit field is redefined with a different value"@,
                r,
            ),
    {
        let mut values: Vec<Option<ByteOrder>> = Vec::new();
        let mut i: usize = 0;
        while i < items.len()
            invariant
                i <= items.len(),
                values@ == byte_orders(items@).take(i as int),
            decreases items.len() - i,
        {
            values.push(items[i].layout_properties.byte_order);
            i = i + 1;
            assert(values@ =~= byte_orders(items@).take(i as int));
        }
        assert(byte_orders(items@).take(i as int) =~= byte_orders(items@));
        agree_byte_order(&values, "the byte order of the bit field is redefined with a different value")
    }

    /// The bit numbering that the members give, if any; members that give
    /// different ones are an error.
    pub fn find_bit_numbering(items: &Vec<LayoutSubField>) -> (r: Result<Option<BitNumbering>, LayoutError>)
        ensures
            setting_outcome(
                bit_numberings(items@),
                "the bit numbering of the bit field is redefined with a different value"@,
                r,
            ),
    {
        let mut values: Vec<Option<BitNumbering>> = Vec::new();
        let mut i: usize = 0;
        while i < items.len()
            invariant
                i <= items.len(),
                values@ == bit_numberings(items@).take(i as int),
            decreases items.len() - i,
        {
            values.push(items[i].storage_properties.bit_numbering);
            i = i + 1;
            assert(values@ =~= bit_numberings(items@).take(i as int));
        }
        assert(bit_numberings(items@).take(i as int) =~= bit_numberings(items@));
        agree_bit_numbering(&values, "the bit numbering of the bit field is redefined with a different value")
    }

    /// The offset that the members give, if any; members that give
    /// different ones are an error.
    pub fn find_offset(items: &Vec<LayoutSubField>) -> (r: Result<Option<u64>, LayoutError>)
        ensures
            setting_outcome(
                offsets(items@),
                "the offset of the bit field is redefined with a different value"@,
                r,
            ),
    {
        let mut values: Vec<Option<u64>> = Vec::new();
        let mut i: usize = 0;
        while i < items.len()
            invariant
                i <= items.len(),
                values@ == offsets(items@).take(i as int),
            decreases items.len() - i,
        {
            values.push(items[i].layout_properties.offset);
            i = i + 1;
            assert(values@ =~= offsets(items@).take(i as int));
        }
        assert(offsets(items@).take(i as int) =~= offsets(items@));
        agree_u64(&values, "the offset of the bit field is redefined with a different value")
    }

    /// The alignment that the members give, if any; members that give
    /// different ones are an error.
    pub fn find_align(items: &Vec<LayoutSubField>) -> (r: Result<Option<u64>, LayoutError>)
        ensures
            setting_outcome(
                alignments(items@),
                "alignment of the bit field is redefined with a different value"@,
                r,
            ),
    {
        let mut values: Vec<Option<u64>> = Vec::new();
        let mut i: usize = 0;
        while i < items.len()
            invariant
                i <= items.len(),
                values@ == alignments(items@).take(i as int),
            decreases items.len() - i,
        {
            values.push(items[i].layout_properties.align);
            i = i + 1;
            assert(values@ =~= alignments(items@).take(i as int));
        }
        assert(alignments(items@).take(i as int) =~= alignments(items@));
        agree_u64(&values, "alignment of the bit field is redefined with a different value")
    }

    /// The rounding that the members give, if any; members that give
    /// different ones are an error.
    pub fn find_round(items: &Vec<LayoutSubField>) -> (r: Result<Option<u64>, LayoutError>)
        ensures
            setting_outcome(
                roundings(items@),
                "rounding of the bit field is redefined with a different value"@,
                r,
            ),
    {
        let mut values: Vec<Option<u64>> = Vec::new();
        let mut i: usize = 0;
        while i < items.len()
            invariant
                i <= items.len(),
                values@ == roundings(items@).take(i as int),
            decreases items.len() - i,
        {
            values.push(items[i].layout_properties.round);
            i = i + 1;
            assert(values@ =~= roundings(items@).take(i as int));
        }
        assert(roundings(items@).take(i as int) =~= roundings(items@));
        agree_u64(&values, "rounding of the bit field is redefined with a different value")
    }

    /// The storage type that the members give: members that give different
    /// ones are an error, and so is a bit field whose members give none.
    pub fn find_storage_ty(items: &Vec<LayoutSubField>) -> (r: Result<String, LayoutError>)
        ensures
            match all_agree(storage_types(items@)) {
                Ok(Some(t)) => r matches Ok(ty) && ty@ == t,
                Ok(None) => r matches Err(e) && e.message@
                    == "the storage type of the bit field is not specified"@ && e.position
                    == ErrorPosition::BitField,
                Err(i) => r matches Err(e) && e.message@
                    == "the storage type of the bit field is redefined with a different value"@
                    && e.position == ErrorPosition::Item(i as usize),
            },
    {
        let ghost values = storage_types(items@);
        let mut first: Option<&String> = None;
        let mut i: usize = 0;
        while i < items.len()
            invariant
                i <= items.len(),
                values == storage_types(items@),
                agreement(values, i as int) == Ok::<Option<Seq<char>>, int>(
                    match first {
                        Some(t) => Some(t@),
                        None => None,
                    },
                ),
            decreases items.len() - i,
        {
            match (first, &items[i].storage_properties.storage_ty) {
                (None, v) => {
                    first = v.as_ref();
                },
                (Some(v), Some(w)) => {
                    if *w != *v {
                        proof {
                            lemma_agreement_error_stays(values, i + 1, values.len() as int);
                        }
                        return Err(
                            LayoutError {
                                message: "the storage type of the bit field is redefined with a different value".to_owned(),
                                position: ErrorPosition::Item(i),
                            },
                        );
                    }
                },
                (Some(_), None) => {},
            }
            i = i + 1;
        }
        match first {
            Some(t) => Ok(t.clone()),
            None => Err(
                LayoutError {
                    message: "the storage type of the bit field is not specified".to_owned(),
                    position: ErrorPosition::BitField,
                },
            ),
        }
    }
}

/// The members of a bit field, from its grouped members.
pub open spec fn members_of(items: Seq<LayoutSubField>) -> Seq<BitFieldMember> {
    items.map_values(
        |s: LayoutSubField|
            BitFieldMember { member: s.member, ty: s.ty, transform: s.transform, bits: s.bits },
    )
}

/// `r` is the error with `message` at the item `i`.
pub open spec fn is_item_error<T>(r: Result<T, LayoutError>, message: Seq<char>, i: int) -> bool {
    r matches Err(e) && e.message@ == message && e.position == ErrorPosition::Item(i as usize)
}

/// What turning a group into a field gives: a direct field as it is; for a
/// bit field, the first error among its storage type (which must be given),
/// bit numbering, byte order, offset, alignment and rounding, in that order;
/// otherwise the bit field with those settings (bit numbering `LSB0` when
/// none is given) and its members.
pub open spec fn into_field_outcome(f: LayoutField, r: Result<Field, LayoutError>) -> bool {
    group_outcome(group_view(f), r)
}

/// What turning a group into a field gives, by the group's view (see
/// [`into_field_outcome`]).
pub open spec fn group_outcome(g: GroupView, r: Result<Field, LayoutError>) -> bool {
    match g {
        GroupView::Direct(f) => match f {
            LayoutField::Direct { member, ty, transform, layout_properties } => r == Ok::<
                Field,
                LayoutError,
            >(Field::Direct { member, ty, transform, layout_properties }),
            LayoutField::Bit { .. } => false,
        },
        GroupView::Bit(ident, items) => {
            let st = all_agree(storage_types(items));
            let bn = all_agree(bit_numberings(items));
            let bo = all_agree(byte_orders(items));
            let of = all_agree(offsets(items));
            let al = all_agree(alignments(items));
            let ro = all_agree(roundings(items));
            if st is Err {
                is_item_error(
                    r,
                    "the storage type of the bit field is redefined with a different value"@,
                    st->Err_0,
                )
            } else if st->Ok_0 is None {
                r matches Err(e) && e.message@ == "the storage type of the bit field is not specified"@
                    && e.position == ErrorPosition::BitField
            } else if bn is Err {
                is_item_error(
                    r,
                    "the bit numbering of the bit field is redefined with a different value"@,
                    bn->Err_0,
                )
            } else if bo is Err {
                is_item_error(
                    r,
                    "the byte order of the bit field is redefined with a different value"@,
                    bo->Err_0,
                )
            } else if of is Err {
                is_item_error(r, "the offset of the bit field is redefined with a different value"@, of->Err_0)
            } else if al is Err {
                is_item_error(r, "alignment of the bit field is redefined with a different value"@, al->Err_0)
            } else if ro is Err {
                is_item_error(r, "rounding of the bit field is redefined with a different value"@, ro->Err_0)
            } else {
                r matches Ok(Field::Bit { ident: id, ty, bit_numbering, layout_properties, members })
                    && id == ident && ty@ == st->Ok_0->Some_0 && bit_numbering == (match bn->Ok_0 {
                    Some(b) => b,
                    None => BitNumbering::LSB0,
                }) && layout_properties == FieldLayoutProperties {
                    byte_order: bo->Ok_0,
                    offset: of->Ok_0,
                    align: al->Ok_0,
                    round: ro->Ok_0,
                } && members@ == members_of(items)
            }
        },
    }
}

impl LayoutField {
    /// Turns the group into a field: a bit field gathers its settings from
    /// its members, which must agree on them.
    pub fn into_field(self) -> (r: Result<Field, LayoutError>)
        ensures
            into_field_outcome(self, r),
    {
        match self {
            LayoutField::Direct { member, ty, transform, layout_properties } => {
                Ok(Field::Direct { member, ty, transform, layout_properties })
            },
            LayoutField::Bit { ident, sub_fields } => {
                let ty = match Self::find_storage_ty(&sub_fields) {
                    Ok(ty) => ty,
                    Err(e) => return Err(e),
                };
                let bit_numbering = match Self::find_bit_numbering(&sub_fields) {
                    Ok(Some(b)) => b,
                    Ok(None) => BitNumbering::LSB0,
                    Err(e) => return Err(e),
                };
                let byte_order = match Self::find_byte_order(&sub_fields) {
                    Ok(b) => b,
                    Err(e) => return Err(e),
                };
                let offset = match Self::find_offset(&sub_fields) {
                    Ok(o) => o,
                    Err(e) => return Err(e),
                };
                let align = match Self::find_align(&sub_fields) {
                    Ok(a) => a,
                    Err(e) => return Err(e),
                };
                let round = match Self::find_round(&sub_fields) {
                    Ok(o) => o,
                    Err(e) => return Err(e),
                };
                let layout_properties = FieldLayoutProperties { byte_order, offset, align, round };
                let ghost items = sub_fields@;
                let total = sub_fields.len();
                let mut rest = sub_fields;
                let mut members: Vec<BitFieldMember> = Vec::new();
                let mut i: usize = 0;
                while rest.len() > 0
                    invariant
                        i <= items.len(),
                        total == items.len(),
                        rest@ == items.skip(i as int),
                        members@ == members_of(items).take(i as int),
                    decreases rest.len(),
                {
                    let LayoutSubField { member, ty, transform, bits, .. } = rest.remove(0);
                    members.push(BitFieldMember { member, ty, transform, bits });
                    i = i + 1;
                    assert(rest@ =~= items.skip(i as int));
                    assert(members@ =~= members_of(items).take(i as int));
                }
                assert(members_of(items).take(i as int) =~= members_of(items));
                Ok(Field::Bit { ident, ty, bit_numbering, layout_properties, members })
            },
        }
    }
}


/// How many struct fields a group holds.
pub open spec fn group_size(g: GroupView) -> int {
    match g {
        GroupView::Direct(_) => 1,
        GroupView::Bit(_, items) => items.len() as int,
    }
}

/// How many struct fields the first `k` groups hold.
pub open spec fn fields_before(gs: Seq<GroupView>, k: int) -> int
    decreases k,
{
    if k <= 0 {
        0
    } else {
        fields_before(gs, k - 1) + group_size(gs[k - 1])
    }
}

/// The error of a group with its item counted among the struct's fields,
/// when the group starts after `by` of them.
pub open spec fn shifted_error(e: LayoutError, by: int) -> LayoutError {
    LayoutError {
        message: e.message,
        position: match e.position {
            ErrorPosition::Item(i) => ErrorPosition::Item((i + by) as usize),
            ErrorPosition::BitField => ErrorPosition::BitField,
        },
    }
}

/// Turning groups into fields one after another: every group gives its
/// field, or the first group that fails gives the error, at the place of
/// its item among the struct's fields.
pub open spec fn groups_outcome(gs: Seq<GroupView>, r: Result<Seq<Field>, LayoutError>) -> bool {
    match r {
        Ok(fs) => fs.len() == gs.len() && forall|i: int|
            0 <= i < gs.len() ==> group_outcome(gs[i], Ok(#[trigger] fs[i])),
        Err(e) => exists|k: int, e0: LayoutError|
            0 <= k < gs.len() && #[trigger] group_outcome(gs[k], Err(e0)) && e == shifted_error(
                e0,
                fields_before(gs, k),
            ) && forall|i: int| 0 <= i < k ==> #[trigger] group_succeeds(gs[i]),
    }
}

proof fn lemma_agreement_error_index<T>(values: Seq<Option<T>>, n: int)
    requires
        0 <= n <= values.len(),
    ensures
        agreement(values, n) matches Err(i) ==> 0 <= i < n,
    decreases n,
{
    if n > 0 {
        lemma_agreement_error_index(values, n - 1);
    }
}

/// An error of a group points at one of its own items.
proof fn lemma_group_error_index(g: GroupView, e: LayoutError)
    requires
        group_outcome(g, Err(e)),
    ensures
        e.position matches ErrorPosition::Item(i) ==> i < group_size(g),
{
    if let GroupView::Bit(_, items) = g {
        lemma_agreement_error_index(storage_types(items), items.len() as int);
        lemma_agreement_error_index(bit_numberings(items), items.len() as int);
        lemma_agreement_error_index(byte_orders(items), items.len() as int);
        lemma_agreement_error_index(offsets(items), items.len() as int);
        lemma_agreement_error_index(alignments(items), items.len() as int);
        lemma_agreement_error_index(roundings(items), items.len() as int);
    }
}

proof fn lemma_fields_before_grows(gs: Seq<GroupView>, a: int, b: int)
    requires
        0 <= a <= b <= gs.len(),
    ensures
        fields_before(gs, a) <= fields_before(gs, b),
    decreases b - a,
{
    if a < b {
        lemma_fields_before_grows(gs, a, b - 1);
    }
}

/// The group gives a field.
pub open spec fn group_succeeds(g: GroupView) -> bool {
    exists|f: Field| group_outcome(g, Ok(f))
}

/// Turns each group into its field, in order, stopping at the first error;
/// an error's item is counted among the fields of all the groups.
pub fn fields_from_groups(groups: Vec<LayoutField>) -> (r: Result<Vec<Field>, LayoutError>)
    requires
        fields_before(group_views(groups@), groups@.len() as int) <= usize::MAX,
    ensures
        match r {
            Ok(fs) => groups_outcome(group_views(groups@), Ok(fs@)),
            Err(e) => groups_outcome(group_views(groups@), Err(e)),
        },
{
    let ghost g0 = groups@;
    let ghost gv = group_views(g0);
    let mut rest = groups;
    let mut fields: Vec<Field> = Vec::new();
    let mut failure: Option<LayoutError> = None;
    let mut offset: usize = 0;
    assert(rest@ =~= g0.skip(0));
    while rest.len() > 0
        invariant_except_break
            failure is None,
            rest@ == g0.skip(fields@.len() as int),
            offset == fields_before(gv, fields@.len() as int),
        invariant
            fields@.len() <= g0.len(),
            gv == group_views(g0),
            gv.len() == g0.len(),
            fields_before(gv, g0.len() as int) <= usize::MAX,
            forall|i: int| 0 <= i < fields@.len() ==> group_outcome(gv[i], Ok(#[trigger] fields@[i])),
        ensures
            failure matches Some(e) ==> groups_outcome(gv, Err(e)),
            failure is None ==> fields@.len() == g0.len(),
        decreases rest.len(),
    {
        let ghost k = fields@.len() as int;
        let g = rest.remove(0);
        assert(g == g0[k]);
        assert(gv[k] == group_view(g));
        let size: usize = match &g {
            LayoutField::Direct { .. } => 1,
            LayoutField::Bit { sub_fields, .. } => sub_fields.len(),
        };
        proof {
            lemma_fields_before_grows(gv, k + 1, g0.len() as int);
        }
        match g.into_field() {
            Ok(f) => {
                fields.push(f);
                offset = offset + size;
                assert(rest@ =~= g0.skip(fields@.len() as int));
            },
            Err(e) => {
                proof {
                    lemma_group_error_index(gv[k], e);
                    assert forall|i: int| 0 <= i < k implies #[trigger] group_succeeds(gv[i]) by {
                        assert(group_outcome(gv[i], Ok(fields@[i])));
                    }
                    assert(group_outcome(gv[k], Err(e)));
                }
                let LayoutError { message, position } = e;
                let ghost e0 = LayoutError { message, position };
                let position = match position {
                    ErrorPosition::Item(i) => ErrorPosition::Item(i + offset),
                    ErrorPosition::BitField => ErrorPosition::BitField,
                };
                let shifted = LayoutError { message, position };
                assert(shifted == shifted_error(e0, fields_before(gv, k)));
                failure = Some(shifted);
                break;
            },
        }
    }
    match failure {
        Some(e) => Err(e),
        None => Ok(fields),
    }
}


proof fn lemma_fields_before_same(gs: Seq<GroupView>, hs: Seq<GroupView>, k: int)
    requires
        0 <= k <= gs.len(),
        k <= hs.len(),
        forall|i: int| 0 <= i < k ==> gs[i] == hs[i],
    ensures
        fields_before(gs, k) == fields_before(hs, k),
    decreases k,
{
    if k > 0 {
        lemma_fields_before_same(gs, hs, k - 1);
    }
}

/// The groups of `n` fields hold those `n` fields.
pub proof fn lemma_grouping_holds_every_field(fields: Seq<parse::Field>, n: int)
    requires
        0 <= n <= fields.len(),
        grouping(fields, n) is Ok,
    ensures
        fields_before(grouping(fields, n)->Ok_0.0, grouping(fields, n)->Ok_0.0.len() as int) == n,
    decreases n,
{
    if n > 0 {
        lemma_grouping_holds_every_field(fields, n - 1);
        let gs = grouping(fields, n - 1)->Ok_0.0;
        let hs = grouping(fields, n)->Ok_0.0;
        if hs.len() == gs.len() + 1 {
            lemma_fields_before_same(gs, hs, gs.len() as int);
        } else {
            assert(hs.len() == gs.len());
            lemma_fields_before_same(gs, hs, gs.len() - 1);
        }
    }
}

} // verus!
