//! The rules on the parameters of `sorbit` attributes: which names a field
//! or a struct accepts, which names make a field a member of a bit field,
//! which a bit field member cannot go without, and that no name is given
//! twice. Parameters are seen here by their names, in the order in which
//! they are written across all of an item's `sorbit` attributes.
use vstd::prelude::*;

use crate::text::{append_str, chars_to_string, str_equal};

verus! {

//------------------------------------------------------------------------------
// The names.
//------------------------------------------------------------------------------

/// The names of the parameters that lay a field out.
pub open spec fn layout_parameter_names() -> Seq<Seq<char>> {
    seq!["byte_order"@, "offset"@, "align"@, "round"@]
}

/// The names of the parameters that describe the storage of a bit field.
pub open spec fn storage_parameter_names() -> Seq<Seq<char>> {
    seq!["repr"@, "bit_numbering"@]
}

/// The names of the parameters that make a field a member of a bit field:
/// its bits, and the bit field it belongs to.
pub open spec fn bit_member_parameter_names() -> Seq<Seq<char>> {
    seq!["bits"@, "bit_field"@]
}

/// The names of the parameters that a struct accepts.
pub open spec fn struct_parameter_names() -> Seq<Seq<char>> {
    seq!["byte_order"@, "len"@, "round"@]
}

/// The names that a field of the given kind accepts.
pub open spec fn accepted_names(kind: FieldKind) -> Seq<Seq<char>> {
    match kind {
        FieldKind::Direct => layout_parameter_names(),
        FieldKind::Bit => bit_member_parameter_names() + storage_parameter_names() + layout_parameter_names(),
    }
}

/// The names of the given parameters.
pub open spec fn names(keys: Seq<String>) -> Seq<Seq<char>> {
    keys.map_values(|k: String| k@)
}

/// Builds the names as strings.
fn names_to_strings(literals: &Vec<&'static str>) -> (r: Vec<String>)
    ensures
        names(r@) == literals@.map_values(|l: &'static str| l@),
{
    let mut r: Vec<String> = Vec::new();
    let mut i: usize = 0;
    while i < literals.len()
        invariant
            i <= literals.len(),
            names(r@) == literals@.take(i as int).map_values(|l: &'static str| l@),
        decreases literals.len() - i,
    {
        let mut cs: Vec<char> = Vec::new();
        append_str(&mut cs, literals[i]);
        let ghost before = r@;
        r.push(chars_to_string(&cs));
        proof {
            assert(names(r@) =~= names(before).push(literals@[i as int]@));
        }
        i = i + 1;
        assert(names(r@) =~= literals@.take(i as int).map_values(|l: &'static str| l@));
    }
    assert(literals@.take(i as int) =~= literals@);
    r
}

impl crate::structure::parse::FieldLayoutProperties {
    /// The names of the parameters that lay a field out: `byte_order`,
    /// `offset`, `align` and `round`.
    pub fn accepted_parameters() -> (r: Vec<String>)
        ensures
            names(r@) == layout_parameter_names(),
    {
        let literals: Vec<&'static str> = vec!["byte_order", "offset", "align", "round"];
        let r = names_to_strings(&literals);
        proof {
            reveal_strlit("byte_order");
            reveal_strlit("offset");
            reveal_strlit("align");
            reveal_strlit("round");
            assert(literals@.map_values(|l: &'static str| l@) =~= layout_parameter_names());
        }
        r
    }
}

impl crate::structure::parse::BitFieldStorageProperties {
    /// The names of the parameters that describe the storage of a bit
    /// field: `repr` (the type it is stored as) and `bit_numbering`.
    pub fn accepted_parameters() -> (r: Vec<String>)
        ensures
            names(r@) == storage_parameter_names(),
    {
        let literals: Vec<&'static str> = vec!["repr", "bit_numbering"];
        let r = names_to_strings(&literals);
        proof {
            reveal_strlit("repr");
            reveal_strlit("bit_numbering");
            assert(literals@.map_values(|l: &'static str| l@) =~= storage_parameter_names());
        }
        r
    }
}

/// The names that a field of the given kind accepts: the layout
/// parameters, and for a bit field member also its bits, its bit field and
/// the storage parameters.
pub fn field_parameters(kind: FieldKind) -> (r: Vec<String>)
    ensures
        names(r@) == accepted_names(kind),
{
    let layout = crate::structure::parse::FieldLayoutProperties::accepted_parameters();
    match kind {
        FieldKind::Direct => layout,
        FieldKind::Bit => {
            let literals: Vec<&'static str> = vec!["bits", "bit_field"];
            let mut r = names_to_strings(&literals);
            proof {
                reveal_strlit("bits");
                reveal_strlit("bit_field");
                assert(literals@.map_values(|l: &'static str| l@) =~= bit_member_parameter_names());
            }
            let mut storage = crate::structure::parse::BitFieldStorageProperties::accepted_parameters();
            let mut layout = layout;
            let ghost r0 = r@;
            let ghost s0 = storage@;
            let ghost l0 = layout@;
            r.append(&mut storage);
            r.append(&mut layout);
            proof {
                assert(r@ =~= r0 + s0 + l0);
                assert(names(r@) =~= names(r0) + names(s0) + names(l0));
            }
            r
        },
    }
}

/// The names that a struct accepts: `byte_order`, `len` and `round`.
pub fn struct_parameters() -> (r: Vec<String>)
    ensures
        names(r@) == struct_parameter_names(),
{
    let literals: Vec<&'static str> = vec!["byte_order", "len", "round"];
    let r = names_to_strings(&literals);
    proof {
        reveal_strlit("byte_order");
        reveal_strlit("len");
        reveal_strlit("round");
        assert(literals@.map_values(|l: &'static str| l@) =~= struct_parameter_names());
    }
    r
}

//------------------------------------------------------------------------------
// The rules.
//------------------------------------------------------------------------------

/// Whether a field is laid out on its own or is a member of a bit field.
#[derive(Clone, Copy, PartialEq, Eq, Structural, Debug)]
pub enum FieldKind {
    Direct,
    Bit,
}

/// Why the parameters of an item are refused; positions count the
/// parameters in the order in which they are written.
#[derive(Clone, Copy, PartialEq, Eq, Structural, Debug)]
pub enum ParameterError {
    /// The parameter at this position repeats an earlier name.
    Redefined(usize),
    /// The parameter at this position is not accepted by the item.
    NotAccepted(usize),
    /// A bit field member without its bits.
    MissingBitRange,
    /// A bit field member without the bit field it belongs to.
    MissingStorageId,
}

/// `name` is one of `accepted`.
pub open spec fn is_accepted(name: Seq<char>, accepted: Seq<Seq<char>>) -> bool {
    exists|i: int| 0 <= i < accepted.len() && accepted[i] == name
}

/// `name` is given among `keys`.
pub open spec fn is_given(keys: Seq<String>, name: Seq<char>) -> bool {
    exists|i: int| 0 <= i < keys.len() && keys[i]@ == name
}

/// The parameter at position `j` repeats the name of an earlier one.
pub open spec fn repeats_earlier(keys: Seq<String>, j: int) -> bool {
    exists|i: int| 0 <= i < j && keys[i]@ == keys[j]@
}

/// A field is a member of a bit field when it is given its bits or its bit
/// field.
pub open spec fn field_kind_of(keys: Seq<String>) -> FieldKind {
    if is_given(keys, "bits"@) || is_given(keys, "bit_field"@) {
        FieldKind::Bit
    } else {
        FieldKind::Direct
    }
}

/// `name` is one of `accepted`.
fn accepts(accepted: &Vec<String>, name: &str) -> (r: bool)
    ensures
        r == is_accepted(name@, names(accepted@)),
{
    let mut i: usize = 0;
    while i < accepted.len()
        invariant
            i <= accepted.len(),
            forall|j: int| 0 <= j < i ==> accepted@[j]@ != name@,
        decreases accepted.len() - i,
    {
        if str_equal(accepted[i].as_str(), name) {
            assert(names(accepted@)[i as int] == name@);
            return true;
        }
        i = i + 1;
    }
    proof {
        if is_accepted(name@, names(accepted@)) {
            let w = choose|w: int| 0 <= w < names(accepted@).len() && names(accepted@)[w] == name@;
            assert(accepted@[w]@ == name@);
        }
    }
    false
}

/// The position of the first parameter that `accepted` does not hold, if
/// any.
pub fn check_invalid_parameters(keys: &Vec<String>, accepted: &Vec<String>) -> (r: Option<usize>)
    ensures
        r is None <==> forall|i: int| 0 <= i < keys.len() ==> is_accepted(#[trigger] keys@[i]@, names(accepted@)),
        r matches Some(j) ==> {
            &&& j < keys.len()
            &&& !is_accepted(keys@[j as int]@, names(accepted@))
            &&& forall|i: int| 0 <= i < j ==> is_accepted(#[trigger] keys@[i]@, names(accepted@))
        },
{
    let mut i: usize = 0;
    while i < keys.len()
        invariant
            i <= keys.len(),
            forall|k: int| 0 <= k < i ==> is_accepted(#[trigger] keys@[k]@, names(accepted@)),
        decreases keys.len() - i,
    {
        if !accepts(accepted, keys[i].as_str()) {
            return Some(i);
        }
        i = i + 1;
    }
    None
}

/// The position of the first parameter that repeats an earlier name, if
/// any.
pub fn find_redefinition(keys: &Vec<String>) -> (r: Option<usize>)
    ensures
        r is None <==> forall|j: int| 0 <= j < keys.len() ==> !repeats_earlier(keys@, j),
        r matches Some(j) ==> {
            &&& j < keys.len()
            &&& repeats_earlier(keys@, j as int)
            &&& forall|k: int| 0 <= k < j ==> !repeats_earlier(keys@, k)
        },
{
    let mut j: usize = 0;
    while j < keys.len()
        invariant
            j <= keys.len(),
            forall|k: int| 0 <= k < j ==> !repeats_earlier(keys@, k),
        decreases keys.len() - j,
    {
        let mut i: usize = 0;
        while i < j
            invariant
                i <= j < keys.len(),
                forall|k: int| 0 <= k < j ==> !repeats_earlier(keys@, k),
                forall|k: int| 0 <= k < i ==> keys@[k]@ != keys@[j as int]@,
            decreases j - i,
        {
            if str_equal(keys[i].as_str(), keys[j].as_str()) {
                assert(keys@[i as int]@ == keys@[j as int]@);
                assert(repeats_earlier(keys@, j as int));
                return Some(j);
            }
            i = i + 1;
        }
        assert(!repeats_earlier(keys@, j as int));
        j = j + 1;
    }
    None
}

/// Whether `name` is among `keys`.
fn is_given_exec(keys: &Vec<String>, name: &str) -> (r: bool)
    ensures
        r == is_given(keys@, name@),
{
    let mut i: usize = 0;
    while i < keys.len()
        invariant
            i <= keys.len(),
            forall|k: int| 0 <= k < i ==> keys@[k]@ != name@,
        decreases keys.len() - i,
    {
        if str_equal(keys[i].as_str(), name) {
            return true;
        }
        i = i + 1;
    }
    false
}

/// Whether the field given these parameters is a member of a bit field.
pub fn field_kind(keys: &Vec<String>) -> (r: FieldKind)
    ensures
        r == field_kind_of(keys@),
{
    proof {
        reveal_strlit("bits");
        reveal_strlit("bit_field");
    }
    if is_given_exec(keys, "bits") || is_given_exec(keys, "bit_field") {
        FieldKind::Bit
    } else {
        FieldKind::Direct
    }
}

/// No parameter repeats the name of an earlier one.
pub open spec fn no_repeat(keys: Seq<String>) -> bool {
    forall|j: int| 0 <= j < keys.len() ==> !repeats_earlier(keys, j)
}

/// The parameter at position `j` is the first to repeat an earlier name.
pub open spec fn first_repeat_at(keys: Seq<String>, j: int) -> bool {
    &&& 0 <= j < keys.len()
    &&& repeats_earlier(keys, j)
    &&& forall|k: int| 0 <= k < j ==> !repeats_earlier(keys, k)
}

/// Every parameter is one of `accepted`.
pub open spec fn all_accepted(keys: Seq<String>, accepted: Seq<Seq<char>>) -> bool {
    forall|i: int| 0 <= i < keys.len() ==> is_accepted(#[trigger] keys[i]@, accepted)
}

/// The parameter at position `j` is the first that `accepted` does not
/// hold.
pub open spec fn first_refused_at(keys: Seq<String>, accepted: Seq<Seq<char>>, j: int) -> bool {
    &&& 0 <= j < keys.len()
    &&& !is_accepted(keys[j]@, accepted)
    &&& forall|k: int| 0 <= k < j ==> is_accepted(#[trigger] keys[k]@, accepted)
}

/// Checks the parameters of a field: refused at the first repeated name;
/// else at the first name that a field of its kind does not accept; else a
/// bit field member is refused without its bits, and then without its bit
/// field; otherwise the field's kind is given back.
pub fn check_field_parameters(keys: &Vec<String>) -> (r: Result<FieldKind, ParameterError>)
    ensures
        match r {
            Err(ParameterError::Redefined(j)) => first_repeat_at(keys@, j as int),
            Err(ParameterError::NotAccepted(j)) => {
                &&& no_repeat(keys@)
                &&& first_refused_at(keys@, accepted_names(field_kind_of(keys@)), j as int)
            },
            Err(ParameterError::MissingBitRange) => {
                &&& no_repeat(keys@)
                &&& all_accepted(keys@, accepted_names(field_kind_of(keys@)))
                &&& field_kind_of(keys@) == FieldKind::Bit
                &&& !is_given(keys@, "bits"@)
            },
            Err(ParameterError::MissingStorageId) => {
                &&& no_repeat(keys@)
                &&& all_accepted(keys@, accepted_names(field_kind_of(keys@)))
                &&& field_kind_of(keys@) == FieldKind::Bit
                &&& is_given(keys@, "bits"@)
                &&& !is_given(keys@, "bit_field"@)
            },
            Ok(kind) => {
                &&& no_repeat(keys@)
                &&& all_accepted(keys@, accepted_names(kind))
                &&& kind == field_kind_of(keys@)
                &&& kind == FieldKind::Bit ==> is_given(keys@, "bits"@) && is_given(keys@, "bit_field"@)
            },
        },
{
    if let Some(j) = find_redefinition(keys) {
        return Err(ParameterError::Redefined(j));
    }
    let kind = field_kind(keys);
    let accepted = field_parameters(kind);
    if let Some(j) = check_invalid_parameters(keys, &accepted) {
        return Err(ParameterError::NotAccepted(j));
    }
    proof {
        reveal_strlit("bits");
        reveal_strlit("bit_field");
    }
    match kind {
        FieldKind::Direct => Ok(kind),
        FieldKind::Bit => {
            if !is_given_exec(keys, "bits") {
                Err(ParameterError::MissingBitRange)
            } else if !is_given_exec(keys, "bit_field") {
                Err(ParameterError::MissingStorageId)
            } else {
                Ok(kind)
            }
        },
    }
}

/// Checks the parameters of a struct: refused at the first repeated name,
/// else at the first name other than `len` and `round`.
pub fn check_struct_parameters(keys: &Vec<String>) -> (r: Result<(), ParameterError>)
    ensures
        match r {
            Err(ParameterError::Redefined(j)) => first_repeat_at(keys@, j as int),
            Err(ParameterError::NotAccepted(j)) => {
                &&& no_repeat(keys@)
                &&& first_refused_at(keys@, struct_parameter_names(), j as int)
            },
            Err(_) => false,
            Ok(()) => no_repeat(keys@) && all_accepted(keys@, struct_parameter_names()),
        },
{
    if let Some(j) = find_redefinition(keys) {
        return Err(ParameterError::Redefined(j));
    }
    let accepted = struct_parameters();
    if let Some(j) = check_invalid_parameters(keys, &accepted) {
        return Err(ParameterError::NotAccepted(j));
    }
    Ok(())
}

/// The message of a refusal of a field's parameters.
pub open spec fn field_error_text(e: ParameterError, keys: Seq<String>) -> Seq<char> {
    match e {
        ParameterError::Redefined(j) => "the parameter `"@ + keys[j as int]@ + "` has already been defined"@,
        ParameterError::NotAccepted(_) => "parameter is not accepted here"@,
        ParameterError::MissingBitRange =>
            "this bit field is missing the bit range, add `bits=<S>..<E>` or `bits=<B>` to the attribute"@,
        ParameterError::MissingStorageId =>
            "this bit field is missing the storage identifier, add `bit_field=<IDENTIFIER>` to the attribute"@,
    }
}

/// The message of a refusal of a struct's parameters.
pub open spec fn struct_error_text(e: ParameterError, keys: Seq<String>) -> Seq<char> {
    match e {
        ParameterError::NotAccepted(_) => "invalid parameter"@,
        _ => field_error_text(e, keys),
    }
}

/// The message of a refusal of a field's parameters (the struct's, when
/// `of_struct`).
pub fn error_message(e: ParameterError, keys: &Vec<String>, of_struct: bool) -> (r: String)
    requires
        e matches ParameterError::Redefined(j) ==> j < keys.len(),
    ensures
        r@ == if of_struct { struct_error_text(e, keys@) } else { field_error_text(e, keys@) },
{
    let mut cs: Vec<char> = Vec::new();
    match e {
        ParameterError::Redefined(j) => {
            append_str(&mut cs, "the parameter `");
            append_str(&mut cs, keys[j].as_str());
            append_str(&mut cs, "` has already been defined");
        },
        ParameterError::NotAccepted(_) => {
            if of_struct {
                append_str(&mut cs, "invalid parameter");
            } else {
                append_str(&mut cs, "parameter is not accepted here");
            }
        },
        ParameterError::MissingBitRange => {
            append_str(
                &mut cs,
                "this bit field is missing the bit range, add `bits=<S>..<E>` or `bits=<B>` to the attribute",
            );
        },
        ParameterError::MissingStorageId => {
            append_str(
                &mut cs,
                "this bit field is missing the storage identifier, add `bit_field=<IDENTIFIER>` to the attribute",
            );
        },
    }
    chars_to_string(&cs)
}

} // verus!
