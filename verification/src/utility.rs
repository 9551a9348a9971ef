//! Small rules on Rust syntax that the lowering relies on: when a type is a
//! `PhantomData`, and how a struct is taken apart by a pattern. Syntax is
//! seen through plain values: a type by the shape of its path, a pattern by
//! its text.
use vstd::prelude::*;

use crate::attribute::{member_ident, member_text, Member};
use crate::text::{append_chars, append_str, chars_to_string, joined, str_chars, str_equal};

verus! {

/// A generic argument of a path segment: a type (its text), or anything
/// else (a lifetime, a constant, a binding).
pub enum GenericArgumentShape {
    Type(String),
    Other,
}

/// A type as far as these rules look at it: a path (whether it starts with
/// `::`, the names of its segments, and the arguments in angle brackets of
/// its last segment, if it has them), or any other type.
pub enum TypeShape {
    Path {
        leading_colon: bool,
        segments: Vec<String>,
        last_arguments: Option<Vec<GenericArgumentShape>>,
    },
    Other,
}

/// The names of path segments.
pub open spec fn segment_names(segments: Seq<String>) -> Seq<Seq<char>> {
    segments.map_values(|s: String| s@)
}

/// A path names `PhantomData`: its last segment is `PhantomData`, the one
/// before it (if any) is `marker`, and the one before that (if any) is
/// `std` or `core`; a path that stops short of either may not start with
/// `::`.
pub open spec fn is_phantom_path(leading_colon: bool, names: Seq<Seq<char>>) -> bool {
    let n = names.len();
    &&& n >= 1
    &&& names[n - 1] == "PhantomData"@
    &&& if n >= 2 {
        names[n - 2] == "marker"@
    } else {
        !leading_colon
    }
    &&& if n >= 3 {
        names[n - 3] == "std"@ || names[n - 3] == "core"@
    } else {
        !leading_colon
    }
}

/// The type is a `PhantomData`.
pub open spec fn is_phantom_type(t: TypeShape) -> bool {
    match t {
        TypeShape::Path { leading_colon, segments, .. } => is_phantom_path(leading_colon, segment_names(segments@)),
        TypeShape::Other => false,
    }
}

/// The type that a `PhantomData` holds: its one generic argument, when that
/// is a type; `None` stands for the type itself.
pub open spec fn phantom_underlying(t: TypeShape) -> Option<Seq<char>> {
    match t {
        TypeShape::Path { leading_colon, segments, last_arguments } => {
            if is_phantom_path(leading_colon, segment_names(segments@)) {
                match last_arguments {
                    Some(args) => if args@.len() == 1 {
                        match args@[0] {
                            GenericArgumentShape::Type(ty) => Some(ty@),
                            GenericArgumentShape::Other => None,
                        }
                    } else {
                        None
                    },
                    None => None,
                }
            } else {
                None
            }
        },
        TypeShape::Other => None,
    }
}

fn phantom_path(leading_colon: bool, segments: &Vec<String>) -> (r: bool)
    ensures
        r == is_phantom_path(leading_colon, segment_names(segments@)),
{
    proof {
        reveal_strlit("PhantomData");
        reveal_strlit("marker");
        reveal_strlit("std");
        reveal_strlit("core");
    }
    let n = segments.len();
    if n == 0 || !str_equal(segments[n - 1].as_str(), "PhantomData") {
        return false;
    }
    let second = if n >= 2 {
        str_equal(segments[n - 2].as_str(), "marker")
    } else {
        !leading_colon
    };
    let third = if n >= 3 {
        str_equal(segments[n - 3].as_str(), "std") || str_equal(segments[n - 3].as_str(), "core")
    } else {
        !leading_colon
    };
    second && third
}

impl TypeShape {
    /// Whether the type is a `PhantomData` (`PhantomData`,
    /// `marker::PhantomData`, or either under `std` or `core`).
    pub fn is_phantom(&self) -> (r: bool)
        ensures
            r == is_phantom_type(*self),
    {
        match self {
            TypeShape::Path { leading_colon, segments, .. } => phantom_path(*leading_colon, segments),
            TypeShape::Other => false,
        }
    }

    /// The type that a `PhantomData` holds, when it names one type; `None`
    /// when the type stands for itself.
    pub fn phantom_underlying_type(&self) -> (r: Option<String>)
        ensures
            match r {
                Some(ty) => phantom_underlying(*self) == Some(ty@),
                None => phantom_underlying(*self) is None,
            },
    {
        match self {
            TypeShape::Path { leading_colon, segments, last_arguments } => {
                if !phantom_path(*leading_colon, segments) {
                    return None;
                }
                match last_arguments {
                    Some(args) => {
                        if args.len() == 1 {
                            match &args[0] {
                                GenericArgumentShape::Type(ty) => Some(ty.clone()),
                                GenericArgumentShape::Other => None,
                            }
                        } else {
                            None
                        }
                    },
                    None => None,
                }
            },
            TypeShape::Other => None,
        }
    }
}

//------------------------------------------------------------------------------
// Patterns that take a struct apart.
//------------------------------------------------------------------------------

/// How a pattern names a member: a named field by its name; a tuple field
/// by its index, bound to the variable of that index.
pub open spec fn member_pattern(m: Member) -> Seq<char> {
    match m {
        Member::Named(name) => name@,
        Member::Unnamed(_) => member_text(m) + ": "@ + member_ident(m),
    }
}

/// How a pattern binds a member to `ident`: a named field of the same name
/// by its name alone; any other member as `member: ident`.
pub open spec fn binding_pattern(m: Member, ident: Seq<char>) -> Seq<char> {
    match m {
        Member::Named(name) => if name@ == ident {
            ident
        } else {
            name@ + ": "@ + ident
        },
        Member::Unnamed(_) => member_text(m) + ": "@ + ident,
    }
}

/// A pattern `ty{ part, part }` that takes a struct apart.
pub open spec fn struct_pattern(ty: Seq<char>, parts: Seq<Seq<char>>) -> Seq<char> {
    ty + "{ "@ + joined(parts, ", "@) + " }"@
}

fn join_parts(parts: &Vec<Vec<char>>) -> (r: Vec<char>)
    ensures
        r@ == joined(crate::text::views(parts@), ", "@),
{
    crate::text::join(parts, ", ")
}

/// The pattern that takes a `struct_ty` apart into its members, each bound
/// to the variable of its own name (a tuple field to `m` and its index).
pub fn deconstruct_pattern(struct_ty: &str, members: &Vec<Member>) -> (r: String)
    ensures
        r@ == struct_pattern(struct_ty@, members@.map_values(|m: Member| member_pattern(m))),
{
    let mut parts: Vec<Vec<char>> = Vec::new();
    let mut i: usize = 0;
    while i < members.len()
        invariant
            i <= members.len(),
            crate::text::views(parts@) == members@.take(i as int).map_values(|m: Member| member_pattern(m)),
        decreases members.len() - i,
    {
        let mut part: Vec<char> = Vec::new();
        match &members[i] {
            Member::Named(name) => append_str(&mut part, name.as_str()),
            Member::Unnamed(_) => {
                let shown = members[i].display();
                let ident = members[i].to_ident();
                append_str(&mut part, shown.as_str());
                append_str(&mut part, ": ");
                append_str(&mut part, ident.as_str());
            },
        }
        assert(part@ =~= member_pattern(members@[i as int]));
        let ghost before = parts@;
        parts.push(part);
        assert(crate::text::views(parts@) =~= crate::text::views(before).push(member_pattern(members@[i as int])));
        i = i + 1;
        assert(crate::text::views(parts@) =~= members@.take(i as int).map_values(|m: Member| member_pattern(m)));
    }
    assert(members@.take(i as int) =~= members@);
    let mut r: Vec<char> = str_chars(struct_ty);
    append_str(&mut r, "{ ");
    let joined_parts = join_parts(&parts);
    append_chars(&mut r, &joined_parts);
    append_str(&mut r, " }");
    chars_to_string(&r)
}

/// The pattern that takes a `struct_ty` apart, binding each member to the
/// variable given with it.
pub fn deconstruct_pattern_explicit(struct_ty: &str, members: &Vec<(Member, String)>) -> (r: String)
    ensures
        r@ == struct_pattern(
            struct_ty@,
            members@.map_values(|b: (Member, String)| binding_pattern(b.0, b.1@)),
        ),
{
    let mut parts: Vec<Vec<char>> = Vec::new();
    let mut i: usize = 0;
    while i < members.len()
        invariant
            i <= members.len(),
            crate::text::views(parts@) == members@.take(i as int).map_values(
                |b: (Member, String)| binding_pattern(b.0, b.1@),
            ),
        decreases members.len() - i,
    {
        let (member, ident) = &members[i];
        let mut part: Vec<char> = Vec::new();
        match member {
            Member::Named(name) => {
                if str_equal(name.as_str(), ident.as_str()) {
                    append_str(&mut part, ident.as_str());
                } else {
                    append_str(&mut part, name.as_str());
                    append_str(&mut part, ": ");
                    append_str(&mut part, ident.as_str());
                }
            },
            Member::Unnamed(_) => {
                let shown = member.display();
                append_str(&mut part, shown.as_str());
                append_str(&mut part, ": ");
                append_str(&mut part, ident.as_str());
            },
        }
        assert(part@ =~= binding_pattern(members@[i as int].0, members@[i as int].1@));
        let ghost before = parts@;
        parts.push(part);
        assert(crate::text::views(parts@) =~= crate::text::views(before).push(
            binding_pattern(members@[i as int].0, members@[i as int].1@),
        ));
        i = i + 1;
        assert(crate::text::views(parts@) =~= members@.take(i as int).map_values(
            |b: (Member, String)| binding_pattern(b.0, b.1@),
        ));
    }
    assert(members@.take(i as int) =~= members@);
    let mut r: Vec<char> = str_chars(struct_ty);
    append_str(&mut r, "{ ");
    let joined_parts = join_parts(&parts);
    append_chars(&mut r, &joined_parts);
    append_str(&mut r, " }");
    chars_to_string(&r)
}

} // verus!
