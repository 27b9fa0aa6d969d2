//! The notation of a type.
//!
//! A type is written as `any`, or as its shapes with ` | ` between them. A
//! shape that contains other types is written with their notations inside
//! it, one level further down. The levels are counted, and at the ceiling a
//! type is written as `?`, whatever it is: that is what ends the notation of
//! a type that contains itself.

use vstd::pervasive::unreached;
use vstd::prelude::*;
use vstd::string::StringExecFns;
use crate::error::DocError;
use crate::text::{join, join_strings, texts};
use crate::types::{
    EntryView, ShapeView, TypeEntry, TypePool, TypeShape, indices_view, named_view, shape_closed,
    shape_refs, shapes_closed, shapes_view,
};

verus! {

/// Nested types are written out down to this depth; a type met at this depth
/// is written as `?`.
pub const MAX_RECURSION: usize = 10;

/// What closes the list of an object's members, before the brace: it tells
/// an object that may have more members from one that may not.
pub open spec fn object_tail(empty: bool, fixed: bool) -> Seq<char> {
    if fixed {
        if empty {
            ""@
        } else {
            " "@
        }
    } else {
        if empty {
            "... "@
        } else {
            ", ... "@
        }
    }
}

/// The notation of the type at `index`, met `depth` levels down. At the
/// ceiling it is `?`, whatever the type is, so a type that contains itself
/// has a finite notation. A type that the pool lacks has none: no pool
/// refers to one, and `format_type` refuses one that it is asked for.
pub open spec fn format_at(pool: Seq<EntryView>, index: nat, depth: nat) -> Seq<char>
    decreases MAX_RECURSION - depth, 2int,
{
    if depth >= MAX_RECURSION {
        "?"@
    } else if index >= pool.len() {
        Seq::empty()
    } else {
        match pool[index as int] {
            EntryView::Any => "any"@,
            EntryView::Alternatives(shapes) => join(shape_texts(pool, shapes, depth), " | "@),
        }
    }
}

/// The notations of the shapes of a union, in order.
pub open spec fn shape_texts(pool: Seq<EntryView>, shapes: Seq<ShapeView>, depth: nat) -> Seq<
    Seq<char>,
>
    decreases MAX_RECURSION - depth, 1int,
{
    Seq::new(shapes.len(), |a: int| shape_text(pool, shapes[a], depth))
}

/// The notation of one shape, met `depth` levels down, below the ceiling.
/// What the shape contains is one level further down.
pub open spec fn shape_text(pool: Seq<EntryView>, shape: ShapeView, depth: nat) -> Seq<char>
    decreases MAX_RECURSION - depth, 0int,
{
    if depth >= MAX_RECURSION {
        Seq::empty()
    } else {
        match shape {
            ShapeView::Primitive(name) => name,
            ShapeView::Array(element) => format_at(pool, element, depth + 1) + "[]"@,
            ShapeView::Object { members, fixed } => "{ "@ + join(
                member_texts(pool, members, depth + 1),
                ", "@,
            ) + object_tail(members.len() == 0, fixed) + "}"@,
            ShapeView::Variants(cases) => "variant("@ + join(
                case_texts(pool, cases, depth + 1),
                ", "@,
            ) + ")"@,
            ShapeView::Closure { parameters, result } => "(|"@ + join(
                type_texts(pool, parameters, depth + 1),
                ", "@,
            ) + "| -> "@ + format_at(pool, result, depth + 1) + ")"@,
        }
    }
}

/// The members of an object, each as `name: type`.
pub open spec fn member_texts(
    pool: Seq<EntryView>,
    members: Seq<(Seq<char>, nat)>,
    depth: nat,
) -> Seq<Seq<char>>
    decreases MAX_RECURSION - depth, 3int,
{
    Seq::new(members.len(), |k: int| members[k].0 + ": "@ + format_at(pool, members[k].1, depth))
}

/// The cases of a tagged union, each as `tag(type)`.
pub open spec fn case_texts(
    pool: Seq<EntryView>,
    cases: Seq<(Seq<char>, nat)>,
    depth: nat,
) -> Seq<Seq<char>>
    decreases MAX_RECURSION - depth, 3int,
{
    Seq::new(
        cases.len(),
        |k: int| cases[k].0 + "("@ + format_at(pool, cases[k].1, depth) + ")"@,
    )
}

/// The notations of some types, in order.
pub open spec fn type_texts(pool: Seq<EntryView>, indices: Seq<nat>, depth: nat) -> Seq<
    Seq<char>,
>
    decreases MAX_RECURSION - depth, 3int,
{
    Seq::new(indices.len(), |k: int| format_at(pool, indices[k], depth))
}

fn object_tail_str(empty: bool, fixed: bool) -> (tail: &'static str)
    ensures
        tail@ == object_tail(empty, fixed),
{
    match (empty, fixed) {
        (true, true) => "",
        (false, true) => " ",
        (true, false) => "... ",
        (false, false) => ", ... ",
    }
}

/// The notation of the entry at `index`.
fn format_entry(index: usize, types: &TypePool, depth: usize) -> (text: String)
    requires
        index < types@.len(),
    ensures
        text@ == format_at(types@, index as nat, depth as nat),
    decreases MAX_RECURSION - depth, 2int,
{
    if depth >= MAX_RECURSION {
        return String::from_str("?");
    }
    match types.get(index) {
        None => unreached(),
        Some(TypeEntry::Any) => String::from_str("any"),
        Some(TypeEntry::Alternatives(shapes)) => {
            let ghost views = shapes_view(shapes@);
            let mut parts: Vec<String> = Vec::new();
            let mut a: usize = 0;
            while a < shapes.len()
                invariant
                    a <= shapes.len(),
                    depth < MAX_RECURSION,
                    views == shapes_view(shapes@),
                    shapes_closed(views, types@.len()),
                    parts@.len() == a,
                    forall|b: int|
                        0 <= b < a ==> (#[trigger] parts@[b])@ == shape_text(
                            types@,
                            views[b],
                            depth as nat,
                        ),
                decreases shapes.len() - a,
            {
                assert(views[a as int] == shapes@[a as int]@);
                let part = format_shape(&shapes[a], types, depth);
                parts.push(part);
                a += 1;
            }
            proof {
                assert(texts(parts@) =~= shape_texts(types@, views, depth as nat));
            }
            join_strings(&parts, " | ")
        },
    }
}

/// The notation of `shape`, whose references are all to entries of `types`.
fn format_shape(shape: &TypeShape, types: &TypePool, depth: usize) -> (text: String)
    requires
        depth < MAX_RECURSION,
        shape_closed(shape@, types@.len()),
    ensures
        text@ == shape_text(types@, shape@, depth as nat),
    decreases MAX_RECURSION - depth, 1int,
{
    match shape {
        TypeShape::Primitive(name) => name.clone(),
        TypeShape::Array(element) => {
            assert(shape_refs(shape@)[0] == *element);
            let mut text = format_entry(*element, types, depth + 1);
            text.append("[]");
            text
        },
        TypeShape::Object { members, fixed } => {
            let ghost views = named_view(members@);
            proof {
                assert forall|m: int| 0 <= m < views.len() implies (#[trigger] views[m]).1
                    < types@.len() by {
                    assert(shape_refs(shape@)[m] == views[m].1);
                }
            }
            let mut fields: Vec<String> = Vec::new();
            let mut k: usize = 0;
            while k < members.len()
                invariant
                    k <= members.len(),
                    depth < MAX_RECURSION,
                    views == named_view(members@),
                    forall|m: int| 0 <= m < views.len() ==> (#[trigger] views[m]).1 < types@.len(),
                    fields@.len() == k,
                    forall|m: int|
                        0 <= m < k ==> (#[trigger] fields@[m])@ == views[m].0 + ": "@ + format_at(
                            types@,
                            views[m].1,
                            (depth + 1) as nat,
                        ),
                decreases members.len() - k,
            {
                assert(views[k as int].1 == members@[k as int].1);
                let mut field = members[k].0.clone();
                field.append(": ");
                let inner = format_entry(members[k].1, types, depth + 1);
                field.append(inner.as_str());
                fields.push(field);
                k += 1;
            }
            proof {
                assert(texts(fields@) =~= member_texts(types@, views, (depth + 1) as nat));
            }
            let mut text = String::from_str("{ ");
            text.append(join_strings(&fields, ", ").as_str());
            text.append(object_tail_str(fields.len() == 0, *fixed));
            text.append("}");
            text
        },
        TypeShape::Variants(cases) => {
            let ghost views = named_view(cases@);
            proof {
                assert forall|m: int| 0 <= m < views.len() implies (#[trigger] views[m]).1
                    < types@.len() by {
                    assert(shape_refs(shape@)[m] == views[m].1);
                }
            }
            let mut listed: Vec<String> = Vec::new();
            let mut k: usize = 0;
            while k < cases.len()
                invariant
                    k <= cases.len(),
                    depth < MAX_RECURSION,
                    views == named_view(cases@),
                    forall|m: int| 0 <= m < views.len() ==> (#[trigger] views[m]).1 < types@.len(),
                    listed@.len() == k,
                    forall|m: int|
                        0 <= m < k ==> (#[trigger] listed@[m])@ == views[m].0 + "("@ + format_at(
                            types@,
                            views[m].1,
                            (depth + 1) as nat,
                        ) + ")"@,
                decreases cases.len() - k,
            {
                assert(views[k as int].1 == cases@[k as int].1);
                let mut case = cases[k].0.clone();
                case.append("(");
                let inner = format_entry(cases[k].1, types, depth + 1);
                case.append(inner.as_str());
                case.append(")");
                listed.push(case);
                k += 1;
            }
            proof {
                assert(texts(listed@) =~= case_texts(types@, views, (depth + 1) as nat));
            }
            let mut text = String::from_str("variant(");
            text.append(join_strings(&listed, ", ").as_str());
            text.append(")");
            text
        },
        TypeShape::Closure { parameters, result } => {
            let ghost views = indices_view(parameters@);
            proof {
                assert forall|m: int| 0 <= m < views.len() implies #[trigger] views[m]
                    < types@.len() by {
                    assert(shape_refs(shape@)[m] == views[m]);
                }
                assert(shape_refs(shape@)[views.len() as int] == *result);
            }
            let mut listed: Vec<String> = Vec::new();
            let mut k: usize = 0;
            while k < parameters.len()
                invariant
                    k <= parameters.len(),
                    depth < MAX_RECURSION,
                    views == indices_view(parameters@),
                    forall|m: int| 0 <= m < views.len() ==> #[trigger] views[m] < types@.len(),
                    listed@.len() == k,
                    forall|m: int|
                        0 <= m < k ==> (#[trigger] listed@[m])@ == format_at(
                            types@,
                            views[m],
                            (depth + 1) as nat,
                        ),
                decreases parameters.len() - k,
            {
                assert(views[k as int] == parameters@[k as int]);
                let inner = format_entry(parameters[k], types, depth + 1);
                listed.push(inner);
                k += 1;
            }
            proof {
                assert(texts(listed@) =~= type_texts(types@, views, (depth + 1) as nat));
            }
            let mut text = String::from_str("(|");
            text.append(join_strings(&listed, ", ").as_str());
            text.append("| -> ");
            let inner = format_entry(*result, types, depth + 1);
            text.append(inner.as_str());
            text.append(")");
            text
        },
    }
}

/// The notation of type `typ_` of the pool, met `iter` levels down: `any`,
/// or the shapes of the type with ` | ` between them. At the ceiling the
/// notation is `?` and the pool is not looked at. Below it, a type that the
/// pool does not have is an error.
pub fn format_type(typ_: usize, types: &TypePool, iter: usize) -> (formatted: Result<
    String,
    DocError,
>)
    ensures
        match formatted {
            Ok(text) => {
                &&& iter >= MAX_RECURSION || typ_ < types@.len()
                &&& text@ == format_at(types@, typ_ as nat, iter as nat)
            },
            Err(error) => {
                &&& iter < MAX_RECURSION
                &&& typ_ >= types@.len()
                &&& error == (DocError::UnknownType { index: typ_ })
            },
        },
{
    if iter >= MAX_RECURSION {
        Ok(String::from_str("?"))
    } else if typ_ < types.len() {
        Ok(format_entry(typ_, types, iter))
    } else {
        Err(DocError::UnknownType { index: typ_ })
    }
}

} // verus!
