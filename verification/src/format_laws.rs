//! What holds of the notation of types, whatever the pool.

use vstd::prelude::*;
use crate::text::{lemma_join_one, lemma_join_two, repeat};
use crate::format::{
    MAX_RECURSION, case_texts, format_at, member_texts, shape_text, shape_texts, type_texts,
};
use crate::types::{EntryView, ShapeView};

verus! {

/// At the ceiling every type is written `?`: the pool is not looked at, so
/// it does not matter whether the pool has the type, nor what the type
/// contains.
pub proof fn lemma_ceiling(pool: Seq<EntryView>, index: nat, depth: nat)
    requires
        depth >= MAX_RECURSION,
    ensures
        format_at(pool, index, depth) == "?"@,
{
}

/// Below the ceiling, an entry that admits any value is written `any`, at
/// every depth.
pub proof fn lemma_any(pool: Seq<EntryView>, index: nat, depth: nat)
    requires
        index < pool.len(),
        pool[index as int] == EntryView::Any,
        depth < MAX_RECURSION,
    ensures
        format_at(pool, index, depth) == "any"@,
{
}

/// A type with one shape is written as that shape, with no separator.
pub proof fn lemma_single_shape(pool: Seq<EntryView>, index: nat, shape: ShapeView, depth: nat)
    requires
        index < pool.len(),
        pool[index as int] == EntryView::Alternatives(seq![shape]),
        depth < MAX_RECURSION,
    ensures
        format_at(pool, index, depth) == shape_text(pool, shape, depth),
{
    assert(shape_texts(pool, seq![shape], depth) =~= seq![shape_text(pool, shape, depth)]);
    lemma_join_one(shape_text(pool, shape, depth), " | "@);
}

/// A primitive type is written as its name, unchanged.
pub proof fn lemma_primitive(pool: Seq<EntryView>, index: nat, name: Seq<char>, depth: nat)
    requires
        index < pool.len(),
        pool[index as int] == EntryView::Alternatives(seq![ShapeView::Primitive(name)]),
        depth < MAX_RECURSION,
    ensures
        format_at(pool, index, depth) == name,
{
    lemma_single_shape(pool, index, ShapeView::Primitive(name), depth);
}

/// A union of two shapes is written with ` | ` between them, in the order
/// in which they stand.
pub proof fn lemma_union_of_two(
    pool: Seq<EntryView>,
    index: nat,
    first: ShapeView,
    second: ShapeView,
    depth: nat,
)
    requires
        index < pool.len(),
        pool[index as int] == EntryView::Alternatives(seq![first, second]),
        depth < MAX_RECURSION,
    ensures
        format_at(pool, index, depth) == shape_text(pool, first, depth) + " | "@ + shape_text(
            pool,
            second,
            depth,
        ),
{
    assert(shape_texts(pool, seq![first, second], depth) =~= seq![
        shape_text(pool, first, depth),
        shape_text(pool, second, depth),
    ]);
    lemma_join_two(shape_text(pool, first, depth), shape_text(pool, second, depth), " | "@);
}

/// An array is written as its element, one level further down, and `[]`.
pub proof fn lemma_array(pool: Seq<EntryView>, element: nat, depth: nat)
    requires
        depth < MAX_RECURSION,
    ensures
        shape_text(pool, ShapeView::Array(element), depth) == format_at(pool, element, depth + 1)
            + "[]"@,
{
}

/// An array of a primitive type is written as the primitive's name and `[]`.
pub proof fn lemma_array_of_primitive(
    pool: Seq<EntryView>,
    index: nat,
    element: nat,
    name: Seq<char>,
    depth: nat,
)
    requires
        index < pool.len(),
        element < pool.len(),
        pool[index as int] == EntryView::Alternatives(seq![ShapeView::Array(element)]),
        pool[element as int] == EntryView::Alternatives(seq![ShapeView::Primitive(name)]),
        depth + 1 < MAX_RECURSION,
    ensures
        format_at(pool, index, depth) == name + "[]"@,
{
    lemma_single_shape(pool, index, ShapeView::Array(element), depth);
    lemma_primitive(pool, element, name, depth + 1);
}

/// A fixed object of two members is written `{ a: A, b: B }`: the members in
/// the order in which they were declared, whatever their names.
pub proof fn lemma_fixed_object_of_two(
    pool: Seq<EntryView>,
    first: (Seq<char>, nat),
    second: (Seq<char>, nat),
    depth: nat,
)
    requires
        depth < MAX_RECURSION,
    ensures
        shape_text(
            pool,
            ShapeView::Object { members: seq![first, second], fixed: true },
            depth,
        ) == "{ "@ + first.0 + ": "@ + format_at(pool, first.1, depth + 1) + ", "@ + second.0
            + ": "@ + format_at(pool, second.1, depth + 1) + " }"@,
{
    let members = seq![first, second];
    let a = first.0 + ": "@ + format_at(pool, first.1, depth + 1);
    let b = second.0 + ": "@ + format_at(pool, second.1, depth + 1);
    assert(member_texts(pool, members, depth + 1) =~= seq![a, b]);
    lemma_join_two(a, b, ", "@);
    reveal_strlit(" ");
    reveal_strlit("}");
    reveal_strlit(" }");
    assert(" "@ + "}"@ =~= " }"@);
    assert("{ "@ + (a + ", "@ + b) + " "@ + "}"@ =~= "{ "@ + first.0 + ": "@ + format_at(
        pool,
        first.1,
        depth + 1,
    ) + ", "@ + second.0 + ": "@ + format_at(pool, second.1, depth + 1) + (" "@ + "}"@));
}

/// An object with no members that may have more is written `{ ... }`, and
/// one that may not, `{ }`.
pub proof fn lemma_empty_object(pool: Seq<EntryView>, fixed: bool, depth: nat)
    requires
        depth < MAX_RECURSION,
    ensures
        shape_text(pool, ShapeView::Object { members: Seq::empty(), fixed }, depth) == if fixed {
            "{ }"@
        } else {
            "{ ... }"@
        },
{
    let members = Seq::<(Seq<char>, nat)>::empty();
    assert(member_texts(pool, members, depth + 1) =~= Seq::<Seq<char>>::empty());
    reveal_strlit("{ ");
    reveal_strlit("");
    reveal_strlit("... ");
    reveal_strlit("}");
    reveal_strlit("{ }");
    reveal_strlit("{ ... }");
    assert("{ "@ + Seq::<char>::empty() + ""@ + "}"@ =~= "{ }"@);
    assert("{ "@ + Seq::<char>::empty() + "... "@ + "}"@ =~= "{ ... }"@);
}

/// A closure of two parameters is written `(|A, B| -> R)`.
pub proof fn lemma_closure_of_two(
    pool: Seq<EntryView>,
    first: nat,
    second: nat,
    result: nat,
    depth: nat,
)
    requires
        depth < MAX_RECURSION,
    ensures
        shape_text(
            pool,
            ShapeView::Closure { parameters: seq![first, second], result },
            depth,
        ) == "(|"@ + format_at(pool, first, depth + 1) + ", "@ + format_at(
            pool,
            second,
            depth + 1,
        ) + "| -> "@ + format_at(pool, result, depth + 1) + ")"@,
{
    let a = format_at(pool, first, depth + 1);
    let b = format_at(pool, second, depth + 1);
    assert(type_texts(pool, seq![first, second], depth + 1) =~= seq![a, b]);
    lemma_join_two(a, b, ", "@);
    assert("(|"@ + (a + ", "@ + b) =~= "(|"@ + a + ", "@ + b);
}

/// A closure shows the bars of its parameters even when it has none.
pub proof fn lemma_closure_of_none(pool: Seq<EntryView>, result: nat, depth: nat)
    requires
        depth < MAX_RECURSION,
    ensures
        shape_text(pool, ShapeView::Closure { parameters: Seq::empty(), result }, depth)
            == "(|| -> "@ + format_at(pool, result, depth + 1) + ")"@,
{
    assert(type_texts(pool, Seq::<nat>::empty(), depth + 1) =~= Seq::<Seq<char>>::empty());
    reveal_strlit("(|");
    reveal_strlit("| -> ");
    reveal_strlit("(|| -> ");
    assert("(|"@ + Seq::<char>::empty() + "| -> "@ =~= "(|| -> "@);
}

/// A tagged union of one case is written `variant(tag(T))`.
pub proof fn lemma_variants_of_one(pool: Seq<EntryView>, case: (Seq<char>, nat), depth: nat)
    requires
        depth < MAX_RECURSION,
    ensures
        shape_text(pool, ShapeView::Variants(seq![case]), depth) == "variant("@ + case.0 + "("@
            + format_at(pool, case.1, depth + 1) + ")"@ + ")"@,
{
    let only = case.0 + "("@ + format_at(pool, case.1, depth + 1) + ")"@;
    assert(case_texts(pool, seq![case], depth + 1) =~= seq![only]);
    lemma_join_one(only, ", "@);
    assert("variant("@ + only =~= "variant("@ + case.0 + "("@ + format_at(
        pool,
        case.1,
        depth + 1,
    ) + ")"@);
}

/// A type that is an array of itself has a finite notation: `?` for the
/// type met at the ceiling, and one `[]` for each level above it.
pub proof fn lemma_array_of_itself(pool: Seq<EntryView>, index: nat, depth: nat)
    requires
        index < pool.len(),
        pool[index as int] == EntryView::Alternatives(seq![ShapeView::Array(index)]),
        depth <= MAX_RECURSION,
    ensures
        format_at(pool, index, depth) == "?"@ + repeat("[]"@, (MAX_RECURSION - depth) as nat),
    decreases MAX_RECURSION - depth,
{
    if depth == MAX_RECURSION {
        assert("?"@ + Seq::<char>::empty() =~= "?"@);
    } else {
        lemma_array_of_itself(pool, index, depth + 1);
        lemma_single_shape(pool, index, ShapeView::Array(index), depth);
        let rest = repeat("[]"@, (MAX_RECURSION - depth - 1) as nat);
        assert("?"@ + rest + "[]"@ =~= "?"@ + (rest + "[]"@));
    }
}

} // verus!
