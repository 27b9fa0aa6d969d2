use geradoc::error::DocError;
use geradoc::format::{format_type, MAX_RECURSION};
use geradoc::types::{TypeEntry, TypePool, TypeShape};

fn primitive(name: &str) -> TypeEntry {
    TypeEntry::Alternatives(vec![TypeShape::Primitive(name.to_string())])
}

fn single(shape: TypeShape) -> TypeEntry {
    TypeEntry::Alternatives(vec![shape])
}

fn pool(entries: Vec<TypeEntry>) -> TypePool {
    match TypePool::new(entries) {
        Ok(pool) => pool,
        Err(error) => panic!("the pool was refused: {:?}", error),
    }
}

fn formatted(index: usize, pool: &TypePool, depth: usize) -> String {
    match format_type(index, pool, depth) {
        Ok(text) => text,
        Err(error) => panic!("the type was refused: {:?}", error),
    }
}

#[test]
fn any_is_written_any_at_every_depth_below_the_ceiling() {
    let pool = pool(vec![TypeEntry::Any]);
    for depth in 0..MAX_RECURSION {
        assert_eq!(formatted(0, &pool, depth), "any");
    }
    assert_eq!(formatted(0, &pool, MAX_RECURSION), "?");
    assert_eq!(formatted(0, &pool, MAX_RECURSION + 5), "?");
}

#[test]
fn primitive_is_written_as_its_name() {
    let pool = pool(vec![primitive("Int"), primitive("a name with spaces"), primitive("")]);
    assert_eq!(formatted(0, &pool, 0), "Int");
    assert_eq!(formatted(1, &pool, 3), "a name with spaces");
    assert_eq!(formatted(2, &pool, 9), "");
}

#[test]
fn union_keeps_the_declared_order() {
    let pool = pool(vec![TypeEntry::Alternatives(vec![
        TypeShape::Primitive("Str".to_string()),
        TypeShape::Primitive("Int".to_string()),
        TypeShape::Primitive("Bool".to_string()),
    ])]);
    assert_eq!(formatted(0, &pool, 0), "Str | Int | Bool");
}

#[test]
fn union_of_no_shape_is_empty() {
    let pool = pool(vec![TypeEntry::Alternatives(vec![])]);
    assert_eq!(formatted(0, &pool, 0), "");
}

#[test]
fn fixed_object_lists_members_in_declared_order() {
    let pool = pool(vec![
        primitive("T1"),
        primitive("T2"),
        single(TypeShape::Object {
            members: vec![("b".to_string(), 1), ("a".to_string(), 0)],
            fixed: true,
        }),
        single(TypeShape::Object {
            members: vec![("a".to_string(), 0), ("b".to_string(), 1)],
            fixed: true,
        }),
    ]);
    assert_eq!(formatted(2, &pool, 0), "{ b: T2, a: T1 }");
    assert_eq!(formatted(3, &pool, 0), "{ a: T1, b: T2 }");
}

#[test]
fn object_tail_follows_emptiness_and_fixedness() {
    let pool = pool(vec![
        primitive("Int"),
        single(TypeShape::Object { members: vec![], fixed: true }),
        single(TypeShape::Object { members: vec![("x".to_string(), 0)], fixed: true }),
        single(TypeShape::Object { members: vec![], fixed: false }),
        single(TypeShape::Object { members: vec![("x".to_string(), 0)], fixed: false }),
    ]);
    assert_eq!(formatted(1, &pool, 0), "{ }");
    assert_eq!(formatted(2, &pool, 0), "{ x: Int }");
    assert_eq!(formatted(3, &pool, 0), "{ ... }");
    assert_eq!(formatted(4, &pool, 0), "{ x: Int, ... }");
}

#[test]
fn array_of_primitive() {
    let pool = pool(vec![primitive("Int"), single(TypeShape::Array(0))]);
    assert_eq!(formatted(1, &pool, 0), "Int[]");
}

#[test]
fn closure_of_two_parameters() {
    let pool = pool(vec![
        primitive("Int"),
        primitive("Bool"),
        primitive("Str"),
        single(TypeShape::Closure { parameters: vec![0, 1], result: 2 }),
    ]);
    assert_eq!(formatted(3, &pool, 0), "(|Int, Bool| -> Str)");
}

#[test]
fn closure_without_parameters_keeps_its_bars() {
    let pool = pool(vec![
        primitive("Str"),
        single(TypeShape::Closure { parameters: vec![], result: 0 }),
    ]);
    assert_eq!(formatted(1, &pool, 0), "(|| -> Str)");
}

#[test]
fn variants_list_their_cases() {
    let pool = pool(vec![
        primitive("Int"),
        primitive("Str"),
        single(TypeShape::Variants(vec![("some".to_string(), 0), ("none".to_string(), 1)])),
        single(TypeShape::Variants(vec![])),
    ]);
    assert_eq!(formatted(2, &pool, 0), "variant(some(Int), none(Str))");
    assert_eq!(formatted(3, &pool, 0), "variant()");
}

#[test]
fn nested_shapes_are_written_inside_out() {
    let pool = pool(vec![
        primitive("Int"),
        single(TypeShape::Array(0)),
        TypeEntry::Alternatives(vec![
            TypeShape::Object { members: vec![("items".to_string(), 1)], fixed: false },
            TypeShape::Closure { parameters: vec![1], result: 3 },
        ]),
        TypeEntry::Any,
    ]);
    assert_eq!(formatted(2, &pool, 0), "{ items: Int[], ... } | (|Int[]| -> any)");
}

#[test]
fn type_that_contains_itself_ends_at_the_ceiling() {
    let pool = pool(vec![single(TypeShape::Array(0))]);
    assert_eq!(formatted(0, &pool, 0), "?[][][][][][][][][][]");
    assert_eq!(formatted(0, &pool, 7), "?[][][]");
    assert_eq!(formatted(0, &pool, 10), "?");
}

#[test]
fn object_that_contains_itself_ends_at_the_ceiling() {
    let pool = pool(vec![single(TypeShape::Object {
        members: vec![("next".to_string(), 0)],
        fixed: true,
    })]);
    assert_eq!(formatted(0, &pool, 8), "{ next: { next: ? } }");
}

#[test]
fn deep_nesting_without_a_cycle_is_cut_too() {
    let mut entries = vec![primitive("Int")];
    for below in 0..12 {
        entries.push(single(TypeShape::Array(below)));
    }
    let pool = pool(entries);
    assert_eq!(formatted(9, &pool, 0), "Int[][][][][][][][][]");
    assert_eq!(formatted(10, &pool, 0), "?[][][][][][][][][][]");
    assert_eq!(formatted(12, &pool, 0), "?[][][][][][][][][][]");
}

#[test]
fn unknown_type_is_an_error_below_the_ceiling_only() {
    let pool = pool(vec![primitive("Int")]);
    assert_eq!(format_type(1, &pool, 0), Err(DocError::UnknownType { index: 1 }));
    assert_eq!(format_type(7, &pool, 9), Err(DocError::UnknownType { index: 7 }));
    assert_eq!(format_type(7, &pool, 10), Ok("?".to_string()));
}

#[test]
fn pool_refuses_the_first_dangling_reference() {
    let refused = TypePool::new(vec![
        primitive("Int"),
        TypeEntry::Alternatives(vec![
            TypeShape::Array(0),
            TypeShape::Closure { parameters: vec![1, 5, 9], result: 7 },
            TypeShape::Array(8),
        ]),
        single(TypeShape::Array(3)),
    ]);
    match refused {
        Ok(_) => panic!("a pool with a dangling reference was accepted"),
        Err(error) => {
            assert_eq!(error, DocError::DanglingIndex { entry: 1, alternative: 1, index: 5 })
        }
    }
}

#[test]
fn pool_refuses_a_dangling_result_and_member() {
    match TypePool::new(vec![single(TypeShape::Closure { parameters: vec![0], result: 1 })]) {
        Ok(_) => panic!("accepted"),
        Err(error) => {
            assert_eq!(error, DocError::DanglingIndex { entry: 0, alternative: 0, index: 1 })
        }
    }
    match TypePool::new(vec![
        TypeEntry::Any,
        single(TypeShape::Object {
            members: vec![("a".to_string(), 1), ("b".to_string(), 2)],
            fixed: true,
        }),
    ]) {
        Ok(_) => panic!("accepted"),
        Err(error) => {
            assert_eq!(error, DocError::DanglingIndex { entry: 1, alternative: 0, index: 2 })
        }
    }
    match TypePool::new(vec![single(TypeShape::Variants(vec![("a".to_string(), 4)]))]) {
        Ok(_) => panic!("accepted"),
        Err(error) => {
            assert_eq!(error, DocError::DanglingIndex { entry: 0, alternative: 0, index: 4 })
        }
    }
}

#[test]
fn pool_keeps_its_length() {
    let pool = pool(vec![primitive("Int"), TypeEntry::Any, single(TypeShape::Array(1))]);
    assert_eq!(pool.len(), 3);
    assert_eq!(TypePool::new(vec![]).map(|pool| pool.len()), Ok(0));
}

#[test]
fn pool_hands_out_its_entries() {
    let pool = pool(vec![primitive("Int"), TypeEntry::Any, single(TypeShape::Array(1))]);
    assert_eq!(pool.get(0), Some(&primitive("Int")));
    assert_eq!(pool.get(1), Some(&TypeEntry::Any));
    assert_eq!(pool.get(2), Some(&single(TypeShape::Array(1))));
    assert_eq!(pool.get(3), None);
}
