//! The types of a symbol table, gathered in a pool.

use vstd::prelude::*;
use crate::error::DocError;

verus! {

/// One shape that a value of a type may have. Other types are referred to by
/// their position in the pool.
#[derive(Debug, PartialEq, Eq)]
pub enum TypeShape {
    /// A scalar, known by its name only.
    Primitive(String),
    /// An array of elements of one type.
    Array(usize),
    /// A record. Its members are kept in the order in which they were
    /// declared. One that is not `fixed` may have members beyond these.
    Object { members: Vec<(String, usize)>, fixed: bool },
    /// A tagged union, its cases in the order in which they were declared.
    Variants(Vec<(String, usize)>),
    /// A closure from parameters to a result.
    Closure { parameters: Vec<usize>, result: usize },
}

/// An entry of the pool: any value at all, or a union of shapes in the order
/// in which they were declared. A union of no shape has the empty notation.
#[derive(Debug, PartialEq, Eq)]
pub enum TypeEntry {
    Any,
    Alternatives(Vec<TypeShape>),
}

/// What a [`TypeShape`] stands for.
pub enum ShapeView {
    Primitive(Seq<char>),
    Array(nat),
    Object { members: Seq<(Seq<char>, nat)>, fixed: bool },
    Variants(Seq<(Seq<char>, nat)>),
    Closure { parameters: Seq<nat>, result: nat },
}

/// What a [`TypeEntry`] stands for.
pub enum EntryView {
    Any,
    Alternatives(Seq<ShapeView>),
}

/// Named references (members, cases) as plain values.
pub open spec fn named_view(named: Seq<(String, usize)>) -> Seq<(Seq<char>, nat)> {
    Seq::new(named.len(), |i: int| (named[i].0@, named[i].1 as nat))
}

/// References as plain values.
pub open spec fn indices_view(indices: Seq<usize>) -> Seq<nat> {
    Seq::new(indices.len(), |i: int| indices[i] as nat)
}

impl View for TypeShape {
    type V = ShapeView;

    open spec fn view(&self) -> ShapeView {
        match self {
            TypeShape::Primitive(name) => ShapeView::Primitive(name@),
            TypeShape::Array(element) => ShapeView::Array(*element as nat),
            TypeShape::Object { members, fixed } => ShapeView::Object {
                members: named_view(members@),
                fixed: *fixed,
            },
            TypeShape::Variants(cases) => ShapeView::Variants(named_view(cases@)),
            TypeShape::Closure { parameters, result } => ShapeView::Closure {
                parameters: indices_view(parameters@),
                result: *result as nat,
            },
        }
    }
}

/// Shapes as plain values.
pub open spec fn shapes_view(shapes: Seq<TypeShape>) -> Seq<ShapeView> {
    Seq::new(shapes.len(), |i: int| shapes[i]@)
}

impl View for TypeEntry {
    type V = EntryView;

    open spec fn view(&self) -> EntryView {
        match self {
            TypeEntry::Any => EntryView::Any,
            TypeEntry::Alternatives(shapes) => EntryView::Alternatives(shapes_view(shapes@)),
        }
    }
}

/// Entries as plain values.
pub open spec fn entries_view(entries: Seq<TypeEntry>) -> Seq<EntryView> {
    Seq::new(entries.len(), |i: int| entries[i]@)
}

/// The types that a shape refers to, in the order in which it names them.
pub open spec fn shape_refs(shape: ShapeView) -> Seq<nat> {
    match shape {
        ShapeView::Primitive(_) => Seq::empty(),
        ShapeView::Array(element) => seq![element],
        ShapeView::Object { members, fixed } => Seq::new(members.len(), |i: int| members[i].1),
        ShapeView::Variants(cases) => Seq::new(cases.len(), |i: int| cases[i].1),
        ShapeView::Closure { parameters, result } => parameters.push(result),
    }
}

/// Every type that `shape` refers to is one of the first `len`.
pub open spec fn shape_closed(shape: ShapeView, len: nat) -> bool {
    forall|k: int| 0 <= k < shape_refs(shape).len() ==> #[trigger] shape_refs(shape)[k] < len
}

/// Every type that one of `shapes` refers to is one of the first `len`.
pub open spec fn shapes_closed(shapes: Seq<ShapeView>, len: nat) -> bool {
    forall|a: int| 0 <= a < shapes.len() ==> shape_closed(#[trigger] shapes[a], len)
}

/// Every type that `entry` refers to is one of the first `len`.
pub open spec fn entry_closed(entry: EntryView, len: nat) -> bool {
    entry matches EntryView::Alternatives(shapes) ==> shapes_closed(shapes, len)
}

/// Every reference in the pool is to an entry of the pool.
pub open spec fn pool_closed(pool: Seq<EntryView>) -> bool {
    forall|i: int| 0 <= i < pool.len() ==> entry_closed(#[trigger] pool[i], pool.len())
}

/// Reference `k` of alternative `a` of entry `i` is the first in the pool
/// that leaves it: entries, alternatives and references are taken in order.
pub open spec fn first_dangling(pool: Seq<EntryView>, i: int, a: int, k: int) -> bool {
    &&& 0 <= i < pool.len()
    &&& forall|j: int| 0 <= j < i ==> entry_closed(#[trigger] pool[j], pool.len())
    &&& pool[i] matches EntryView::Alternatives(shapes)
    &&& 0 <= a < shapes.len()
    &&& forall|b: int| 0 <= b < a ==> shape_closed(#[trigger] shapes[b], pool.len())
    &&& 0 <= k < shape_refs(shapes[a]).len()
    &&& forall|m: int| 0 <= m < k ==> #[trigger] shape_refs(shapes[a])[m] < pool.len()
    &&& shape_refs(shapes[a])[k] >= pool.len()
}

/// The first reference of `shape` that is not below `len`, if there is one.
fn dangling_in_shape(shape: &TypeShape, len: usize) -> (found: Option<usize>)
    ensures
        match found {
            None => shape_closed(shape@, len as nat),
            Some(index) => exists|k: int|
                {
                    &&& 0 <= k < shape_refs(shape@).len()
                    &&& forall|m: int| 0 <= m < k ==> #[trigger] shape_refs(shape@)[m] < len
                    &&& #[trigger] shape_refs(shape@)[k] == index
                    &&& index >= len
                },
        },
{
    match shape {
        TypeShape::Primitive(_) => None,
        TypeShape::Array(element) => {
            if *element < len {
                None
            } else {
                assert(shape_refs(shape@)[0] == *element);
                Some(*element)
            }
        },
        TypeShape::Object { members, fixed } => {
            let found = dangling_in_named(members, len);
            proof {
                assert forall|m: int| 0 <= m < members@.len() implies #[trigger] shape_refs(
                    shape@,
                )[m] == members@[m].1 by {}
                if let Some(index) = found {
                    let k = choose|k: int|
                        {
                            &&& 0 <= k < members@.len()
                            &&& forall|m: int| 0 <= m < k ==> (#[trigger] members@[m]).1 < len
                            &&& (#[trigger] members@[k]).1 == index
                        };
                    assert(shape_refs(shape@)[k] == index);
                }
            }
            found
        },
        TypeShape::Variants(cases) => {
            let found = dangling_in_named(cases, len);
            proof {
                assert forall|m: int| 0 <= m < cases@.len() implies #[trigger] shape_refs(
                    shape@,
                )[m] == cases@[m].1 by {}
                if let Some(index) = found {
                    let k = choose|k: int|
                        {
                            &&& 0 <= k < cases@.len()
                            &&& forall|m: int| 0 <= m < k ==> (#[trigger] cases@[m]).1 < len
                            &&& (#[trigger] cases@[k]).1 == index
                        };
                    assert(shape_refs(shape@)[k] == index);
                }
            }
            found
        },
        TypeShape::Closure { parameters, result } => {
            let mut k: usize = 0;
            while k < parameters.len()
                invariant
                    k <= parameters.len(),
                    shape@ == (ShapeView::Closure {
                        parameters: indices_view(parameters@),
                        result: *result as nat,
                    }),
                    forall|m: int| 0 <= m < k ==> #[trigger] shape_refs(shape@)[m] < len,
                decreases parameters.len() - k,
            {
                if parameters[k] >= len {
                    assert(shape_refs(shape@)[k as int] == parameters[k as int]);
                    return Some(parameters[k]);
                }
                assert(shape_refs(shape@)[k as int] == parameters[k as int]);
                k += 1;
            }
            if *result < len {
                None
            } else {
                assert(shape_refs(shape@)[parameters.len() as int] == *result);
                Some(*result)
            }
        },
    }
}

/// The first of the named references that is not below `len`, if there is one.
fn dangling_in_named(named: &Vec<(String, usize)>, len: usize) -> (found: Option<usize>)
    ensures
        match found {
            None => forall|m: int| 0 <= m < named@.len() ==> (#[trigger] named@[m]).1 < len,
            Some(index) => exists|k: int|
                {
                    &&& 0 <= k < named@.len()
                    &&& forall|m: int| 0 <= m < k ==> (#[trigger] named@[m]).1 < len
                    &&& (#[trigger] named@[k]).1 == index
                    &&& index >= len
                },
        },
{
    let mut k: usize = 0;
    while k < named.len()
        invariant
            k <= named.len(),
            forall|m: int| 0 <= m < k ==> (#[trigger] named@[m]).1 < len,
        decreases named.len() - k,
    {
        if named[k].1 >= len {
            return Some(named[k].1);
        }
        k += 1;
    }
    None
}

/// The shape of alternative `a` of entry `i`.
pub open spec fn alternative(pool: Seq<EntryView>, i: int, a: int) -> ShapeView {
    pool[i]->Alternatives_0[a]
}

/// `error` names the first reference that leaves the pool.
pub open spec fn reports_first_dangling(pool: Seq<EntryView>, error: DocError) -> bool {
    exists|i: int, a: int, k: int|
        {
            &&& #[trigger] first_dangling(pool, i, a, k)
            &&& error == (DocError::DanglingIndex {
                entry: i as usize,
                alternative: a as usize,
                index: shape_refs(alternative(pool, i, a))[k] as usize,
            })
        }
}

/// All the types of one symbol table. An entry is known by its position,
/// which never changes: no entry is added or removed after the pool is made.
/// Every reference of a pool is to one of its own entries.
#[derive(Debug)]
pub struct TypePool {
    entries: Vec<TypeEntry>,
}

impl View for TypePool {
    type V = Seq<EntryView>;

    closed spec fn view(&self) -> Seq<EntryView> {
        entries_view(self.entries@)
    }
}

impl TypePool {
    #[verifier::type_invariant]
    spec fn closed(self) -> bool {
        pool_closed(self@)
    }

    /// Makes a pool of `entries`, unless one of them refers to a type that
    /// is not among them: then the first such reference is reported.
    pub fn new(entries: Vec<TypeEntry>) -> (made: Result<TypePool, DocError>)
        ensures
            made is Ok == pool_closed(entries_view(entries@)),
            match made {
                Ok(pool) => pool@ == entries_view(entries@),
                Err(error) => reports_first_dangling(entries_view(entries@), error),
            },
    {
        let ghost pool = entries_view(entries@);
        let len = entries.len();
        let mut i: usize = 0;
        while i < len
            invariant
                i <= len,
                len == entries@.len(),
                pool == entries_view(entries@),
                forall|j: int| 0 <= j < i ==> entry_closed(#[trigger] pool[j], len as nat),
            decreases len - i,
        {
            match &entries[i] {
                TypeEntry::Any => {},
                TypeEntry::Alternatives(shapes) => {
                    let mut a: usize = 0;
                    while a < shapes.len()
                        invariant
                            a <= shapes.len(),
                            i < len,
                            len == entries@.len(),
                            pool == entries_view(entries@),
                            pool[i as int] == EntryView::Alternatives(shapes_view(shapes@)),
                            forall|j: int|
                                0 <= j < i ==> entry_closed(#[trigger] pool[j], len as nat),
                            forall|b: int|
                                0 <= b < a ==> shape_closed(
                                    #[trigger] shapes_view(shapes@)[b],
                                    len as nat,
                                ),
                        decreases shapes.len() - a,
                    {
                        if let Some(index) = dangling_in_shape(&shapes[a], len) {
                            proof {
                                let k = choose|k: int|
                                    {
                                        &&& 0 <= k < shape_refs(shapes@[a as int]@).len()
                                        &&& forall|m: int|
                                            0 <= m < k ==> #[trigger] shape_refs(
                                                shapes@[a as int]@,
                                            )[m] < len
                                        &&& #[trigger] shape_refs(shapes@[a as int]@)[k] == index
                                        &&& index >= len
                                    };
                                assert(first_dangling(pool, i as int, a as int, k));
                                assert(!shape_closed(shapes_view(shapes@)[a as int], len as nat));
                                assert(!entry_closed(pool[i as int], len as nat));
                            }
                            return Err(
                                DocError::DanglingIndex { entry: i, alternative: a, index },
                            );
                        }
                        a += 1;
                    }
                },
            }
            i += 1;
        }
        Ok(TypePool { entries })
    }

    /// How many entries the pool has.
    pub fn len(&self) -> (len: usize)
        ensures
            len == self@.len(),
    {
        self.entries.len()
    }

    /// The entry at `index`, if the pool has one there. What it refers to is
    /// in the pool.
    pub fn get(&self, index: usize) -> (found: Option<&TypeEntry>)
        ensures
            match found {
                Some(entry) => {
                    &&& index < self@.len()
                    &&& entry@ == self@[index as int]
                    &&& entry_closed(entry@, self@.len())
                },
                None => index >= self@.len(),
            },
    {
        proof {
            use_type_invariant(self);
        }
        if index < self.entries.len() {
            Some(&self.entries[index])
        } else {
            None
        }
    }
}

/// No reference leaves a pool that is closed, and at most one is the first
/// to leave one that is not: an error that `TypePool::new` reports is the
/// only one that it could report.
pub proof fn lemma_first_dangling_unique(
    pool: Seq<EntryView>,
    i: int,
    a: int,
    k: int,
    i2: int,
    a2: int,
    k2: int,
)
    requires
        first_dangling(pool, i, a, k),
        first_dangling(pool, i2, a2, k2),
    ensures
        !pool_closed(pool),
        i == i2 && a == a2 && k == k2,
{
    let shapes = pool[i]->Alternatives_0;
    assert(!shape_closed(shapes[a], pool.len()));
    assert(!entry_closed(pool[i], pool.len()));
    let shapes2 = pool[i2]->Alternatives_0;
    assert(!shape_closed(shapes2[a2], pool.len()));
    assert(!entry_closed(pool[i2], pool.len()));
}

} // verus!
