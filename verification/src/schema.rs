//! The types of a symbol table as they are read, field by field, and what
//! pool they make.
//!
//! A record of a type says whether the type is `any`, and otherwise lists
//! its alternatives. A record of an alternative has a tag and the fields
//! that go with the tag: `object` needs `member_types` and `fixed`,
//! `closure` needs `parameter_types` and `return_types`, `variants` needs
//! `variant_types`, `array` needs `element_types`. Every other tag is the
//! name of a primitive type. A field that the tag does not need is not
//! looked at.

use vstd::prelude::*;
use crate::error::{DocError, Field};
use crate::gather::{gather, lemma_gather_error, lemma_gather_next, one};
use crate::text::str_eq;
use crate::types::{
    EntryView, ShapeView, TypeEntry, TypePool, TypeShape, entries_view, indices_view, named_view,
    pool_closed, reports_first_dangling, shapes_view,
};

verus! {

/// The record of one alternative of a type.
#[derive(Debug, PartialEq, Eq)]
pub struct InnerType {
    /// The tag: `object`, `closure`, `variants`, `array`, or the name of a
    /// primitive type.
    pub typ_: String,
    pub element_types: Option<usize>,
    /// The members of an object, in the order in which they were declared.
    pub member_types: Option<Vec<(String, usize)>>,
    /// The cases of a tagged union, in the order in which they were declared.
    pub variant_types: Option<Vec<(String, usize)>>,
    pub fixed: Option<bool>,
    pub parameter_types: Option<Vec<usize>>,
    pub return_types: Option<usize>,
}

/// The record of one type.
#[derive(Debug, PartialEq, Eq)]
pub struct Type {
    pub any: bool,
    /// The alternatives of a type that is not `any`.
    pub types: Option<Vec<InnerType>>,
}

/// The error for a field that alternative `alternative` of record `entry`
/// lacks.
pub open spec fn missing(entry: usize, alternative: usize, field: Field) -> DocError {
    DocError::MissingField { entry, alternative, field }
}

/// The shape that the record of an alternative stands for, or the first
/// field that it lacks, in the order in which the fields are named above.
pub open spec fn resolved_shape(record: InnerType, entry: usize, alternative: usize) -> Result<
    ShapeView,
    DocError,
> {
    if record.typ_@ == "object"@ {
        match (record.member_types, record.fixed) {
            (None, _) => Err(missing(entry, alternative, Field::MemberTypes)),
            (Some(_), None) => Err(missing(entry, alternative, Field::Fixed)),
            (Some(members), Some(fixed)) => Ok(
                ShapeView::Object { members: named_view(members@), fixed },
            ),
        }
    } else if record.typ_@ == "closure"@ {
        match (record.parameter_types, record.return_types) {
            (None, _) => Err(missing(entry, alternative, Field::ParameterTypes)),
            (Some(_), None) => Err(missing(entry, alternative, Field::ReturnTypes)),
            (Some(parameters), Some(result)) => Ok(
                ShapeView::Closure { parameters: indices_view(parameters@), result: result as nat },
            ),
        }
    } else if record.typ_@ == "variants"@ {
        match record.variant_types {
            None => Err(missing(entry, alternative, Field::VariantTypes)),
            Some(cases) => Ok(ShapeView::Variants(named_view(cases@))),
        }
    } else if record.typ_@ == "array"@ {
        match record.element_types {
            None => Err(missing(entry, alternative, Field::ElementTypes)),
            Some(element) => Ok(ShapeView::Array(element as nat)),
        }
    } else {
        Ok(ShapeView::Primitive(record.typ_@))
    }
}

/// The alternatives of record `entry`, each resolved.
pub open spec fn resolved_shapes(records: Seq<InnerType>, entry: usize) -> Seq<
    Result<Seq<ShapeView>, DocError>,
> {
    Seq::new(records.len(), |a: int| one(resolved_shape(records[a], entry, a as usize)))
}

/// The entry that the record of a type stands for, or what it lacks: its
/// alternatives are gone through in order. A type that is `any` needs no
/// alternatives, and those that it has are not looked at.
pub open spec fn resolved_entry(record: Type, entry: usize) -> Result<EntryView, DocError> {
    if record.any {
        Ok(EntryView::Any)
    } else {
        match record.types {
            None => Err(missing(entry, 0, Field::Types)),
            Some(alternatives) => match gather(resolved_shapes(alternatives@, entry)) {
                Err(error) => Err(error),
                Ok(shapes) => Ok(EntryView::Alternatives(shapes)),
            },
        }
    }
}

/// The records of a symbol table, each resolved.
pub open spec fn resolved_entries(records: Seq<Type>) -> Seq<Result<Seq<EntryView>, DocError>> {
    Seq::new(records.len(), |i: int| one(resolved_entry(records[i], i as usize)))
}

/// The entries that the records of a symbol table stand for, or what the
/// first incomplete record lacks.
pub open spec fn resolved(records: Seq<Type>) -> Result<Seq<EntryView>, DocError> {
    gather(resolved_entries(records))
}

/// What a shape or an error stands for.
pub open spec fn shape_view(outcome: Result<TypeShape, DocError>) -> Result<ShapeView, DocError> {
    match outcome {
        Ok(shape) => Ok(shape@),
        Err(error) => Err(error),
    }
}

/// What an entry or an error stands for.
pub open spec fn entry_view(outcome: Result<TypeEntry, DocError>) -> Result<EntryView, DocError> {
    match outcome {
        Ok(entry) => Ok(entry@),
        Err(error) => Err(error),
    }
}

impl InnerType {
    /// The shape that this record stands for. It is alternative
    /// `alternative` of record `entry`: an error says so.
    pub fn resolve(self, entry: usize, alternative: usize) -> (shape: Result<TypeShape, DocError>)
        ensures
            shape_view(shape) == resolved_shape(self, entry, alternative),
    {
        let InnerType {
            typ_,
            element_types,
            member_types,
            variant_types,
            fixed,
            parameter_types,
            return_types,
        } = self;
        if str_eq(typ_.as_str(), "object") {
            match (member_types, fixed) {
                (None, _) => Err(
                    DocError::MissingField { entry, alternative, field: Field::MemberTypes },
                ),
                (Some(_), None) => Err(
                    DocError::MissingField { entry, alternative, field: Field::Fixed },
                ),
                (Some(members), Some(fixed)) => Ok(TypeShape::Object { members, fixed }),
            }
        } else if str_eq(typ_.as_str(), "closure") {
            match (parameter_types, return_types) {
                (None, _) => Err(
                    DocError::MissingField { entry, alternative, field: Field::ParameterTypes },
                ),
                (Some(_), None) => Err(
                    DocError::MissingField { entry, alternative, field: Field::ReturnTypes },
                ),
                (Some(parameters), Some(result)) => Ok(TypeShape::Closure { parameters, result }),
            }
        } else if str_eq(typ_.as_str(), "variants") {
            match variant_types {
                None => Err(
                    DocError::MissingField { entry, alternative, field: Field::VariantTypes },
                ),
                Some(cases) => Ok(TypeShape::Variants(cases)),
            }
        } else if str_eq(typ_.as_str(), "array") {
            match element_types {
                None => Err(
                    DocError::MissingField { entry, alternative, field: Field::ElementTypes },
                ),
                Some(element) => Ok(TypeShape::Array(element)),
            }
        } else {
            Ok(TypeShape::Primitive(typ_))
        }
    }
}

impl Type {
    /// The entry that this record stands for. It is record `entry` of its
    /// symbol table: an error says so.
    pub fn resolve(self, entry: usize) -> (resolved: Result<TypeEntry, DocError>)
        ensures
            entry_view(resolved) == resolved_entry(self, entry),
    {
        let Type { any, types } = self;
        if any {
            return Ok(TypeEntry::Any);
        }
        let alternatives = match types {
            None => {
                return Err(DocError::MissingField { entry, alternative: 0, field: Field::Types });
            },
            Some(alternatives) => alternatives,
        };
        let ghost records = alternatives@;
        let ghost parts = resolved_shapes(records, entry);
        let count = alternatives.len();
        let mut shapes: Vec<TypeShape> = Vec::new();
        let mut a: usize = 0;
        proof {
            assert(shapes_view(shapes@) =~= Seq::<ShapeView>::empty());
        }
        for record in it: alternatives
            invariant
                it.seq() == records,
                a == it.index(),
                records.len() == count,
                !self.any,
                self.types matches Some(listed) && listed@ == records,
                parts == resolved_shapes(records, entry),
                gather(parts.take(a as int)) == Ok::<Seq<ShapeView>, DocError>(
                    shapes_view(shapes@),
                ),
        {
            proof {
                lemma_gather_next(parts, a as int);
            }
            match record.resolve(entry, a) {
                Err(error) => {
                    proof {
                        lemma_gather_error(parts, a + 1);
                    }
                    return Err(error);
                },
                Ok(shape) => {
                    let ghost before = shapes_view(shapes@);
                    shapes.push(shape);
                    assert(shapes_view(shapes@) =~= before + seq![shape@]);
                },
            }
            a += 1;
        }
        proof {
            assert(parts.take(count as int) =~= parts);
        }
        Ok(TypeEntry::Alternatives(shapes))
    }
}

/// Makes the pool of the types that `records` describe. A record that lacks
/// a field that it needs is an error, and the first such field is reported.
/// Where all records are complete, a reference to a type that is not among
/// them is an error, and the first such reference is reported.
pub fn pool_of_records(records: Vec<Type>) -> (made: Result<TypePool, DocError>)
    ensures
        made is Ok == (resolved(records@) matches Ok(entries) && pool_closed(entries)),
        match made {
            Ok(pool) => resolved(records@) == Ok::<Seq<EntryView>, DocError>(pool@),
            Err(error) => match resolved(records@) {
                Err(first) => error == first,
                Ok(entries) => reports_first_dangling(entries, error),
            },
        },
{
    let ghost read = records@;
    let ghost parts = resolved_entries(read);
    let count = records.len();
    let mut entries: Vec<TypeEntry> = Vec::new();
    let mut i: usize = 0;
    proof {
        assert(entries_view(entries@) =~= Seq::<EntryView>::empty());
    }
    for record in it: records
        invariant
            it.seq() == read,
            i == it.index(),
            read.len() == count,
            parts == resolved_entries(read),
            gather(parts.take(i as int)) == Ok::<Seq<EntryView>, DocError>(entries_view(entries@)),
    {
        proof {
            lemma_gather_next(parts, i as int);
        }
        match record.resolve(i) {
            Err(error) => {
                proof {
                    lemma_gather_error(parts, i + 1);
                }
                return Err(error);
            },
            Ok(entry) => {
                let ghost before = entries_view(entries@);
                entries.push(entry);
                assert(entries_view(entries@) =~= before + seq![entry@]);
            },
        }
        i += 1;
    }
    proof {
        assert(parts.take(count as int) =~= parts);
    }
    TypePool::new(entries)
}

} // verus!
