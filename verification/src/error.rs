//! What can be wrong with a symbol table or a request.

use vstd::prelude::*;

verus! {

/// A field of a type record that some kinds of type cannot do without.
#[derive(Debug, Clone, Copy, PartialEq, Eq)]
pub enum Field {
    Types,
    ElementTypes,
    MemberTypes,
    VariantTypes,
    Fixed,
    ParameterTypes,
    ReturnTypes,
}

/// Why a symbol table was not rendered.
#[derive(Debug, Clone, Copy, PartialEq, Eq)]
pub enum DocError {
    /// Alternative `alternative` of the record at `entry` lacks `field`,
    /// which its kind needs. A record that is not `any` and has no list of
    /// alternatives is reported with `alternative` 0 and `Field::Types`.
    MissingField { entry: usize, alternative: usize, field: Field },
    /// Alternative `alternative` of the entry at `entry` refers to type
    /// `index`, which the pool does not have.
    DanglingIndex { entry: usize, alternative: usize, index: usize },
    /// A symbol is of type `index`, which the pool does not have.
    UnknownType { index: usize },
    /// The name filter is not a regular expression that compiles.
    InvalidFilter,
}

} // verus!
