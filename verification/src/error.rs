//! The ways in which a checking session can fail.

use vstd::prelude::*;

verus! {

/// A failure that ends a checking session. There is no partial result.
///
/// A reference to a name that nobody declared is not among these: such a
/// reference is given the error type and the session goes on.
#[derive(Clone, Copy, Debug, PartialEq, Eq, Structural)]
pub enum TypeError {
    /// Two types are structurally incompatible.
    TypeMismatch,
    /// A variable would have to stand for a type that contains itself.
    RecursiveType,
    /// A literal does not belong to the type expected of it.
    LiteralConformance,
    /// The solver finished a round without discharging any constraint.
    UnsolvedConstraints,
    /// A type variable was still unbound when the final types were built.
    UnresolvedTypeVariable,
    /// An expression has no rule in synthesis mode and no expected type.
    AmbiguousExpression,
    /// A constructor or application pattern, for which no rule exists.
    UnsupportedPattern,
    /// The supply of type variables is exhausted.
    VariableLimit,
}

} // verus!
