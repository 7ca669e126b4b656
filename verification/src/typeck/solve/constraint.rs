//! What the worklist holds.

use vstd::prelude::*;
use crate::mir::{Literal, Name};
use crate::model::Obligation;
use crate::names::named;
use crate::typeck::types::{Type, TypeVar};

verus! {

/// A judgment that is kept for later.
#[derive(Debug, PartialEq, Eq)]
pub enum Constraint {
    /// The literal must belong to the type.
    FromLit(Literal, Type),
    /// A value of the second type must be usable where the first is expected.
    Assignable(Type, Type),
    /// The variable must become the instance, under the named types, of what
    /// the last type resolves to.
    Instantiate(Vec<(Name, Type)>, TypeVar, Type),
}

impl View for Constraint {
    type V = Obligation;

    open spec fn view(&self) -> Obligation {
        match self {
            Constraint::FromLit(l, t) => Obligation::FromLit(l@, t@),
            Constraint::Assignable(a, b) => Obligation::Assignable(a@, b@),
            Constraint::Instantiate(vars, v, t) => Obligation::Instantiate(
                named(vars@),
                v.0,
                t@,
            ),
        }
    }
}

} // verus!
