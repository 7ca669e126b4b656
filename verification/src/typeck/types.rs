//! Working types: the types of the checker, which may hold variables.

use vstd::prelude::*;
use crate::hir::Name;
use crate::model::Ty;
use crate::names::{find, named};
use crate::regex::Regex;
use crate::typeck::tween::Mutability;

verus! {

/// A type variable: a number drawn from the session's counter.
#[derive(Clone, Copy, Debug, PartialEq, Eq, Hash, Structural)]
pub struct TypeVar(pub usize);

impl View for TypeVar {
    type V = usize;

    open spec fn view(&self) -> usize {
        self.0
    }
}

/// A type as the checker works on it. It may hold type variables and the
/// names of type parameters.
#[derive(Debug, PartialEq, Eq, Hash)]
pub enum Type {
    /// The type of an expression that is never reached.
    Bottom,
    Bool,
    Regex,
    Range(i64, i64),
    String(Regex),
    Arrow(Box<Type>, Box<Type>),
    Var(Mutability, TypeVar),
    Named(Name),
    /// The type of what is already known to be wrong.
    Error,
}

impl View for Type {
    type V = Ty;

    open spec fn view(&self) -> Ty
        decreases self,
    {
        match self {
            Type::Bottom => Ty::Bottom,
            Type::Bool => Ty::Bool,
            Type::Regex => Ty::Regex,
            Type::Range(lo, hi) => Ty::Range(*lo, *hi),
            Type::String(p) => Ty::String(p@),
            Type::Arrow(a, b) => Ty::Arrow(Box::new((**a).view()), Box::new((**b).view())),
            Type::Var(m, v) => Ty::Var(*m, v.0),
            Type::Named(n) => Ty::Named(n@),
            Type::Error => Ty::Error,
        }
    }
}

impl Clone for Type {
    fn clone(&self) -> (r: Self)
        ensures
            r == *self,
        decreases self,
    {
        match self {
            Type::Bottom => Type::Bottom,
            Type::Bool => Type::Bool,
            Type::Regex => Type::Regex,
            Type::Range(lo, hi) => Type::Range(*lo, *hi),
            Type::String(p) => Type::String(p.clone()),
            Type::Arrow(a, b) => Type::Arrow(Box::new((**a).clone()), Box::new((**b).clone())),
            Type::Var(m, v) => Type::Var(*m, *v),
            Type::Named(n) => Type::Named(n.clone()),
            Type::Error => Type::Error,
        }
    }
}

impl Type {
    /// Whether both are the same type, structurally.
    pub fn same(&self, other: &Type) -> (r: bool)
        ensures
            r == (self@ == other@),
        decreases self,
    {
        match (self, other) {
            (Type::Bottom, Type::Bottom) => true,
            (Type::Bool, Type::Bool) => true,
            (Type::Regex, Type::Regex) => true,
            (Type::Range(lo1, hi1), Type::Range(lo2, hi2)) => *lo1 == *lo2 && *hi1 == *hi2,
            (Type::String(p), Type::String(q)) => p.same(q),
            (Type::Arrow(a1, b1), Type::Arrow(a2, b2)) => (**a1).same(&**a2) && (**b1).same(&**b2),
            (Type::Var(m1, v1), Type::Var(m2, v2)) => *m1 == *m2 && *v1 == *v2,
            (Type::Named(n), Type::Named(m)) => *n == *m,
            (Type::Error, Type::Error) => true,
            _ => false,
        }
    }

    /// The type with each named parameter that `vars` binds replaced by what
    /// it is bound to. Parameters that `vars` does not bind, and variables,
    /// stay as they are.
    pub fn instantiate(&self, vars: &Vec<(Name, Type)>) -> (r: Type)
        ensures
            r@ == self@.with_params(named(vars@)),
        decreases self,
    {
        match self {
            Type::Named(name) => match find(vars, name) {
                Some(t) => t.clone(),
                None => Type::Named(name.clone()),
            },
            Type::Arrow(from, into) => {
                let from = (**from).instantiate(vars);
                let into = (**into).instantiate(vars);
                Type::Arrow(Box::new(from), Box::new(into))
            },
            _ => self.clone(),
        }
    }

    /// The type with every variable tagged mutable.
    pub fn make_mutable(self) -> (r: Type)
        ensures
            r@ == self@.with_mutability(Mutability::Mutable),
    {
        self.make_mutability(Mutability::Mutable)
    }

    /// The type with every variable tagged `mutability`.
    pub fn make_mutability(self, mutability: Mutability) -> (r: Type)
        ensures
            r@ == self@.with_mutability(mutability),
        decreases self,
    {
        match self {
            Type::Arrow(from, into) => {
                let from = (*from).make_mutability(mutability);
                let into = (*into).make_mutability(mutability);
                Type::Arrow(Box::new(from), Box::new(into))
            },
            Type::Var(_, v) => Type::Var(mutability, v),
            other => other,
        }
    }
}

} // verus!
