//! From annotations to working types.

use vstd::prelude::*;
use crate::error::TypeError;
use crate::hir;
use crate::model::{SurfaceType, Ty};
use crate::typeck::tween::Mutability;
use crate::typeck::types::Type;
use crate::typeck::scope::{lemma_arrow_below, lemma_var_below};
use crate::typeck::{viewed, Checker, Session};

verus! {

/// A fresh type variable tagged `m`, as a type.
pub open spec fn fresh_var(s: Session, m: Mutability) -> (Session, Result<Ty, TypeError>) {
    let (s1, r1) = s.fresh();
    match r1 {
        Err(e) => (s1, Err(e)),
        Ok(v) => (s1, Ok(Ty::Var(m, v))),
    }
}

/// The working type of an annotation: the session afterwards and the type.
/// Each wildcard becomes a fresh variable tagged `m`, drawn from left to
/// right; an invalid annotation becomes the error type.
pub open spec fn lowered(s: Session, ty: SurfaceType, m: Mutability) -> (
    Session,
    Result<Ty, TypeError>,
)
    decreases ty,
{
    match ty {
        SurfaceType::Bool => (s, Ok(Ty::Bool)),
        SurfaceType::Regex => (s, Ok(Ty::Regex)),
        SurfaceType::Range(lo, hi) => (s, Ok(Ty::Range(lo, hi))),
        SurfaceType::String(p) => (s, Ok(Ty::String(p))),
        SurfaceType::Arrow(a, b) => {
            let (s1, r1) = lowered(s, *a, m);
            match r1 {
                Err(e) => (s1, Err(e)),
                Ok(from) => {
                    let (s2, r2) = lowered(s1, *b, m);
                    match r2 {
                        Err(e) => (s2, Err(e)),
                        Ok(into) => (s2, Ok(Ty::Arrow(Box::new(from), Box::new(into)))),
                    }
                },
            }
        },
        SurfaceType::Named(n) => (s, Ok(Ty::Named(n))),
        SurfaceType::Wildcard => fresh_var(s, m),
        SurfaceType::Invalid => (s, Ok(Ty::Error)),
    }
}

impl Checker {
    /// The working type of the annotation `ty`, with a fresh variable tagged
    /// `mutability` for each wildcard.
    pub fn lower_type(&mut self, ty: &hir::Type, mutability: Mutability) -> (r: Result<
        Type,
        TypeError,
    >)
        requires
            old(self).wf(),
        ensures
            final(self).wf(),
            (final(self)@, viewed(r)) == lowered(old(self)@, ty@, mutability),
            final(self)@.context == old(self)@.context,
            old(self)@.next_var <= final(self)@.next_var,
            r matches Ok(t) ==> t@.vars_below(final(self)@.next_var),
        decreases ty,
    {
        match ty {
            hir::Type::Bool => Ok(self.boolean_type()),
            hir::Type::Regex => Ok(self.regex_type()),
            hir::Type::Range(lo, hi) => Ok(Type::Range(*lo, *hi)),
            hir::Type::String(pat) => Ok(Type::String(pat.clone())),
            hir::Type::Arrow(from, into) => {
                let from = match self.lower_type(&**from, mutability) {
                    Ok(t) => t,
                    Err(e) => {
                        return Err(e);
                    },
                };
                let into = match self.lower_type(&**into, mutability) {
                    Ok(t) => t,
                    Err(e) => {
                        return Err(e);
                    },
                };
                proof {
                    lemma_arrow_below(from@, into@, self@.next_var);
                }
                Ok(self.fun_type(from, into))
            },
            hir::Type::Named(name) => Ok(Type::Named(name.clone())),
            hir::Type::Wildcard => self.fresh_type(mutability),
            hir::Type::Invalid => Ok(self.error_type()),
        }
    }

    /// The type of truth values.
    pub fn boolean_type(&mut self) -> (r: Type)
        ensures
            *final(self) == *old(self),
            r@ == Ty::Bool,
    {
        Type::Bool
    }

    /// The type of an expression that is never reached.
    pub fn bottom_type(&mut self) -> (r: Type)
        ensures
            *final(self) == *old(self),
            r@ == Ty::Bottom,
    {
        Type::Bottom
    }

    /// The type of what is already known to be wrong.
    pub fn error_type(&mut self) -> (r: Type)
        ensures
            *final(self) == *old(self),
            r@ == Ty::Error,
    {
        Type::Error
    }

    /// A fresh type variable tagged `mutability`.
    pub fn fresh_type(&mut self, mutability: Mutability) -> (r: Result<Type, TypeError>)
        requires
            old(self).wf(),
        ensures
            final(self).wf(),
            (final(self)@, viewed(r)) == fresh_var(old(self)@, mutability),
            old(self)@.next_var <= final(self)@.next_var,
            r matches Ok(t) ==> t@.vars_below(final(self)@.next_var),
    {
        match self.fresh_tyvar() {
            Ok(v) => {
                proof {
                    lemma_var_below(mutability, v.0, self@.next_var);
                }
                Ok(Type::Var(mutability, v))
            },
            Err(e) => Err(e),
        }
    }

    /// The type of functions from `from` to `into`.
    pub fn fun_type(&mut self, from: Type, into: Type) -> (r: Type)
        ensures
            *final(self) == *old(self),
            r@ == Ty::Arrow(Box::new(from@), Box::new(into@)),
    {
        Type::Arrow(Box::new(from), Box::new(into))
    }

    /// The type of regular expressions.
    pub fn regex_type(&mut self) -> (r: Type)
        ensures
            *final(self) == *old(self),
            r@ == Ty::Regex,
    {
        Type::Regex
    }
}

} // verus!
