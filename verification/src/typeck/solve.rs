//! The deferred judgments and how each is discharged.

pub mod constraint;

pub use constraint::Constraint;

use vstd::prelude::*;
use crate::error::TypeError;
use crate::mir::Literal;
use crate::model::{Lit, Obligation, Ty};
use crate::regex::regex_search;
use crate::typeck::assign::{assign, room};
use crate::typeck::context::inst;
use crate::typeck::tween::Mutability;
use crate::typeck::types::Type;
use crate::typeck::scope::lemma_var_below;
use crate::typeck::{Checker, Session};

verus! {

/// Whether `lit` belongs to `ty`: the session afterwards and the verdict.
///
/// A truth value belongs to `Bool` and a regular expression to `Regex`. An
/// integer belongs to a range that holds it, the upper bound excluded. A
/// string belongs to a string type whose pattern matches it. Against a solved
/// variable the literal is held against what the variable stands for, unless
/// the path has already looked through as many bindings as there are, which
/// fails as a recursive type; against an unsolved variable the judgment is
/// deferred again, as it was. Every other pairing fails.
///
/// `hops` counts the bindings looked through on the way to `ty`.
pub open spec fn conforms(s: Session, lit: Lit, ty: Ty, hops: nat) -> (
    Session,
    Result<(), TypeError>,
)
    decreases room(hops),
{
    match (lit, ty) {
        (Lit::Boolean(_), Ty::Bool) => (s, Ok(())),
        (Lit::Integer(v), Ty::Range(lo, hi)) => if lo <= v < hi {
            (s, Ok(()))
        } else {
            (s, Err(TypeError::LiteralConformance))
        },
        (Lit::Regex(_), Ty::Regex) => (s, Ok(())),
        (Lit::String(v), Ty::String(p)) => if regex_search(p, v) == Some(true) {
            (s, Ok(()))
        } else {
            (s, Err(TypeError::LiteralConformance))
        },
        (_, Ty::Var(_, v)) => if s.bound(v) {
            if s.may_follow(hops) {
                conforms(s, lit, s.subst[v], hops + 1)
            } else {
                (s, Err(TypeError::RecursiveType))
            }
        } else {
            (s.defer(Obligation::FromLit(lit, ty)), Ok(()))
        },
        _ => (s, Err(TypeError::LiteralConformance)),
    }
}

/// Whether the judgment has to wait: an instantiation of a variable that is
/// not solved yet.
pub open spec fn must_wait(s: Session, o: Obligation) -> bool {
    o matches Obligation::Instantiate(_, _, Ty::Var(_, v)) && !s.bound(v)
}

/// One attempt at a deferred judgment: the session afterwards and the
/// verdict.
///
/// A literal is held against its type and an assignability judgment is
/// checked again, each from the start. An instantiation waits, deferred
/// again as it was, while the variable it copies is unsolved. After that the
/// instance is built, and the variable that stands for it is bound to the
/// instance, whatever the instance is, unless the variable is written in the
/// instance, which fails as a recursive type. Where the variable has been
/// solved in the meantime, it is not bound again: what it stands for must be
/// assignable from the instance.
pub open spec fn discharge(s: Session, o: Obligation) -> (Session, Result<(), TypeError>) {
    match o {
        Obligation::FromLit(lit, ty) => conforms(s, lit, ty, 0),
        Obligation::Assignable(into, from) => assign(s, into, from, 0, 0),
        Obligation::Instantiate(vars, w, orig) => if must_wait(s, o) {
            (s.defer(o), Ok(()))
        } else {
            let (s1, r1) = inst(s, orig, vars, 0);
            match r1 {
                Err(e) => (s1, Err(e)),
                Ok(ty) => if s1.bound(w) {
                    assign(s1, Ty::Var(Mutability::Mutable, w), ty, 0, 0)
                } else if ty.mentions(w) {
                    (s1, Err(TypeError::RecursiveType))
                } else {
                    (s1.bind(w, ty), Ok(()))
                },
            }
        },
    }
}

impl Checker {
    /// Attempts the judgment `ctr` once.
    pub fn solve(&mut self, ctr: Constraint) -> (r: Result<(), TypeError>)
        requires
            old(self).wf(),
            ctr@.vars_below(old(self)@.next_var),
        ensures
            final(self).wf(),
            (final(self)@, r) == discharge(old(self)@, ctr@),
            final(self)@.context == old(self)@.context,
            old(self)@.next_var <= final(self)@.next_var,
    {
        match ctr {
            Constraint::FromLit(lit, ty) => self.solve_from_lit(lit, ty),
            Constraint::Assignable(into, from) => self.check_assignable(into, from),
            Constraint::Instantiate(vars, w, orig) => {
                let waits = match &orig {
                    Type::Var(_, v) => self.binding(*v).is_none(),
                    _ => false,
                };
                if waits {
                    self.defer(Constraint::Instantiate(vars, w, orig));
                    Ok(())
                } else {
                    let ty = match self.inst_ty(orig, &vars) {
                        Ok(ty) => ty,
                        Err(e) => {
                            return Err(e);
                        },
                    };
                    proof {
                        lemma_var_below(Mutability::Mutable, w.0, self@.next_var);
                    }
                    if self.binding(w).is_some() {
                        self.check_assignable(Type::Var(Mutability::Mutable, w), ty)
                    } else if self.occurs(&w, &ty) {
                        Err(TypeError::RecursiveType)
                    } else {
                        self.bind_var(w, ty);
                        Ok(())
                    }
                }
            },
        }
    }

    /// Holds `lit` against `ty`.
    pub fn solve_from_lit(&mut self, lit: Literal, ty: Type) -> (r: Result<(), TypeError>)
        requires
            old(self).wf(),
            ty@.vars_below(old(self)@.next_var),
        ensures
            final(self).wf(),
            (final(self)@, r) == conforms(old(self)@, lit@, ty@, 0),
            final(self)@.context == old(self)@.context,
            final(self)@.next_var == old(self)@.next_var,
    {
        self.conform_after(lit, ty, 0)
    }

    /// [`Checker::solve_from_lit`] on a path that has already looked through
    /// some bindings.
    fn conform_after(&mut self, lit: Literal, ty: Type, hops: usize) -> (r: Result<
        (),
        TypeError,
    >)
        requires
            old(self).wf(),
            ty@.vars_below(old(self)@.next_var),
        ensures
            final(self).wf(),
            (final(self)@, r) == conforms(old(self)@, lit@, ty@, hops as nat),
            final(self)@.context == old(self)@.context,
            final(self)@.next_var == old(self)@.next_var,
        decreases room(hops as nat),
    {
        match (lit, ty) {
            (Literal::Boolean(_), Type::Bool) => Ok(()),
            (Literal::Integer(val), Type::Range(lo, hi)) => {
                if lo <= val && val < hi {
                    Ok(())
                } else {
                    Err(TypeError::LiteralConformance)
                }
            },
            (Literal::Regex(_), Type::Regex) => Ok(()),
            (Literal::String(val), Type::String(pat)) => {
                if pat.is_match(val.as_str()) {
                    Ok(())
                } else {
                    Err(TypeError::LiteralConformance)
                }
            },
            (lit, Type::Var(mutability, v)) => {
                if let Some(bound) = self.binding(v) {
                    let bound = bound.clone();
                    if !self.may_follow(hops) {
                        return Err(TypeError::RecursiveType);
                    }
                    self.conform_after(lit, bound, hops + 1)
                } else {
                    self.defer(Constraint::FromLit(lit, Type::Var(mutability, v)));
                    Ok(())
                }
            },
            _ => Err(TypeError::LiteralConformance),
        }
    }
}

} // verus!
