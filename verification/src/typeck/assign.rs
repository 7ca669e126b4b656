//! Assignability: whether a value of one type may stand where another type
//! is expected, binding type variables on the way.

use vstd::prelude::*;
use crate::error::TypeError;
use crate::mir::Literal;
use crate::model::{Obligation, Ty};
use crate::typeck::solve::Constraint;
use crate::typeck::tween::Mutability;
use crate::typeck::types::{Type, TypeVar};
use crate::typeck::scope::{lemma_arrow_below, lemma_var_below};
use crate::typeck::{viewed, Checker, Session};

verus! {

/// How many more bindings a path that has looked through `hops` of them
/// could look through at most.
pub open spec fn room(hops: nat) -> nat {
    if hops < usize::MAX {
        (usize::MAX - hops) as nat
    } else {
        0
    }
}

impl Ty {
    /// The variable, if the type is a variable tagged mutable.
    pub open spec fn mutable_var(self) -> Option<usize> {
        match self {
            Ty::Var(Mutability::Mutable, v) => Some(v),
            _ => None,
        }
    }
}

/// Checks that a value of type `from` may stand where `into` is expected.
/// The result is the session afterwards and whether the check passed. The
/// first of these that applies decides:
///
/// 1. equal types pass;
/// 2. anything accepts `Bottom`;
/// 3. two ranges, or two string types, that are not equal fail;
/// 4. a solved mutable variable, on the left or else on the right, is replaced
///    by what it stands for, unless the path has already looked through as
///    many bindings as there are, which fails as a recursive type;
/// 5. an unsolved mutable variable, on the left or else on the right, is bound
///    to the other side, unless it is written in the other side, which fails as
///    a recursive type;
/// 6. with an immutable variable on either side the judgment is deferred, and
///    passes for now;
/// 7. two arrows pass if the domain of `into` may stand where the domain of
///    `from` is expected and the codomain of `from` where that of `into` is;
/// 8. two parameter names that are not equal fail;
/// 9. the error type on either side passes;
/// 10. everything else fails.
///
/// `hops_into` and `hops_from` count the bindings looked through on the way
/// to `into` and to `from`.
pub open spec fn assign(s: Session, into: Ty, from: Ty, hops_into: nat, hops_from: nat) -> (
    Session,
    Result<(), TypeError>,
)
    decreases room(hops_into) + room(hops_from), into.size() + from.size(),
{
    let iv = into.mutable_var();
    let fv = from.mutable_var();
    if into == from {
        (s, Ok(()))
    } else if from is Bottom {
        (s, Ok(()))
    } else if into is Range && from is Range {
        (s, Err(TypeError::TypeMismatch))
    } else if into is String && from is String {
        (s, Err(TypeError::TypeMismatch))
    } else if iv is Some && s.bound(iv.unwrap()) {
        if s.may_follow(hops_into) {
            assign(s, s.subst[iv.unwrap()], from, hops_into + 1, hops_from)
        } else {
            (s, Err(TypeError::RecursiveType))
        }
    } else if fv is Some && s.bound(fv.unwrap()) {
        if s.may_follow(hops_from) {
            assign(s, into, s.subst[fv.unwrap()], hops_into, hops_from + 1)
        } else {
            (s, Err(TypeError::RecursiveType))
        }
    } else if iv is Some {
        if from.mentions(iv.unwrap()) {
            (s, Err(TypeError::RecursiveType))
        } else {
            (s.bind(iv.unwrap(), from), Ok(()))
        }
    } else if fv is Some {
        if into.mentions(fv.unwrap()) {
            (s, Err(TypeError::RecursiveType))
        } else {
            (s.bind(fv.unwrap(), into), Ok(()))
        }
    } else if into is Var || from is Var {
        (s.defer(Obligation::Assignable(into, from)), Ok(()))
    } else if into is Arrow && from is Arrow {
        let (s1, r1) = assign(s, *from->Arrow_0, *into->Arrow_0, hops_from, hops_into);
        if r1 is Err {
            (s1, r1)
        } else {
            assign(s1, *into->Arrow_1, *from->Arrow_1, hops_into, hops_from)
        }
    } else if into is Named && from is Named {
        (s, Err(TypeError::TypeMismatch))
    } else if into is Error || from is Error {
        (s, Ok(()))
    } else {
        (s, Err(TypeError::TypeMismatch))
    }
}

/// Splitting a type into domain and codomain: an arrow gives its parts; a
/// variable gives two fresh mutable variables and defers the judgment that
/// the arrow between them may stand for the variable; anything else fails.
pub open spec fn as_fun(s: Session, ty: Ty) -> (Session, Result<(Ty, Ty), TypeError>) {
    match ty {
        Ty::Arrow(a, b) => (s, Ok((*a, *b))),
        Ty::Var(_, _) => {
            let (s1, r1) = s.fresh();
            match r1 {
                Err(e) => (s1, Err(e)),
                Ok(v1) => {
                    let (s2, r2) = s1.fresh();
                    match r2 {
                        Err(e) => (s2, Err(e)),
                        Ok(v2) => {
                            let from = Ty::Var(Mutability::Mutable, v1);
                            let into = Ty::Var(Mutability::Mutable, v2);
                            let arrow = Ty::Arrow(Box::new(from), Box::new(into));
                            (s2.defer(Obligation::Assignable(arrow, ty)), Ok((from, into)))
                        },
                    }
                },
            }
        },
        _ => (s, Err(TypeError::TypeMismatch)),
    }
}

impl Type {
    /// The variable, if the type is a variable tagged mutable.
    pub fn mutable_var(&self) -> (r: Option<TypeVar>)
        ensures
            match r {
                Some(v) => self@.mutable_var() == Some(v.0),
                None => self@.mutable_var() is None,
            },
    {
        match self {
            Type::Var(Mutability::Mutable, v) => Some(*v),
            _ => None,
        }
    }
}

impl Checker {
    /// Checks that a value of type `from` may stand where `into` is expected.
    pub fn check_assignable(&mut self, into: Type, from: Type) -> (r: Result<(), TypeError>)
        requires
            old(self).wf(),
            into@.vars_below(old(self)@.next_var),
            from@.vars_below(old(self)@.next_var),
        ensures
            final(self).wf(),
            (final(self)@, r) == assign(old(self)@, into@, from@, 0, 0),
            final(self)@.context == old(self)@.context,
            final(self)@.next_var == old(self)@.next_var,
    {
        self.assign_after(into, from, 0, 0)
    }

    /// [`Checker::check_assignable`] on a path that has already looked
    /// through some bindings.
    fn assign_after(&mut self, into: Type, from: Type, hops_into: usize, hops_from: usize) -> (r:
        Result<(), TypeError>)
        requires
            old(self).wf(),
            into@.vars_below(old(self)@.next_var),
            from@.vars_below(old(self)@.next_var),
        ensures
            final(self).wf(),
            (final(self)@, r) == assign(
                old(self)@,
                into@,
                from@,
                hops_into as nat,
                hops_from as nat,
            ),
            final(self)@.context == old(self)@.context,
            final(self)@.next_var == old(self)@.next_var,
        decreases room(hops_into as nat) + room(hops_from as nat), into@.size() + from@.size(),
    {
        if into.same(&from) {
            return Ok(());
        }
        if let Type::Bottom = from {
            return Ok(());
        }
        match (&into, &from) {
            (Type::Range(_, _), Type::Range(_, _)) => {
                return Err(TypeError::TypeMismatch);
            },
            (Type::String(_), Type::String(_)) => {
                return Err(TypeError::TypeMismatch);
            },
            _ => {},
        }
        let iv = into.mutable_var();
        let fv = from.mutable_var();
        if let Some(v) = iv {
            if let Some(ty) = self.binding(v) {
                let ty = ty.clone();
                if !self.may_follow(hops_into) {
                    return Err(TypeError::RecursiveType);
                }
                return self.assign_after(ty, from, hops_into + 1, hops_from);
            }
        }
        if let Some(w) = fv {
            if let Some(ty) = self.binding(w) {
                let ty = ty.clone();
                if !self.may_follow(hops_from) {
                    return Err(TypeError::RecursiveType);
                }
                return self.assign_after(into, ty, hops_into, hops_from + 1);
            }
        }
        if let Some(v) = iv {
            if self.occurs(&v, &from) {
                return Err(TypeError::RecursiveType);
            }
            proof {
                lemma_var_below(Mutability::Mutable, v.0, self@.next_var);
            }
            self.bind_var(v, from);
            return Ok(());
        }
        if let Some(w) = fv {
            if self.occurs(&w, &into) {
                return Err(TypeError::RecursiveType);
            }
            proof {
                lemma_var_below(Mutability::Mutable, w.0, self@.next_var);
            }
            self.bind_var(w, into);
            return Ok(());
        }
        proof {
            if into@ is Arrow && from@ is Arrow {
                lemma_arrow_below(*into@->Arrow_0, *into@->Arrow_1, self@.next_var);
                lemma_arrow_below(*from@->Arrow_0, *from@->Arrow_1, self@.next_var);
            }
        }
        match (into, from) {
            (Type::Var(m, v), from) => {
                self.defer(Constraint::Assignable(Type::Var(m, v), from));
                Ok(())
            },
            (into, Type::Var(m, w)) => {
                self.defer(Constraint::Assignable(into, Type::Var(m, w)));
                Ok(())
            },
            (Type::Arrow(t1, u1), Type::Arrow(t2, u2)) => {
                match self.assign_after(*t2, *t1, hops_from, hops_into) {
                    Err(e) => Err(e),
                    Ok(()) => self.assign_after(*u1, *u2, hops_into, hops_from),
                }
            },
            (Type::Named(_), Type::Named(_)) => Err(TypeError::TypeMismatch),
            (Type::Error, _) => Ok(()),
            (_, Type::Error) => Ok(()),
            _ => Err(TypeError::TypeMismatch),
        }
    }

    /// Domain and codomain of `ty`, if it can be a function type.
    pub fn as_fun_ty(&mut self, ty: Type) -> (r: Result<(Type, Type), TypeError>)
        requires
            old(self).wf(),
            ty@.vars_below(old(self)@.next_var),
        ensures
            final(self).wf(),
            (final(self)@, viewed(r)) == as_fun(old(self)@, ty@),
            old(self)@.next_var <= final(self)@.next_var,
            r matches Ok(parts) ==> parts.0@.vars_below(final(self)@.next_var)
                && parts.1@.vars_below(final(self)@.next_var),
    {
        proof {
            if ty@ is Arrow {
                lemma_arrow_below(*ty@->Arrow_0, *ty@->Arrow_1, self@.next_var);
            }
        }
        match ty {
            Type::Arrow(from, into) => Ok((*from, *into)),
            Type::Var(m, v) => {
                let v1 = match self.fresh_tyvar() {
                    Ok(v1) => v1,
                    Err(e) => {
                        return Err(e);
                    },
                };
                let v2 = match self.fresh_tyvar() {
                    Ok(v2) => v2,
                    Err(e) => {
                        return Err(e);
                    },
                };
                let from = Type::Var(Mutability::Mutable, v1);
                let into = Type::Var(Mutability::Mutable, v2);
                let fun_ty = Type::Arrow(Box::new(from.clone()), Box::new(into.clone()));
                assert(fun_ty@ == Ty::Arrow(Box::new(from@), Box::new(into@)));
                proof {
                    lemma_var_below(Mutability::Mutable, v1.0, self@.next_var);
                    lemma_var_below(Mutability::Mutable, v2.0, self@.next_var);
                    lemma_arrow_below(from@, into@, self@.next_var);
                }
                self.defer(Constraint::Assignable(fun_ty, Type::Var(m, v)));
                Ok((from, into))
            },
            _ => Err(TypeError::TypeMismatch),
        }
    }

    /// Records that `lit` must belong to `ty`.
    pub fn check_lit(&mut self, lit: Literal, ty: Type)
        requires
            old(self).wf(),
            ty@.vars_below(old(self)@.next_var),
        ensures
            final(self).wf(),
            final(self)@ == old(self)@.defer(Obligation::FromLit(lit@, ty@)),
    {
        self.defer(Constraint::FromLit(lit, ty));
    }

    /// Whether the variable `v` is written somewhere in `ty`.
    pub fn occurs(&self, v: &TypeVar, ty: &Type) -> (r: bool)
        ensures
            r == ty@.mentions(v.0),
        decreases ty,
    {
        match ty {
            Type::Var(_, w) => v.0 == w.0,
            Type::Arrow(t, u) => self.occurs(v, &**t) || self.occurs(v, &**u),
            _ => false,
        }
    }
}

} // verus!
