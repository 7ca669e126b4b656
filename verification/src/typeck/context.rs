//! Declared types and their instances.

use vstd::prelude::*;
use crate::error::TypeError;
use crate::hir::Name;
use crate::model::{all_below, lookup, put, Named, Obligation, Scheme, Ty};
use crate::names::{bind, clone_names, find, named, names};
use crate::typeck::assign::room;
use crate::typeck::solve::Constraint;
use crate::typeck::tween::Mutability;
use crate::typeck::types::Type;
use crate::typeck::scope::{
    lemma_all_below_grows, lemma_arrow_below, lemma_lookup_below, lemma_put_all_below,
    lemma_var_below,
};
use crate::typeck::{viewed, Checker, Session};

verus! {

/// The declared type of a name: the names of its type parameters and the
/// type in which they occur.
#[derive(Debug, PartialEq, Eq)]
pub struct Template {
    pub params: Vec<Name>,
    pub uninst: Type,
}

impl View for Template {
    type V = Scheme;

    open spec fn view(&self) -> Scheme {
        Scheme { params: names(self.params@), uninst: self.uninst@ }
    }
}

impl Clone for Template {
    fn clone(&self) -> (r: Self)
        ensures
            r@ == self@,
    {
        Template { params: clone_names(&self.params), uninst: self.uninst.clone() }
    }
}

impl Template {
    /// The template without type parameters.
    pub fn mono(ty: Type) -> (r: Self)
        ensures
            r@ == (Scheme { params: Seq::empty(), uninst: ty@ }),
    {
        let r = Template { params: Vec::new(), uninst: ty };
        assert(r@.params =~= Seq::empty());
        r
    }
}

/// A copy of the named types.
pub fn clone_vars(v: &Vec<(Name, Type)>) -> (r: Vec<(Name, Type)>)
    ensures
        r@ == v@,
{
    let mut r: Vec<(Name, Type)> = Vec::new();
    let mut i: usize = 0;
    while i < v.len()
        invariant
            i <= v.len(),
            r@ == v@.take(i as int),
        decreases v.len() - i,
    {
        r.push((v[i].0.clone(), v[i].1.clone()));
        assert(r@ =~= v@.take(i + 1));
        i = i + 1;
    }
    assert(v@.take(v.len() as int) =~= v@);
    r
}

/// The instance of `ty` under `vars`: the session afterwards and the
/// instance.
///
/// A parameter name that `vars` binds becomes what it is bound to. A solved
/// variable becomes the instance of what it stands for, unless the path has
/// already looked through as many bindings as there are, which fails as a
/// recursive type. An unsolved variable becomes a fresh mutable variable, and
/// the judgment that this one must become the instance of the other, once
/// that is solved, is deferred.
///
/// `hops` counts the bindings looked through on the way to `ty`.
pub open spec fn inst(s: Session, ty: Ty, vars: Named<Ty>, hops: nat) -> (
    Session,
    Result<Ty, TypeError>,
)
    decreases room(hops), ty,
{
    match ty {
        Ty::Var(_, v) => if s.bound(v) {
            if s.may_follow(hops) {
                inst(s, s.subst[v], vars, hops + 1)
            } else {
                (s, Err(TypeError::RecursiveType))
            }
        } else {
            let (s1, r1) = s.fresh();
            match r1 {
                Err(e) => (s1, Err(e)),
                Ok(w) => (
                    s1.defer(Obligation::Instantiate(vars, w, ty)),
                    Ok(Ty::Var(Mutability::Mutable, w)),
                ),
            }
        },
        Ty::Named(n) => match lookup(vars, n) {
            Some(t) => (s, Ok(t)),
            None => (s, Ok(ty)),
        },
        Ty::Arrow(a, b) => {
            let (s1, r1) = inst(s, *a, vars, hops);
            match r1 {
                Err(e) => (s1, Err(e)),
                Ok(from) => {
                    let (s2, r2) = inst(s1, *b, vars, hops);
                    match r2 {
                        Err(e) => (s2, Err(e)),
                        Ok(into) => (s2, Ok(Ty::Arrow(Box::new(from), Box::new(into)))),
                    }
                },
            }
        },
        _ => (s, Ok(ty)),
    }
}

/// Binding each of `params`, in order, to a fresh mutable variable, on top
/// of `vars`.
pub open spec fn fresh_params(s: Session, params: Seq<Seq<char>>, vars: Named<Ty>) -> (
    Session,
    Result<Named<Ty>, TypeError>,
)
    decreases params.len(),
{
    if params.len() == 0 {
        (s, Ok(vars))
    } else {
        let (s1, r1) = s.fresh();
        match r1 {
            Err(e) => (s1, Err(e)),
            Ok(v) => fresh_params(
                s1,
                params.drop_first(),
                put(vars, params[0], Ty::Var(Mutability::Mutable, v)),
            ),
        }
    }
}

/// A fresh instance of a declared type: each of its parameters stands for a
/// variable of its own.
pub open spec fn instance(s: Session, scheme: Scheme) -> (Session, Result<Ty, TypeError>) {
    let (s1, r1) = fresh_params(s, scheme.params, Seq::empty());
    match r1 {
        Err(e) => (s1, Err(e)),
        Ok(vars) => inst(s1, scheme.uninst, vars, 0),
    }
}

impl Checker {
    /// A fresh instance of `ty`.
    pub fn instantiate(&mut self, ty: &Template) -> (r: Result<Type, TypeError>)
        requires
            old(self).wf(),
            ty@.uninst.vars_below(old(self)@.next_var),
        ensures
            final(self).wf(),
            (final(self)@, viewed(r)) == instance(old(self)@, ty@),
            final(self)@.context == old(self)@.context,
            final(self)@.subst == old(self)@.subst,
            old(self)@.next_var <= final(self)@.next_var,
            r matches Ok(t) ==> t@.vars_below(final(self)@.next_var),
            r matches Ok(t) ==> forall|v: usize|
                t@.mentions(v) ==> old(self)@.next_var <= v && !old(self)@.bound(v),
    {
        proof {
            crate::laws::lemma_instance_is_fresh(self@, ty@);
            assert forall|v: usize| old(self)@.next_var <= v implies !old(self)@.bound(v) by {}
        }
        let mut vars: Vec<(Name, Type)> = Vec::new();
        let mut i: usize = 0;
        assert(named(vars@) =~= Seq::empty());
        assert(ty@.params.skip(0) =~= ty@.params);
        while i < ty.params.len()
            invariant
                i <= ty.params.len(),
                self.wf(),
                self@.context == old(self)@.context,
                self@.subst == old(self)@.subst,
                old(self)@.next_var <= self@.next_var,
                all_below(named(vars@), self@.next_var),
                ty@.uninst.vars_below(self@.next_var),
                fresh_params(self@, ty@.params.skip(i as int), named(vars@)) == fresh_params(
                    old(self)@,
                    ty@.params,
                    Seq::empty(),
                ),
            decreases ty.params.len() - i,
        {
            let ghost before = self@;
            let ghost rest = ty@.params.skip(i as int);
            assert(rest.len() > 0);
            assert(rest[0] == ty.params[i as int]@);
            assert(rest.drop_first() =~= ty@.params.skip(i + 1));
            let v = match self.fresh_tyvar() {
                Ok(v) => v,
                Err(e) => {
                    return Err(e);
                },
            };
            proof {
                lemma_all_below_grows(named(vars@), before.next_var, self@.next_var);
                lemma_var_below(Mutability::Mutable, v.0, self@.next_var);
                lemma_put_all_below(
                    named(vars@),
                    ty.params[i as int]@,
                    Ty::Var(Mutability::Mutable, v.0),
                    self@.next_var,
                );
            }
            bind(&mut vars, ty.params[i].clone(), Type::Var(Mutability::Mutable, v));
            i = i + 1;
        }
        assert(ty@.params.skip(i as int).len() == 0);
        self.inst_after(ty.uninst.clone(), &vars, 0)
    }

    /// The instance of `ty` under `vars`.
    pub fn inst_ty(&mut self, ty: Type, vars: &Vec<(Name, Type)>) -> (r: Result<Type, TypeError>)
        requires
            old(self).wf(),
            ty@.vars_below(old(self)@.next_var),
            all_below(named(vars@), old(self)@.next_var),
        ensures
            final(self).wf(),
            (final(self)@, viewed(r)) == inst(old(self)@, ty@, named(vars@), 0),
            final(self)@.context == old(self)@.context,
            final(self)@.subst == old(self)@.subst,
            old(self)@.next_var <= final(self)@.next_var,
            r matches Ok(t) ==> t@.vars_below(final(self)@.next_var),
    {
        self.inst_after(ty, vars, 0)
    }

    /// [`Checker::inst_ty`] on a path that has already looked through some
    /// bindings.
    fn inst_after(&mut self, ty: Type, vars: &Vec<(Name, Type)>, hops: usize) -> (r: Result<
        Type,
        TypeError,
    >)
        requires
            old(self).wf(),
            ty@.vars_below(old(self)@.next_var),
            all_below(named(vars@), old(self)@.next_var),
        ensures
            final(self).wf(),
            (final(self)@, viewed(r)) == inst(old(self)@, ty@, named(vars@), hops as nat),
            final(self)@.context == old(self)@.context,
            final(self)@.subst == old(self)@.subst,
            old(self)@.next_var <= final(self)@.next_var,
            r matches Ok(t) ==> t@.vars_below(final(self)@.next_var),
        decreases room(hops as nat), ty,
    {
        proof {
            if ty@ is Arrow {
                lemma_arrow_below(*ty@->Arrow_0, *ty@->Arrow_1, self@.next_var);
            }
            if let Ty::Named(n) = ty@ {
                lemma_lookup_below(named(vars@), n, self@.next_var);
            }
        }
        let ghost start = self@.next_var;
        match ty {
            Type::Var(mutability, v) => {
                if let Some(bound) = self.binding(v) {
                    let bound = bound.clone();
                    if !self.may_follow(hops) {
                        return Err(TypeError::RecursiveType);
                    }
                    self.inst_after(bound, vars, hops + 1)
                } else {
                    let w = match self.fresh_tyvar() {
                        Ok(w) => w,
                        Err(e) => {
                            return Err(e);
                        },
                    };
                    proof {
                        lemma_all_below_grows(named(vars@), start, self@.next_var);
                        lemma_var_below(Mutability::Mutable, w.0, self@.next_var);
                    }
                    self.defer(Constraint::Instantiate(clone_vars(vars), w, Type::Var(mutability, v)));
                    Ok(Type::Var(Mutability::Mutable, w))
                }
            },
            Type::Named(name) => match find(vars, &name) {
                Some(t) => Ok(t.clone()),
                None => Ok(Type::Named(name)),
            },
            Type::Arrow(from, into) => {
                let from = match self.inst_after(*from, vars, hops) {
                    Ok(t) => t,
                    Err(e) => {
                        return Err(e);
                    },
                };
                proof {
                    lemma_all_below_grows(named(vars@), start, self@.next_var);
                }
                let into = match self.inst_after(*into, vars, hops) {
                    Ok(t) => t,
                    Err(e) => {
                        return Err(e);
                    },
                };
                proof {
                    lemma_arrow_below(from@, into@, self@.next_var);
                }
                Ok(Type::Arrow(Box::new(from), Box::new(into)))
            },
            other => Ok(other),
        }
    }
}

} // verus!
