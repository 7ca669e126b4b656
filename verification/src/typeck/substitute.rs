//! The last pass: every variable is replaced by what it stands for, and the
//! types that result are interned.

use vstd::prelude::*;
use crate::error::TypeError;
use crate::intern::ids;
use crate::mir;
use crate::model::{FinalExpr, FinalNode, FinalType, Ty, TypedExpr, TypedNode};
use crate::typeck::assign::room;
use crate::typeck::tween;
use crate::typeck::types::Type;
use crate::types as varless;
use crate::typeck::{viewed, Checker, Session};

verus! {

/// Interning never fails.
pub open spec fn interned(s: Session, ty: FinalType) -> (Session, Result<usize, TypeError>) {
    (s.intern(ty).0, Ok(s.intern(ty).1))
}

/// The identity of the final type that `ty` stands for: the session
/// afterwards and the identity.
///
/// The parts of an arrow are resolved first, the domain before the codomain,
/// and then the arrow between their identities is interned. A solved variable
/// is replaced by what it stands for, unless the path has already looked
/// through as many bindings as there are, which fails as a recursive type. An
/// unsolved variable fails.
///
/// `hops` counts the bindings looked through on the way to `ty`.
pub open spec fn resolved(s: Session, ty: Ty, hops: nat) -> (Session, Result<usize, TypeError>)
    decreases room(hops), ty,
{
    match ty {
        Ty::Bottom => interned(s, FinalType::Bottom),
        Ty::Bool => interned(s, FinalType::Bool),
        Ty::Regex => interned(s, FinalType::Regex),
        Ty::Range(lo, hi) => interned(s, FinalType::Range(lo, hi)),
        Ty::String(p) => interned(s, FinalType::String(p)),
        Ty::Arrow(a, b) => {
            let (s1, r1) = resolved(s, *a, hops);
            match r1 {
                Err(e) => (s1, Err(e)),
                Ok(from) => {
                    let (s2, r2) = resolved(s1, *b, hops);
                    match r2 {
                        Err(e) => (s2, Err(e)),
                        Ok(into) => interned(s2, FinalType::Arrow(from, into)),
                    }
                },
            }
        },
        Ty::Var(_, v) => if !s.bound(v) {
            (s, Err(TypeError::UnresolvedTypeVariable))
        } else if !s.may_follow(hops) {
            (s, Err(TypeError::RecursiveType))
        } else {
            resolved(s, s.subst[v], hops + 1)
        },
        Ty::Named(n) => interned(s, FinalType::Named(n)),
        Ty::Error => interned(s, FinalType::Error),
    }
}

/// The final form of an expression: its parts from left to right, then its
/// own type.
pub open spec fn finalized(s: Session, e: TypedExpr) -> (Session, Result<FinalExpr, TypeError>)
    decreases e,
{
    let (s1, r1) = finalized_node(s, e.node);
    match r1 {
        Err(err) => (s1, Err(err)),
        Ok(node) => {
            let (s2, r2) = resolved(s1, e.anno, 0);
            match r2 {
                Err(err) => (s2, Err(err)),
                Ok(id) => (s2, Ok(FinalExpr { node, anno: id })),
            }
        },
    }
}

/// The final form of a node: the final forms of its parts, from left to
/// right.
pub open spec fn finalized_node(s: Session, node: TypedNode) -> (
    Session,
    Result<FinalNode, TypeError>,
)
    decreases node,
{
    match node {
        TypedNode::Fun(pat, body) => {
            let (s1, r1) = finalized(s, *body);
            match r1 {
                Err(err) => (s1, Err(err)),
                Ok(b) => (s1, Ok(FinalNode::Fun(pat, Box::new(b)))),
            }
        },
        TypedNode::Let { pat, bound, then, elze } => {
            let (s1, r1) = finalized(s, *bound);
            match r1 {
                Err(err) => (s1, Err(err)),
                Ok(b) => {
                    let (s2, r2) = finalized(s1, *then);
                    match r2 {
                        Err(err) => (s2, Err(err)),
                        Ok(t) => {
                            let (s3, r3) = finalized(s2, *elze);
                            match r3 {
                                Err(err) => (s3, Err(err)),
                                Ok(z) => (
                                    s3,
                                    Ok(
                                        FinalNode::Let {
                                            pat,
                                            bound: Box::new(b),
                                            then: Box::new(t),
                                            elze: Box::new(z),
                                        },
                                    ),
                                ),
                            }
                        },
                    }
                },
            }
        },
        TypedNode::Call(func, arg) => {
            let (s1, r1) = finalized(s, *func);
            match r1 {
                Err(err) => (s1, Err(err)),
                Ok(f) => {
                    let (s2, r2) = finalized(s1, *arg);
                    match r2 {
                        Err(err) => (s2, Err(err)),
                        Ok(a) => (s2, Ok(FinalNode::Call(Box::new(f), Box::new(a)))),
                    }
                },
            }
        },
        TypedNode::Lit(l) => (s, Ok(FinalNode::Lit(l))),
        TypedNode::Name(n) => (s, Ok(FinalNode::Name(n))),
        TypedNode::Instantiated(n) => (s, Ok(FinalNode::Instantiated(n))),
        TypedNode::Impossible => (s, Ok(FinalNode::Impossible)),
        TypedNode::Invalid => (s, Ok(FinalNode::Invalid)),
    }
}

/// Type identities that are among some identities are among more.
pub proof fn lemma_typed_within_grows(e: FinalExpr, small: Set<usize>, big: Set<usize>)
    requires
        e.typed_within(small),
        small.subset_of(big),
    ensures
        e.typed_within(big),
    decreases e,
{
    match e.node {
        FinalNode::Fun(_, body) => {
            lemma_typed_within_grows(*body, small, big);
        },
        FinalNode::Let { pat, bound, then, elze } => {
            lemma_typed_within_grows(*bound, small, big);
            lemma_typed_within_grows(*then, small, big);
            lemma_typed_within_grows(*elze, small, big);
        },
        FinalNode::Tuple(items) => {
            assert forall|i: int| 0 <= i < items.len() implies (#[trigger] items[i]).typed_within(
                big,
            ) by {
                lemma_typed_within_grows(items[i], small, big);
            }
        },
        FinalNode::Call(func, arg) => {
            lemma_typed_within_grows(*func, small, big);
            lemma_typed_within_grows(*arg, small, big);
        },
        _ => {},
    }
}

/// A longer store has the identities of a shorter one.
pub proof fn lemma_ids_grow(small: Seq<FinalType>, big: Seq<FinalType>)
    requires
        small.is_prefix_of(big),
    ensures
        ids(small).subset_of(ids(big)),
{
}

impl Checker {
    /// The final form of `expr`.
    pub fn substitute(&mut self, expr: tween::Expr) -> (r: Result<mir::Expr, TypeError>)
        requires
            old(self).wf(),
        ensures
            final(self).wf(),
            (final(self)@, viewed(r)) == finalized(old(self)@, expr@),
            old(self)@.same_but_store(final(self)@),
            old(self)@.store.is_prefix_of(final(self)@.store),
            r matches Ok(e) ==> e@.typed_within(ids(final(self)@.store)),
        decreases expr,
    {
        let ghost s0 = self@.store;
        let ghost mut s1 = self@.store;
        let ghost mut s2 = self@.store;
        let ghost mut s3 = self@.store;
        let node = match expr.node {
            tween::ExprNode::Fun(pat, body) => {
                let pat = self.subst_pat(pat);
                let body = match self.substitute(*body) {
                    Ok(b) => b,
                    Err(e) => {
                        return Err(e);
                    },
                };
                proof {
                    s1 = self@.store;
                    s2 = s1;
                    s3 = s1;
                }
                mir::ExprNode::Fun(pat, Box::new(body))
            },
            tween::ExprNode::Let { pat, bound, then, elze } => {
                let pat = self.subst_pat(pat);
                let bound = match self.substitute(*bound) {
                    Ok(b) => b,
                    Err(e) => {
                        return Err(e);
                    },
                };
                proof {
                    s1 = self@.store;
                }
                let then = match self.substitute(*then) {
                    Ok(t) => t,
                    Err(e) => {
                        return Err(e);
                    },
                };
                proof {
                    s2 = self@.store;
                }
                let elze = match self.substitute(*elze) {
                    Ok(z) => z,
                    Err(e) => {
                        return Err(e);
                    },
                };
                proof {
                    s3 = self@.store;
                }
                mir::ExprNode::Let {
                    pat,
                    bound: Box::new(bound),
                    then: Box::new(then),
                    elze: Box::new(elze),
                }
            },
            tween::ExprNode::Call(func, arg) => {
                let func = match self.substitute(*func) {
                    Ok(f) => f,
                    Err(e) => {
                        return Err(e);
                    },
                };
                proof {
                    s1 = self@.store;
                }
                let arg = match self.substitute(*arg) {
                    Ok(a) => a,
                    Err(e) => {
                        return Err(e);
                    },
                };
                proof {
                    s2 = self@.store;
                    s3 = s2;
                }
                mir::ExprNode::Call(Box::new(func), Box::new(arg))
            },
            tween::ExprNode::Lit(lit) => mir::ExprNode::Lit(lit),
            tween::ExprNode::Name(name) => mir::ExprNode::Name(name),
            tween::ExprNode::Instantiated(name) => mir::ExprNode::Instantiated(name),
            tween::ExprNode::Impossible => mir::ExprNode::Impossible,
            tween::ExprNode::Invalid => mir::ExprNode::Invalid,
        };
        match self.subst_type(expr.anno) {
            Ok(anno) => {
                proof {
                    let all = ids(self@.store);
                    lemma_ids_grow(s1, self@.store);
                    lemma_ids_grow(s2, self@.store);
                    lemma_ids_grow(s3, self@.store);
                    match node@ {
                        FinalNode::Fun(_, body) => {
                            lemma_typed_within_grows(*body, ids(s1), all);
                        },
                        FinalNode::Let { pat, bound, then, elze } => {
                            lemma_typed_within_grows(*bound, ids(s1), all);
                            lemma_typed_within_grows(*then, ids(s2), all);
                            lemma_typed_within_grows(*elze, ids(s3), all);
                        },
                        FinalNode::Call(func, arg) => {
                            lemma_typed_within_grows(*func, ids(s1), all);
                            lemma_typed_within_grows(*arg, ids(s2), all);
                        },
                        _ => {},
                    }
                }
                Ok(mir::Expr { node, anno })
            },
            Err(e) => Err(e),
        }
    }

    /// The identity of the final type that `ty` stands for.
    pub fn subst_type(&mut self, ty: Type) -> (r: Result<varless::TypeId, TypeError>)
        requires
            old(self).wf(),
        ensures
            final(self).wf(),
            (final(self)@, viewed(r)) == resolved(old(self)@, ty@, 0),
            old(self)@.same_but_store(final(self)@),
            old(self)@.store.is_prefix_of(final(self)@.store),
            r matches Ok(id) ==> id.0 < final(self)@.store.len(),
    {
        self.resolve_after(ty, 0)
    }

    /// [`Checker::subst_type`] on a path that has already looked through
    /// some bindings.
    fn resolve_after(&mut self, ty: Type, hops: usize) -> (r: Result<
        varless::TypeId,
        TypeError,
    >)
        requires
            old(self).wf(),
        ensures
            final(self).wf(),
            (final(self)@, viewed(r)) == resolved(old(self)@, ty@, hops as nat),
            old(self)@.same_but_store(final(self)@),
            old(self)@.store.is_prefix_of(final(self)@.store),
            r matches Ok(id) ==> id.0 < final(self)@.store.len(),
        decreases room(hops as nat), ty,
    {
        let ty = match ty {
            Type::Bottom => varless::Type::Bottom,
            Type::Bool => varless::Type::Bool,
            Type::Regex => varless::Type::Regex,
            Type::Range(lo, hi) => varless::Type::Range(lo, hi),
            Type::String(pat) => varless::Type::String(pat),
            Type::Arrow(from, into) => {
                let from = match self.resolve_after(*from, hops) {
                    Ok(id) => id,
                    Err(e) => {
                        return Err(e);
                    },
                };
                let into = match self.resolve_after(*into, hops) {
                    Ok(id) => id,
                    Err(e) => {
                        return Err(e);
                    },
                };
                varless::Type::Arrow(from, into)
            },
            Type::Var(_, v) => {
                let bound = match self.binding(v) {
                    Some(bound) => bound.clone(),
                    None => {
                        return Err(TypeError::UnresolvedTypeVariable);
                    },
                };
                if !self.may_follow(hops) {
                    return Err(TypeError::RecursiveType);
                }
                return self.resolve_after(bound, hops + 1);
            },
            Type::Named(name) => varless::Type::Named(name),
            Type::Error => varless::Type::Error,
        };
        let ghost before = self@;
        let id = self.lower.intern(ty);
        proof {
            crate::typeck::scope::lemma_store_scoped(before, self@);
        }
        Ok(id)
    }

    /// The pattern in the form that the final tree holds.
    pub fn subst_pat(&self, pat: tween::Pat) -> (r: mir::Pat)
        ensures
            r@ == pat@,
        decreases pat,
    {
        match pat {
            tween::Pat::Constructor(name) => mir::Pat::Constructor(name),
            tween::Pat::Bind(name) => mir::Pat::Bind(name),
            tween::Pat::Apply(ctr, arg) => {
                let ctr = Box::new(self.subst_pat(*ctr));
                let arg = Box::new(self.subst_pat(*arg));
                mir::Pat::Apply(ctr, arg)
            },
            tween::Pat::Lit(lit) => mir::Pat::Lit(lit),
            tween::Pat::Wildcard => mir::Pat::Wildcard,
        }
    }
}

} // verus!
