//! Checking mode: an expression is held against the type expected of it.

use vstd::prelude::*;
use crate::error::TypeError;
use crate::hir;
use crate::mir::Literal;
use crate::model::{lookup, Lit, Obligation, SurfaceExpr, Ty, TypedExpr, TypedNode};
use crate::typeck::assign::{as_fun, assign};
use crate::typeck::bind::bind_pattern;
use crate::typeck::context::instance;
use crate::typeck::lower::lowered;
use crate::typeck::tween;
use crate::typeck::tween::Mutability;
use crate::typeck::types::Type;
use crate::typeck::{viewed, Checker, Session};

verus! {

/// Checking `e` against the expected type `ty`: the session afterwards and
/// the expression with its types.
///
/// A function splits `ty` into domain and codomain, matches its pattern
/// against the domain and checks its body against the codomain. A `Let`
/// infers the bound expression, matches the pattern against its type and
/// checks both branches against `ty`. An integer or a string literal defers
/// the judgment that it belongs to `ty`. Everything else is inferred, and its
/// type must be assignable to `ty`.
pub open spec fn check(s: Session, e: SurfaceExpr, ty: Ty) -> (Session, Result<TypedExpr, TypeError>)
    decreases e, 1nat,
{
    match e {
        SurfaceExpr::Fun(pat, body) => {
            let (s1, r1) = as_fun(s, ty);
            match r1 {
                Err(err) => (s1, Err(err)),
                Ok((dom, cod)) => {
                    let (s2, r2) = bind_pattern(s1, pat, dom);
                    match r2 {
                        Err(err) => (s2, Err(err)),
                        Ok(p) => {
                            let (s3, r3) = check(s2, *body, cod);
                            match r3 {
                                Err(err) => (s3, Err(err)),
                                Ok(b) => (
                                    s3,
                                    Ok(TypedExpr { node: TypedNode::Fun(p, Box::new(b)), anno: ty }),
                                ),
                            }
                        },
                    }
                },
            }
        },
        SurfaceExpr::Let { pat, bound, then, elze } => {
            let (s1, r1) = infer(s, *bound);
            match r1 {
                Err(err) => (s1, Err(err)),
                Ok(b) => {
                    let (s2, r2) = bind_pattern(s1, pat, b.anno);
                    match r2 {
                        Err(err) => (s2, Err(err)),
                        Ok(p) => {
                            let (s3, r3) = check(s2, *then, ty);
                            match r3 {
                                Err(err) => (s3, Err(err)),
                                Ok(t) => {
                                    let (s4, r4) = check(s3, *elze, ty);
                                    match r4 {
                                        Err(err) => (s4, Err(err)),
                                        Ok(z) => (
                                            s4,
                                            Ok(
                                                TypedExpr {
                                                    node: TypedNode::Let {
                                                        pat: p,
                                                        bound: Box::new(b),
                                                        then: Box::new(t),
                                                        elze: Box::new(z),
                                                    },
                                                    anno: ty,
                                                },
                                            ),
                                        ),
                                    }
                                },
                            }
                        },
                    }
                },
            }
        },
        SurfaceExpr::Lit(Lit::Integer(v)) => (
            s.defer(Obligation::FromLit(Lit::Integer(v), ty)),
            Ok(TypedExpr { node: TypedNode::Lit(Lit::Integer(v)), anno: ty }),
        ),
        SurfaceExpr::Lit(Lit::String(v)) => (
            s.defer(Obligation::FromLit(Lit::String(v), ty)),
            Ok(TypedExpr { node: TypedNode::Lit(Lit::String(v)), anno: ty }),
        ),
        _ => {
            let (s1, r1) = infer(s, e);
            match r1 {
                Err(err) => (s1, Err(err)),
                Ok(t) => {
                    let (s2, r2) = assign(s1, ty, t.anno, 0, 0);
                    match r2 {
                        Err(err) => (s2, Err(err)),
                        Ok(_) => (s2, Ok(t)),
                    }
                },
            }
        },
    }
}

/// Inferring the type of `e`: the session afterwards and the expression with
/// its types.
///
/// An annotated expression is checked against its annotation, in which each
/// wildcard is a fresh mutable variable. A `Let` infers the bound expression,
/// matches the pattern against its type, infers the first branch and checks
/// the second against the type of the first, which is the type of the whole.
/// A call infers the function, splits its type into domain and codomain and
/// checks the argument against the domain; the codomain is the type of the
/// call. A truth value is a `Bool` and a regular expression a `Regex`. A name
/// in scope has a fresh instance of its declared type; a name that is not in
/// scope is an invalid expression of the error type. `Impossible` has the
/// bottom type and an invalid expression the error type. There is no rule for
/// a function or for an integer or string literal.
pub open spec fn infer(s: Session, e: SurfaceExpr) -> (Session, Result<TypedExpr, TypeError>)
    decreases e, 0nat,
{
    match e {
        SurfaceExpr::Anno(inner, anno) => {
            let (s1, r1) = lowered(s, anno, Mutability::Mutable);
            match r1 {
                Err(err) => (s1, Err(err)),
                Ok(ty) => check(s1, *inner, ty),
            }
        },
        SurfaceExpr::Let { pat, bound, then, elze } => {
            let (s1, r1) = infer(s, *bound);
            match r1 {
                Err(err) => (s1, Err(err)),
                Ok(b) => {
                    let (s2, r2) = bind_pattern(s1, pat, b.anno);
                    match r2 {
                        Err(err) => (s2, Err(err)),
                        Ok(p) => {
                            let (s3, r3) = infer(s2, *then);
                            match r3 {
                                Err(err) => (s3, Err(err)),
                                Ok(t) => {
                                    let (s4, r4) = check(s3, *elze, t.anno);
                                    match r4 {
                                        Err(err) => (s4, Err(err)),
                                        Ok(z) => (
                                            s4,
                                            Ok(
                                                TypedExpr {
                                                    node: TypedNode::Let {
                                                        pat: p,
                                                        bound: Box::new(b),
                                                        then: Box::new(t),
                                                        elze: Box::new(z),
                                                    },
                                                    anno: t.anno,
                                                },
                                            ),
                                        ),
                                    }
                                },
                            }
                        },
                    }
                },
            }
        },
        SurfaceExpr::Call(func, arg) => {
            let (s1, r1) = infer(s, *func);
            match r1 {
                Err(err) => (s1, Err(err)),
                Ok(f) => {
                    let (s2, r2) = as_fun(s1, f.anno);
                    match r2 {
                        Err(err) => (s2, Err(err)),
                        Ok((dom, cod)) => {
                            let (s3, r3) = check(s2, *arg, dom);
                            match r3 {
                                Err(err) => (s3, Err(err)),
                                Ok(a) => (
                                    s3,
                                    Ok(
                                        TypedExpr {
                                            node: TypedNode::Call(Box::new(f), Box::new(a)),
                                            anno: cod,
                                        },
                                    ),
                                ),
                            }
                        },
                    }
                },
            }
        },
        SurfaceExpr::Lit(Lit::Boolean(v)) => (
            s,
            Ok(TypedExpr { node: TypedNode::Lit(Lit::Boolean(v)), anno: Ty::Bool }),
        ),
        SurfaceExpr::Lit(Lit::Regex(v)) => (
            s,
            Ok(TypedExpr { node: TypedNode::Lit(Lit::Regex(v)), anno: Ty::Regex }),
        ),
        SurfaceExpr::Name(n) => match lookup(s.context, n) {
            Some(scheme) => {
                let (s1, r1) = instance(s, scheme);
                match r1 {
                    Err(err) => (s1, Err(err)),
                    Ok(ty) => (s1, Ok(TypedExpr { node: TypedNode::Name(n), anno: ty })),
                }
            },
            None => (s, Ok(TypedExpr { node: TypedNode::Invalid, anno: Ty::Error })),
        },
        SurfaceExpr::Impossible => (
            s,
            Ok(TypedExpr { node: TypedNode::Impossible, anno: Ty::Bottom }),
        ),
        SurfaceExpr::Invalid => (s, Ok(TypedExpr { node: TypedNode::Invalid, anno: Ty::Error })),
        _ => (s, Err(TypeError::AmbiguousExpression)),
    }
}

impl Checker {
    /// Checks `expr` against the expected type `ty`.
    pub fn check_expr(&mut self, expr: hir::Expr, ty: Type) -> (r: Result<tween::Expr, TypeError>)
        requires
            old(self).wf(),
            ty@.vars_below(old(self)@.next_var),
        ensures
            final(self).wf(),
            (final(self)@, viewed(r)) == check(old(self)@, expr@, ty@),
            old(self)@.names_kept(final(self)@),
            old(self)@.next_var <= final(self)@.next_var,
            r matches Ok(e) ==> e.anno@.vars_below(final(self)@.next_var),
        decreases expr, 1nat,
    {
        match expr {
            hir::Expr::Fun(bind, body) => {
                let (bind_ty, body_ty) = match self.as_fun_ty(ty.clone()) {
                    Ok(parts) => parts,
                    Err(e) => {
                        return Err(e);
                    },
                };
                let bind = match self.bind(bind, bind_ty) {
                    Ok(p) => p,
                    Err(e) => {
                        return Err(e);
                    },
                };
                let body = match self.check_expr(*body, body_ty) {
                    Ok(b) => b,
                    Err(e) => {
                        return Err(e);
                    },
                };
                Ok(tween::Expr { node: tween::ExprNode::Fun(bind, Box::new(body)), anno: ty })
            },
            hir::Expr::Let { pat, bound, then, elze } => {
                let bound = match self.infer_expr(*bound) {
                    Ok(b) => b,
                    Err(e) => {
                        return Err(e);
                    },
                };
                let pat = match self.bind(pat, bound.anno.clone()) {
                    Ok(p) => p,
                    Err(e) => {
                        return Err(e);
                    },
                };
                let then = match self.check_expr(*then, ty.clone()) {
                    Ok(t) => t,
                    Err(e) => {
                        return Err(e);
                    },
                };
                let elze = match self.check_expr(*elze, ty.clone()) {
                    Ok(z) => z,
                    Err(e) => {
                        return Err(e);
                    },
                };
                Ok(
                    tween::Expr {
                        node: tween::ExprNode::Let {
                            pat,
                            bound: Box::new(bound),
                            then: Box::new(then),
                            elze: Box::new(elze),
                        },
                        anno: ty,
                    },
                )
            },
            hir::Expr::Lit(hir::Literal::Integer(v)) => {
                self.check_lit(Literal::Integer(v), ty.clone());
                Ok(tween::Expr { node: tween::ExprNode::Lit(Literal::Integer(v)), anno: ty })
            },
            hir::Expr::Lit(hir::Literal::String(v)) => {
                self.check_lit(Literal::String(v.clone()), ty.clone());
                Ok(tween::Expr { node: tween::ExprNode::Lit(Literal::String(v)), anno: ty })
            },
            e => {
                let inferred = match self.infer_expr(e) {
                    Ok(t) => t,
                    Err(e) => {
                        return Err(e);
                    },
                };
                match self.check_assignable(ty, inferred.anno.clone()) {
                    Ok(()) => Ok(inferred),
                    Err(e) => Err(e),
                }
            },
        }
    }
}

} // verus!
