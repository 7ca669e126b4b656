//! Synthesis mode: the type of an expression is found from the expression
//! alone.

use vstd::prelude::*;
use crate::error::TypeError;
use crate::hir;
use crate::mir::Literal;
use crate::typeck::check::infer;
use crate::typeck::tween;
use crate::typeck::tween::Mutability;
use crate::typeck::{viewed, Checker};

verus! {

impl Checker {
    /// Infers the type of `expr`.
    pub fn infer_expr(&mut self, expr: hir::Expr) -> (r: Result<tween::Expr, TypeError>)
        requires
            old(self).wf(),
        ensures
            final(self).wf(),
            (final(self)@, viewed(r)) == infer(old(self)@, expr@),
            old(self)@.names_kept(final(self)@),
            old(self)@.next_var <= final(self)@.next_var,
            r matches Ok(e) ==> e.anno@.vars_below(final(self)@.next_var),
        decreases expr, 0nat,
    {
        match expr {
            hir::Expr::Anno(expr, ty) => {
                let ty = match self.lower_type(&ty, Mutability::Mutable) {
                    Ok(ty) => ty,
                    Err(e) => {
                        return Err(e);
                    },
                };
                self.check_expr(*expr, ty)
            },
            hir::Expr::Let { pat, bound, then, elze } => {
                let bound = match self.infer_expr(*bound) {
                    Ok(b) => b,
                    Err(e) => {
                        return Err(e);
                    },
                };
                let pat = match self.bind(pat, bound.anno.clone()) {
                    Ok(p) => p,
                    Err(e) => {
                        return Err(e);
                    },
                };
                let then = match self.infer_expr(*then) {
                    Ok(t) => t,
                    Err(e) => {
                        return Err(e);
                    },
                };
                let elze = match self.check_expr(*elze, then.anno.clone()) {
                    Ok(z) => z,
                    Err(e) => {
                        return Err(e);
                    },
                };
                let ty = then.anno.clone();
                Ok(
                    tween::Expr {
                        node: tween::ExprNode::Let {
                            pat,
                            bound: Box::new(bound),
                            then: Box::new(then),
                            elze: Box::new(elze),
                        },
                        anno: ty,
                    },
                )
            },
            hir::Expr::Call(func, arg) => {
                let func = match self.infer_expr(*func) {
                    Ok(f) => f,
                    Err(e) => {
                        return Err(e);
                    },
                };
                let (arg_ty, ret_ty) = match self.as_fun_ty(func.anno.clone()) {
                    Ok(parts) => parts,
                    Err(e) => {
                        return Err(e);
                    },
                };
                let arg = match self.check_expr(*arg, arg_ty) {
                    Ok(a) => a,
                    Err(e) => {
                        return Err(e);
                    },
                };
                Ok(
                    tween::Expr {
                        node: tween::ExprNode::Call(Box::new(func), Box::new(arg)),
                        anno: ret_ty,
                    },
                )
            },
            hir::Expr::Lit(hir::Literal::Boolean(v)) => {
                let ty = self.boolean_type();
                Ok(tween::Expr { node: tween::ExprNode::Lit(Literal::Boolean(v)), anno: ty })
            },
            hir::Expr::Lit(hir::Literal::Regex(v)) => {
                let ty = self.regex_type();
                Ok(tween::Expr { node: tween::ExprNode::Lit(Literal::Regex(v)), anno: ty })
            },
            hir::Expr::Name(name) => {
                proof {
                    crate::typeck::scope::lemma_lookup_scoped(self@, name@);
                }
                let found = match self.lookup(&name) {
                    Some(template) => Some(template.clone()),
                    None => None,
                };
                match found {
                    Some(template) => {
                        let ty = match self.instantiate(&template) {
                            Ok(ty) => ty,
                            Err(e) => {
                                return Err(e);
                            },
                        };
                        Ok(tween::Expr { node: tween::ExprNode::Name(name), anno: ty })
                    },
                    None => {
                        let ty = self.error_type();
                        Ok(tween::Expr { node: tween::ExprNode::Invalid, anno: ty })
                    },
                }
            },
            hir::Expr::Impossible => {
                let ty = self.bottom_type();
                Ok(tween::Expr { node: tween::ExprNode::Impossible, anno: ty })
            },
            hir::Expr::Invalid => {
                let ty = self.error_type();
                Ok(tween::Expr { node: tween::ExprNode::Invalid, anno: ty })
            },
            _ => Err(TypeError::AmbiguousExpression),
        }
    }
}

} // verus!
