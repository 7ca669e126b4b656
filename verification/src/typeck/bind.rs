//! Patterns: what a pattern brings into scope and what it asks of the type
//! it is matched against.

use vstd::prelude::*;
use crate::error::TypeError;
use crate::hir;
use crate::mir::Literal;
use crate::model::{Lit, Obligation, Pattern, Scheme, Ty};
use crate::names::lemma_put_binds;
use crate::typeck::context::Template;
use crate::typeck::tween;
use crate::typeck::types::Type;
use crate::typeck::{viewed, Checker, Session};

verus! {

/// Matching `pat` against a value of type `ty`: the session afterwards and
/// the pattern. A name is brought into scope with the type `ty`, in place of
/// what it was before; a literal defers the judgment that it belongs to `ty`;
/// a wildcard asks nothing. There is no rule for constructors and
/// applications.
pub open spec fn bind_pattern(s: Session, pat: Pattern, ty: Ty) -> (
    Session,
    Result<Pattern, TypeError>,
) {
    match pat {
        Pattern::Bind(n) => (s.declare(n, Scheme { params: Seq::empty(), uninst: ty }), Ok(pat)),
        Pattern::Lit(l) => (s.defer(Obligation::FromLit(l, ty)), Ok(pat)),
        Pattern::Wildcard => (s, Ok(pat)),
        _ => (s, Err(TypeError::UnsupportedPattern)),
    }
}

/// The literal in the form that the later trees hold.
pub fn lower_literal(lit: hir::Literal) -> (r: Literal)
    ensures
        r@ == lit@,
{
    match lit {
        hir::Literal::Boolean(v) => Literal::Boolean(v),
        hir::Literal::Integer(v) => Literal::Integer(v),
        hir::Literal::String(v) => Literal::String(v),
        hir::Literal::Regex(v) => Literal::Regex(v),
    }
}

impl Checker {
    /// Matches `pat` against a value of type `ty`.
    pub fn bind(&mut self, pat: hir::Pat, ty: Type) -> (r: Result<tween::Pat, TypeError>)
        requires
            old(self).wf(),
            ty@.vars_below(old(self)@.next_var),
        ensures
            final(self).wf(),
            (final(self)@, viewed(r)) == bind_pattern(old(self)@, pat@, ty@),
            old(self)@.names_kept(final(self)@),
            final(self)@.next_var == old(self)@.next_var,
    {
        match pat {
            hir::Pat::Bind(name) => {
                proof {
                    lemma_put_binds(
                        self@.context,
                        name@,
                        Scheme { params: Seq::empty(), uninst: ty@ },
                    );
                }
                self.declare_name(name.clone(), Template::mono(ty));
                Ok(tween::Pat::Bind(name))
            },
            hir::Pat::Lit(lit) => {
                let lit = lower_literal(lit);
                self.check_lit(lit.clone(), ty);
                Ok(tween::Pat::Lit(lit))
            },
            hir::Pat::Wildcard => Ok(tween::Pat::Wildcard),
            _ => Err(TypeError::UnsupportedPattern),
        }
    }
}

} // verus!
