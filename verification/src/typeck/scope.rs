//! Which type variables are in use: in a session every variable that is
//! solved, or written in a binding, in a deferred judgment or in the type of
//! a name in scope, has been handed out by the session's counter.

use vstd::prelude::*;
use crate::model::{all_below, binds, first_at, lookup, place, put, Named, Obligation, Scheme, Ty};
use crate::typeck::tween::Mutability;
use crate::typeck::Session;

verus! {

/// The variables of an arrow are those of its parts.
pub proof fn lemma_arrow_below(a: Ty, b: Ty, n: usize)
    ensures
        Ty::Arrow(Box::new(a), Box::new(b)).vars_below(n) <==> a.vars_below(n) && b.vars_below(n),
{
    let t = Ty::Arrow(Box::new(a), Box::new(b));
    assert forall|v: usize| #[trigger] t.mentions(v) == (a.mentions(v) || b.mentions(v)) by {}
    if t.vars_below(n) {
        assert forall|v: usize| a.mentions(v) implies v < n by {
            assert(t.mentions(v));
        }
        assert forall|v: usize| b.mentions(v) implies v < n by {
            assert(t.mentions(v));
        }
    }
}

/// A variable is below a bound when its number is.
pub proof fn lemma_var_below(m: Mutability, v: usize, n: usize)
    ensures
        Ty::Var(m, v).vars_below(n) <==> v < n,
{
    let t = Ty::Var(m, v);
    assert(t.mentions(v));
}

/// Tagging the variables of a type changes none of them.
pub proof fn lemma_with_mutability_mentions(t: Ty, m: Mutability, v: usize)
    ensures
        t.with_mutability(m).mentions(v) == t.mentions(v),
    decreases t,
{
    match t {
        Ty::Arrow(a, b) => {
            lemma_with_mutability_mentions(*a, m, v);
            lemma_with_mutability_mentions(*b, m, v);
        },
        _ => {},
    }
}

/// Tagging the variables of a type keeps them below the same bound.
pub proof fn lemma_with_mutability_below(t: Ty, m: Mutability, n: usize)
    ensures
        t.with_mutability(m).vars_below(n) <==> t.vars_below(n),
{
    assert forall|v: usize| #[trigger] t.with_mutability(m).mentions(v) == t.mentions(v) by {
        lemma_with_mutability_mentions(t, m, v);
    }
    if t.vars_below(n) {
        assert forall|v: usize| t.with_mutability(m).mentions(v) implies v < n by {
            assert(t.mentions(v));
        }
    }
    if t.with_mutability(m).vars_below(n) {
        assert forall|v: usize| t.mentions(v) implies v < n by {
            assert(t.with_mutability(m).mentions(v));
        }
    }
}

/// What is below a bound is below a larger one.
pub proof fn lemma_all_below_grows(vars: Named<Ty>, n: usize, m: usize)
    requires
        all_below(vars, n),
        n <= m,
    ensures
        all_below(vars, m),
{
    assert forall|i: int| 0 <= i < vars.len() implies (#[trigger] vars[i]).1.vars_below(m) by {
        assert(vars[i].1.vars_below(n));
    }
}

/// What is below a bound is below a larger one.
pub proof fn lemma_obligation_below_grows(o: Obligation, n: usize, m: usize)
    requires
        o.vars_below(n),
        n <= m,
    ensures
        o.vars_below(m),
{
    match o {
        Obligation::Instantiate(vars, w, orig) => {
            lemma_all_below_grows(vars, n, m);
        },
        _ => {},
    }
}

/// Handing out variables keeps every variable in use handed out.
pub proof fn lemma_scope_grows(s: Session, m: usize)
    requires
        s.scoped(),
        s.next_var <= m,
    ensures
        (Session { next_var: m, ..s }).scoped(),
{
    let later = Session { next_var: m, ..s };
    assert forall|k: usize| #[trigger] later.subst.contains_key(k) implies k < m
        && later.subst[k].vars_below(m) by {
        assert(s.subst[k].vars_below(s.next_var));
    }
    assert forall|i: int| 0 <= i < later.worklist.len() implies (#[trigger] later.worklist[i]).vars_below(
        m,
    ) by {
        lemma_obligation_below_grows(s.worklist[i], s.next_var, m);
    }
    assert forall|i: int| 0 <= i < later.context.len() implies (#[trigger] later.context[i]).1.uninst.vars_below(
        m,
    ) by {
        assert(s.context[i].1.uninst.vars_below(s.next_var));
    }
}

/// Binding a name to a type below a bound keeps the named types below it.
pub proof fn lemma_put_all_below(vars: Named<Ty>, name: Seq<char>, ty: Ty, n: usize)
    requires
        all_below(vars, n),
        ty.vars_below(n),
    ensures
        all_below(put(vars, name, ty), n),
{
    let after = put(vars, name, ty);
    assert forall|i: int| 0 <= i < after.len() implies (#[trigger] after[i]).1.vars_below(n) by {
        if binds(vars, name) {
            if i != place(vars, name) {
                assert(after[i] == vars[i]);
            }
        } else {
            if i < vars.len() {
                assert(after[i] == vars[i]);
            }
        }
    }
}

/// What a name is bound to among types below a bound is below it.
pub proof fn lemma_lookup_below(vars: Named<Ty>, name: Seq<char>, n: usize)
    requires
        all_below(vars, n),
    ensures
        lookup(vars, name) matches Some(ty) ==> ty.vars_below(n),
{
    if binds(vars, name) {
        let i = place(vars, name);
        assert(first_at(vars, name, i));
        assert(vars[i].1.vars_below(n));
    }
}

/// The declared type of a name in scope has only variables in use.
pub proof fn lemma_lookup_scoped(s: Session, name: Seq<char>)
    requires
        s.scoped(),
    ensures
        lookup(s.context, name) matches Some(scheme) ==> scheme.uninst.vars_below(s.next_var),
{
    if binds(s.context, name) {
        let i = place(s.context, name);
        assert(first_at(s.context, name, i));
        assert(s.context[i].1.uninst.vars_below(s.next_var));
    }
}

/// Binding a variable in use to a type whose variables are in use keeps
/// every variable in use handed out.
pub proof fn lemma_bind_scoped(s: Session, v: usize, ty: Ty)
    requires
        s.scoped(),
        v < s.next_var,
        ty.vars_below(s.next_var),
    ensures
        s.bind(v, ty).scoped(),
{
    let later = s.bind(v, ty);
    assert forall|k: usize| #[trigger] later.subst.contains_key(k) implies k < later.next_var
        && later.subst[k].vars_below(later.next_var) by {
        if k != v {
            assert(s.subst.contains_key(k));
        }
    }
    assert forall|i: int| 0 <= i < later.worklist.len() implies (#[trigger] later.worklist[i]).vars_below(
        later.next_var,
    ) by {
        assert(s.worklist[i].vars_below(s.next_var));
    }
    assert forall|i: int| 0 <= i < later.context.len() implies (#[trigger] later.context[i]).1.uninst.vars_below(
        later.next_var,
    ) by {
        assert(s.context[i].1.uninst.vars_below(s.next_var));
    }
}

/// Deferring a judgment whose variables are in use keeps every variable in
/// use handed out.
pub proof fn lemma_defer_scoped(s: Session, o: Obligation)
    requires
        s.scoped(),
        o.vars_below(s.next_var),
    ensures
        s.defer(o).scoped(),
{
    let later = s.defer(o);
    assert forall|k: usize| #[trigger] later.subst.contains_key(k) implies k < later.next_var
        && later.subst[k].vars_below(later.next_var) by {
        assert(s.subst.contains_key(k));
    }
    assert forall|i: int| 0 <= i < later.worklist.len() implies (#[trigger] later.worklist[i]).vars_below(
        later.next_var,
    ) by {
        if i < s.worklist.len() {
            assert(later.worklist[i] == s.worklist[i]);
        }
    }
    assert forall|i: int| 0 <= i < later.context.len() implies (#[trigger] later.context[i]).1.uninst.vars_below(
        later.next_var,
    ) by {
        assert(s.context[i].1.uninst.vars_below(s.next_var));
    }
}

/// The type store has no part in which variables are in use.
pub proof fn lemma_store_scoped(s: Session, later: Session)
    requires
        s.scoped(),
        s.same_but_store(later),
    ensures
        later.scoped(),
{
    assert forall|k: usize| #[trigger] later.subst.contains_key(k) implies k < later.next_var
        && later.subst[k].vars_below(later.next_var) by {
        assert(s.subst.contains_key(k));
    }
    assert forall|i: int| 0 <= i < later.worklist.len() implies (#[trigger] later.worklist[i]).vars_below(
        later.next_var,
    ) by {
        assert(s.worklist[i].vars_below(s.next_var));
    }
    assert forall|i: int| 0 <= i < later.context.len() implies (#[trigger] later.context[i]).1.uninst.vars_below(
        later.next_var,
    ) by {
        assert(s.context[i].1.uninst.vars_below(s.next_var));
    }
}

/// Declaring a name with a type whose variables are in use keeps every
/// variable in use handed out.
pub proof fn lemma_declare_scoped(s: Session, name: Seq<char>, scheme: Scheme)
    requires
        s.scoped(),
        scheme.uninst.vars_below(s.next_var),
    ensures
        s.declare(name, scheme).scoped(),
{
    let later = s.declare(name, scheme);
    assert forall|i: int| 0 <= i < later.context.len() implies (#[trigger] later.context[i]).1.uninst.vars_below(
        s.next_var,
    ) by {
        if binds(s.context, name) {
            if i != place(s.context, name) {
                assert(later.context[i] == s.context[i]);
            }
        } else {
            if i < s.context.len() {
                assert(later.context[i] == s.context[i]);
            }
        }
    }
}

} // verus!
