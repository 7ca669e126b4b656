//! What holds of the checker whatever it is given. Each law is stated over
//! the functions that the contracts of the library are stated over.

use vstd::prelude::*;
use crate::error::TypeError;
use crate::intern::{grounded, intern};
use crate::model::{
    binds, first_at, lookup, place, put, FinalType, Lit, Named, Obligation, Pattern, Scheme,
    SurfaceExpr, SurfaceType, Ty, TypedExpr, TypedNode,
};
use crate::model::{distinct, keys, FinalExpr, SurfaceDef};
use crate::names::{lemma_exists_first, lemma_put_binds};
use crate::typeck::substitute::finalized;
use crate::typeck::{checked, declare_all, define_all, defined, final_schemes, finalize_all, start};
use crate::typeck::assign::{as_fun, assign, room};
use crate::typeck::bind::bind_pattern;
use crate::typeck::check::{check, infer};
use crate::typeck::context::{fresh_params, inst, instance};
use crate::typeck::lower::lowered;
use crate::typeck::solve::{conforms, discharge, must_wait};
use crate::typeck::substitute::resolved;
use crate::typeck::tween::Mutability;
use crate::typeck::{round, solved, Session};

verus! {

/// Interning is injective. In a store without duplicates, two types interned
/// one after the other get the same identity if and only if they are equal;
/// each identity stands for its type afterwards, and the store still has no
/// duplicates and has lost nothing.
pub proof fn law_interning_is_injective(store: Seq<FinalType>, t1: FinalType, t2: FinalType)
    requires
        store.no_duplicates(),
        store.len() < usize::MAX,
    ensures
        ({
            let (s1, i1) = intern(store, t1);
            let (s2, i2) = intern(s1, t2);
            &&& i1 == i2 <==> t1 == t2
            &&& s2.no_duplicates()
            &&& store.is_prefix_of(s1) && s1.is_prefix_of(s2)
            &&& i1 < s2.len() && s2[i1 as int] == t1
            &&& i2 < s2.len() && s2[i2 as int] == t2
        }),
{
    let (s1, i1) = intern(store, t1);
    lemma_intern(store, t1);
    lemma_intern(s1, t2);
}

/// Interning a type keeps what the store held, keeps it free of duplicates,
/// and gives the place of the type in the store.
pub proof fn lemma_intern(store: Seq<FinalType>, ty: FinalType)
    requires
        store.no_duplicates(),
        store.len() <= usize::MAX,
    ensures
        ({
            let (after, id) = intern(store, ty);
            &&& after.no_duplicates()
            &&& store.is_prefix_of(after)
            &&& after.len() <= store.len() + 1
            &&& id < after.len()
            &&& after[id as int] == ty
            &&& store.contains(ty) ==> after == store
            &&& !store.contains(ty) ==> id == store.len()
        }),
{
    if store.contains(ty) {
        let j = store.index_of(ty);
        assert(store[j] == ty);
    } else {
        let after = store.push(ty);
        assert forall|i: int, j: int| 0 <= i < after.len() && 0 <= j < after.len() && i != j implies after[i]
            != after[j] by {
            if i == store.len() {
                assert(store[j] != ty);
            } else if j == store.len() {
                assert(store[i] != ty);
            }
        }
    }
}

/// The type without variables that `ty` stands for: each solved variable is
/// replaced by what it stands for, as far as the bindings may be looked
/// through. There is none where a variable is unsolved.
pub open spec fn expanded(subst: Map<usize, Ty>, ty: Ty, hops: nat) -> Option<Ty>
    decreases room(hops), ty,
{
    match ty {
        Ty::Arrow(a, b) => match (expanded(subst, *a, hops), expanded(subst, *b, hops)) {
            (Some(from), Some(into)) => Some(Ty::Arrow(Box::new(from), Box::new(into))),
            _ => None,
        },
        Ty::Var(_, v) => if subst.contains_key(v) && hops < subst.dom().len() && hops
            < usize::MAX {
            expanded(subst, subst[v], hops + 1)
        } else {
            None
        },
        _ => Some(ty),
    }
}

/// The type that an identity stands for, written out: the parts of an arrow
/// are replaced by what they stand for.
pub open spec fn written_out(store: Seq<FinalType>, id: usize) -> Ty
    decreases id,
{
    if id < store.len() {
        match store[id as int] {
            FinalType::Bottom => Ty::Bottom,
            FinalType::Bool => Ty::Bool,
            FinalType::Regex => Ty::Regex,
            FinalType::Range(lo, hi) => Ty::Range(lo, hi),
            FinalType::String(p) => Ty::String(p),
            FinalType::Arrow(a, b) => if a < id && b < id {
                Ty::Arrow(Box::new(written_out(store, a)), Box::new(written_out(store, b)))
            } else {
                Ty::Error
            },
            FinalType::Named(n) => Ty::Named(n),
            FinalType::Error => Ty::Error,
        }
    } else {
        Ty::Error
    }
}

/// What an identity stands for does not change when the store grows.
pub proof fn lemma_written_out_is_stable(store: Seq<FinalType>, later: Seq<FinalType>, id: usize)
    requires
        store.is_prefix_of(later),
        id < store.len(),
    ensures
        written_out(later, id) == written_out(store, id),
    decreases id,
{
    assert(later[id as int] == store[id as int]);
    match store[id as int] {
        FinalType::Arrow(a, b) => {
            if a < id && b < id {
                lemma_written_out_is_stable(store, later, a);
                lemma_written_out_is_stable(store, later, b);
            }
        },
        _ => {},
    }
}

/// In a store without duplicates, in which the parts of each arrow come
/// before it, two identities that stand for the same type are the same.
pub proof fn lemma_written_out_is_injective(store: Seq<FinalType>, i: usize, j: usize)
    requires
        store.no_duplicates(),
        grounded(store),
        i < store.len(),
        j < store.len(),
        written_out(store, i) == written_out(store, j),
    ensures
        i == j,
    decreases i,
{
    let x = store[i as int];
    let y = store[j as int];
    match x {
        FinalType::Arrow(a, b) => {
            match y {
                FinalType::Arrow(c, d) => {
                    lemma_written_out_is_injective(store, a, c);
                    lemma_written_out_is_injective(store, b, d);
                },
                _ => {},
            }
        },
        _ => {},
    }
    assert(x == y);
}

/// Interning keeps the parts of each arrow before it, where the parts of
/// the type that is interned are in the store.
pub proof fn lemma_intern_grounded(store: Seq<FinalType>, ty: FinalType)
    requires
        store.no_duplicates(),
        grounded(store),
        store.len() <= usize::MAX,
        ty matches FinalType::Arrow(a, b) ==> a < store.len() && b < store.len(),
    ensures
        grounded(intern(store, ty).0),
{
    lemma_intern(store, ty);
    let after = intern(store, ty).0;
    assert forall|i: int| 0 <= i < after.len() implies match #[trigger] after[i] {
        FinalType::Arrow(a, b) => a < i && b < i,
        _ => true,
    } by {
        if i < store.len() {
            assert(after[i] == store[i]);
        }
    }
}

/// Resolving a type only adds to the type store.
pub proof fn lemma_resolved_store_grows(s: Session, ty: Ty, hops: nat)
    ensures
        s.store.is_prefix_of(resolved(s, ty, hops).0.store),
        s.same_but_store(resolved(s, ty, hops).0),
    decreases room(hops), ty,
{
    match ty {
        Ty::Arrow(a, b) => {
            lemma_resolved_store_grows(s, *a, hops);
            let (s1, r1) = resolved(s, *a, hops);
            if r1 is Ok {
                lemma_resolved_store_grows(s1, *b, hops);
            }
        },
        Ty::Var(_, v) => {
            if s.bound(v) && s.may_follow(hops) {
                lemma_resolved_store_grows(s, s.subst[v], hops + 1);
            }
        },
        _ => {},
    }
}

/// The identity that resolving gives stands for the type with every solved
/// variable replaced by what it stands for.
pub proof fn lemma_resolved_is_expanded(s: Session, ty: Ty, hops: nat)
    requires
        s.store.no_duplicates(),
        grounded(s.store),
        resolved(s, ty, hops).0.store.len() <= usize::MAX,
    ensures
        resolved(s, ty, hops).0.store.no_duplicates(),
        grounded(resolved(s, ty, hops).0.store),
        resolved(s, ty, hops).1 matches Ok(id) ==> id < resolved(s, ty, hops).0.store.len()
            && expanded(s.subst, ty, hops) == Some(
            written_out(resolved(s, ty, hops).0.store, id),
        ),
    decreases room(hops), ty,
{
    lemma_resolved_store_grows(s, ty, hops);
    match ty {
        Ty::Arrow(a, b) => {
            lemma_resolved_store_grows(s, *a, hops);
            let (s1, r1) = resolved(s, *a, hops);
            if let Ok(from) = r1 {
                lemma_resolved_store_grows(s1, *b, hops);
                let (s2, r2) = resolved(s1, *b, hops);
                if let Ok(into) = r2 {
                    let arrow = FinalType::Arrow(from, into);
                    lemma_resolved_is_expanded(s, *a, hops);
                    lemma_resolved_is_expanded(s1, *b, hops);
                    lemma_intern(s2.store, arrow);
                    lemma_intern_grounded(s2.store, arrow);
                    let (s3, id) = s2.intern(arrow);
                    assert(s3.store[id as int] == arrow);
                    assert(from < id && into < id) by {
                        if s2.store.contains(arrow) {
                            assert(s2.store[id as int] == arrow);
                        }
                    }
                    lemma_written_out_is_stable(s1.store, s3.store, from);
                    lemma_written_out_is_stable(s2.store, s3.store, into);
                } else {
                    lemma_resolved_is_expanded(s, *a, hops);
                    lemma_resolved_is_expanded(s1, *b, hops);
                }
            } else {
                lemma_resolved_is_expanded(s, *a, hops);
            }
        },
        Ty::Var(_, v) => {
            if s.bound(v) && s.may_follow(hops) {
                lemma_resolved_is_expanded(s, s.subst[v], hops + 1);
            }
        },
        Ty::Bottom => {
            lemma_intern(s.store, FinalType::Bottom);
            lemma_intern_grounded(s.store, FinalType::Bottom);
        },
        Ty::Bool => {
            lemma_intern(s.store, FinalType::Bool);
            lemma_intern_grounded(s.store, FinalType::Bool);
        },
        Ty::Regex => {
            lemma_intern(s.store, FinalType::Regex);
            lemma_intern_grounded(s.store, FinalType::Regex);
        },
        Ty::Range(lo, hi) => {
            lemma_intern(s.store, FinalType::Range(lo, hi));
            lemma_intern_grounded(s.store, FinalType::Range(lo, hi));
        },
        Ty::String(p) => {
            lemma_intern(s.store, FinalType::String(p));
            lemma_intern_grounded(s.store, FinalType::String(p));
        },
        Ty::Named(n) => {
            lemma_intern(s.store, FinalType::Named(n));
            lemma_intern_grounded(s.store, FinalType::Named(n));
        },
        Ty::Error => {
            lemma_intern(s.store, FinalType::Error);
            lemma_intern_grounded(s.store, FinalType::Error);
        },
    }
}

/// Equal types share an identity, and only equal types do. Two working types
/// that are resolved one after the other get the same identity if and only
/// if they are structurally equal once every solved variable is replaced by
/// what it stands for.
pub proof fn law_resolved_types_share_an_identity(s: Session, t1: Ty, t2: Ty)
    requires
        s.store.no_duplicates(),
        grounded(s.store),
        resolved(s, t1, 0).1 is Ok,
        resolved(resolved(s, t1, 0).0, t2, 0).1 is Ok,
        resolved(resolved(s, t1, 0).0, t2, 0).0.store.len() <= usize::MAX,
    ensures
        resolved(s, t1, 0).1 == resolved(resolved(s, t1, 0).0, t2, 0).1 <==> expanded(
            s.subst,
            t1,
            0,
        ) == expanded(s.subst, t2, 0),
{
    let (s1, r1) = resolved(s, t1, 0);
    let (s2, r2) = resolved(s1, t2, 0);
    lemma_resolved_store_grows(s, t1, 0);
    lemma_resolved_store_grows(s1, t2, 0);
    lemma_resolved_is_expanded(s, t1, 0);
    lemma_resolved_is_expanded(s1, t2, 0);
    let i1 = r1->Ok_0;
    let i2 = r2->Ok_0;
    lemma_written_out_is_stable(s1.store, s2.store, i1);
    if written_out(s2.store, i1) == written_out(s2.store, i2) {
        lemma_written_out_is_injective(s2.store, i1, i2);
    }
}

/// A range holds its lower bound and excludes its upper bound: an integer
/// belongs to a range exactly when it is at least the one and below the
/// other. The judgment changes nothing in the session.
pub proof fn law_range_is_half_open(s: Session, v: i64, lo: i64, hi: i64)
    ensures
        conforms(s, Lit::Integer(v), Ty::Range(lo, hi), 0).0 == s,
        conforms(s, Lit::Integer(v), Ty::Range(lo, hi), 0).1 is Ok <==> lo <= v < hi,
        !(lo <= v < hi) ==> conforms(s, Lit::Integer(v), Ty::Range(lo, hi), 0).1 == Err::<
            (),
            TypeError,
        >(TypeError::LiteralConformance),
{
}

/// The occurs check. A free variable is never made to stand for an arrow in
/// which it is written, on whichever side it comes: the judgment fails as a
/// recursive type and binds nothing.
pub proof fn law_occurs_check(s: Session, v: usize, ty: Ty)
    requires
        !s.bound(v),
        ty is Arrow,
        ty.mentions(v),
    ensures
        assign(s, Ty::Var(Mutability::Mutable, v), ty, 0, 0) == (
            s,
            Err::<(), TypeError>(TypeError::RecursiveType),
        ),
        assign(s, ty, Ty::Var(Mutability::Mutable, v), 0, 0) == (
            s,
            Err::<(), TypeError>(TypeError::RecursiveType),
        ),
{
}

/// Ranges are invariant: a range is assignable from a range exactly when
/// both have the same bounds. The judgment changes nothing in the session.
pub proof fn law_ranges_are_invariant(s: Session, lo1: i64, hi1: i64, lo2: i64, hi2: i64)
    ensures
        assign(s, Ty::Range(lo1, hi1), Ty::Range(lo2, hi2), 0, 0).0 == s,
        assign(s, Ty::Range(lo1, hi1), Ty::Range(lo2, hi2), 0, 0).1 is Ok <==> lo1 == lo2 && hi1
            == hi2,
{
}

/// Arrows are contravariant in the domain and covariant in the codomain: an
/// arrow is assignable from another, different one exactly when its domain
/// is assignable to the domain of the other and then its codomain is
/// assignable from the codomain of the other.
pub proof fn law_arrow_variance(s: Session, t1: Ty, u1: Ty, t2: Ty, u2: Ty)
    requires
        t1 != t2 || u1 != u2,
    ensures
        ({
            let into = Ty::Arrow(Box::new(t1), Box::new(u1));
            let from = Ty::Arrow(Box::new(t2), Box::new(u2));
            let (s1, r1) = assign(s, t2, t1, 0, 0);
            assign(s, into, from, 0, 0) == if r1 is Err {
                (s1, r1)
            } else {
                assign(s1, u1, u2, 0, 0)
            }
        }),
{
}

/// Whether the type needs no instantiation: it holds neither a variable nor
/// a parameter name.
pub open spec fn ground(ty: Ty) -> bool
    decreases ty,
{
    match ty {
        Ty::Var(_, _) => false,
        Ty::Named(_) => false,
        Ty::Arrow(a, b) => ground(*a) && ground(*b),
        _ => true,
    }
}

/// A ground type is its own instance.
pub proof fn lemma_inst_ground(s: Session, ty: Ty, vars: Named<Ty>, hops: nat)
    requires
        ground(ty),
    ensures
        inst(s, ty, vars, hops) == (s, Ok::<Ty, TypeError>(ty)),
    decreases ty,
{
    match ty {
        Ty::Arrow(a, b) => {
            lemma_inst_ground(s, *a, vars, hops);
            lemma_inst_ground(s, *b, vars, hops);
        },
        _ => {},
    }
}

/// A `Let` hands the type of what it binds on to the name it binds. Where
/// the bound expression has a ground type, a `Let` that binds it to a name
/// and gives that name back has that very type, at the name and as a whole,
/// and its other branch is checked against it.
pub proof fn law_let_binding_propagates(
    s: Session,
    name: Seq<char>,
    bound: SurfaceExpr,
    elze: SurfaceExpr,
)
    requires
        infer(s, bound).1 is Ok,
        ground(infer(s, bound).1->Ok_0.anno),
    ensures
        ({
            let whole = SurfaceExpr::Let {
                pat: Pattern::Bind(name),
                bound: Box::new(bound),
                then: Box::new(SurfaceExpr::Name(name)),
                elze: Box::new(elze),
            };
            let (s1, r1) = infer(s, bound);
            let b = r1->Ok_0;
            let s2 = s1.declare(name, Scheme { params: Seq::empty(), uninst: b.anno });
            let (s3, r3) = check(s2, elze, b.anno);
            infer(s, whole) == match r3 {
                Err(err) => (s3, Err::<TypedExpr, TypeError>(err)),
                Ok(z) => (
                    s3,
                    Ok::<TypedExpr, TypeError>(
                        TypedExpr {
                            node: TypedNode::Let {
                                pat: Pattern::Bind(name),
                                bound: Box::new(b),
                                then: Box::new(
                                    TypedExpr { node: TypedNode::Name(name), anno: b.anno },
                                ),
                                elze: Box::new(z),
                            },
                            anno: b.anno,
                        },
                    ),
                ),
            }
        }),
{
    let (s1, r1) = infer(s, bound);
    let b = r1->Ok_0;
    let scheme = Scheme { params: Seq::empty(), uninst: b.anno };
    let s2 = s1.declare(name, scheme);
    lemma_put_binds(s1.context, name, scheme);
    let none: Named<Ty> = Seq::empty();
    assert(fresh_params(s2, scheme.params, none) == (s2, Ok::<Named<Ty>, TypeError>(none)));
    lemma_inst_ground(s2, b.anno, none, 0);
    assert(instance(s2, scheme) == (s2, Ok::<Ty, TypeError>(b.anno)));
    assert(infer(s2, SurfaceExpr::Name(name)) == (
        s2,
        Ok::<TypedExpr, TypeError>(TypedExpr { node: TypedNode::Name(name), anno: b.anno }),
    ));
}

/// A name that is not in scope does not end the session: the reference is an
/// invalid expression of the error type, and the session is as it was.
pub proof fn law_unknown_name_is_tolerated(s: Session, name: Seq<char>)
    requires
        !binds(s.context, name),
    ensures
        infer(s, SurfaceExpr::Name(name)) == (
            s,
            Ok::<TypedExpr, TypeError>(TypedExpr { node: TypedNode::Invalid, anno: Ty::Error }),
        ),
{
}

/// Whether the type is a variable drawn at or after `lo` and before `hi`.
pub open spec fn var_between(ty: Ty, lo: usize, hi: usize) -> bool {
    match ty {
        Ty::Var(_, w) => lo <= w < hi,
        _ => false,
    }
}

/// Whether every named type is a variable drawn at or after `lo` and before
/// `hi`.
pub open spec fn drawn_between(vars: Named<Ty>, lo: usize, hi: usize) -> bool {
    forall|i: int| 0 <= i < vars.len() ==> var_between((#[trigger] vars[i]).1, lo, hi)
}

/// The instance of a type mentions only variables of the named types and
/// variables drawn while it was built.
pub proof fn lemma_inst_is_fresh(s: Session, ty: Ty, vars: Named<Ty>, hops: nat, lo: usize)
    requires
        drawn_between(vars, lo, s.next_var),
        lo <= s.next_var,
    ensures
        s.next_var <= inst(s, ty, vars, hops).0.next_var,
        inst(s, ty, vars, hops).0.subst == s.subst,
        inst(s, ty, vars, hops).1 matches Ok(t) ==> forall|v: usize|
            t.mentions(v) ==> lo <= v < inst(s, ty, vars, hops).0.next_var,
    decreases room(hops), ty,
{
    match ty {
        Ty::Var(_, v) => {
            if s.bound(v) {
                if s.may_follow(hops) {
                    lemma_inst_is_fresh(s, s.subst[v], vars, hops + 1, lo);
                    assert(inst(s, ty, vars, hops) == inst(s, s.subst[v], vars, hops + 1));
                } else {
                    assert(inst(s, ty, vars, hops).1 is Err);
                }
            } else if s.next_var < usize::MAX {
                let t = Ty::Var(Mutability::Mutable, s.next_var);
                assert(inst(s, ty, vars, hops).1 == Ok::<Ty, TypeError>(t));
                assert(inst(s, ty, vars, hops).0.next_var == s.next_var + 1);
                assert forall|u: usize| t.mentions(u) implies lo <= u < s.next_var + 1 by {}
            } else {
                assert(inst(s, ty, vars, hops).1 is Err);
            }
        },
        Ty::Named(n) => {
            if binds(vars, n) {
                let i = place(vars, n);
                assert(first_at(vars, n, i));
                assert(var_between(vars[i].1, lo, s.next_var));
                let t = vars[i].1;
                assert(inst(s, ty, vars, hops) == (s, Ok::<Ty, TypeError>(t)));
                assert forall|u: usize| t.mentions(u) implies lo <= u < s.next_var by {}
            } else {
                assert(inst(s, ty, vars, hops) == (s, Ok::<Ty, TypeError>(ty)));
                assert forall|u: usize| ty.mentions(u) implies lo <= u < s.next_var by {}
            }
        },
        Ty::Arrow(a, b) => {
            lemma_inst_is_fresh(s, *a, vars, hops, lo);
            let (s1, r1) = inst(s, *a, vars, hops);
            if let Ok(from) = r1 {
                assert(drawn_between(vars, lo, s1.next_var));
                lemma_inst_is_fresh(s1, *b, vars, hops, lo);
                let (s2, r2) = inst(s1, *b, vars, hops);
                if let Ok(into) = r2 {
                    let t = Ty::Arrow(Box::new(from), Box::new(into));
                    assert(inst(s, ty, vars, hops) == (s2, Ok::<Ty, TypeError>(t)));
                    assert forall|u: usize| t.mentions(u) implies lo <= u < s2.next_var by {
                        assert(from.mentions(u) || into.mentions(u));
                    }
                }
            }
        },
        _ => {
            assert(inst(s, ty, vars, hops) == (s, Ok::<Ty, TypeError>(ty)));
            assert forall|u: usize| ty.mentions(u) implies lo <= u < s.next_var by {}
        },
    }
}

/// Fresh parameters are variables drawn while they were bound.
pub proof fn lemma_fresh_params(s: Session, params: Seq<Seq<char>>, vars: Named<Ty>, lo: usize)
    requires
        drawn_between(vars, lo, s.next_var),
        lo <= s.next_var,
    ensures
        s.next_var <= fresh_params(s, params, vars).0.next_var,
        fresh_params(s, params, vars).0.subst == s.subst,
        fresh_params(s, params, vars).1 matches Ok(all) ==> drawn_between(
            all,
            lo,
            fresh_params(s, params, vars).0.next_var,
        ),
    decreases params.len(),
{
    if params.len() > 0 {
        let (s1, r1) = s.fresh();
        if let Ok(v) = r1 {
            let next = put(vars, params[0], Ty::Var(Mutability::Mutable, v));
            assert(drawn_between(next, lo, s1.next_var)) by {
                assert forall|i: int| 0 <= i < next.len() implies var_between(
                    (#[trigger] next[i]).1,
                    lo,
                    s1.next_var,
                ) by {
                    if binds(vars, params[0]) {
                        if i != place(vars, params[0]) {
                            assert(next[i] == vars[i]);
                        }
                    } else {
                        if i < vars.len() {
                            assert(next[i] == vars[i]);
                        }
                    }
                }
            }
            lemma_fresh_params(s1, params.drop_first(), next, lo);
        }
    }
}

/// Every reference to a declared name gets variables of its own: the
/// variables in an instance are all drawn while the instance is built, so
/// that two instances, of one declaration or of two, have no variable in
/// common, and no instance has a variable that was in use before.
pub proof fn law_instances_are_independent(s: Session, first: Scheme, second: Scheme)
    ensures
        ({
            let (s1, r1) = instance(s, first);
            let (s2, r2) = instance(s1, second);
            &&& s.next_var <= s1.next_var
            &&& r1 matches Ok(t1) ==> forall|v: usize|
                t1.mentions(v) ==> s.next_var <= v < s1.next_var
            &&& r1 matches Ok(t1) ==> (r2 matches Ok(t2) ==> forall|v: usize|
                !(t1.mentions(v) && t2.mentions(v)))
        }),
{
    lemma_instance_is_fresh(s, first);
    let (s1, r1) = instance(s, first);
    lemma_instance_is_fresh(s1, second);
}

/// An instance has no variable that was in use. In a session in which every
/// variable in use has been handed out, no variable of an instance is
/// solved, or written in a binding, before the instance is built; and
/// building it binds nothing and leaves the scope alone.
pub proof fn law_instances_use_fresh_variables(s: Session, scheme: Scheme)
    requires
        s.scoped(),
    ensures
        instance(s, scheme).0.subst == s.subst,
        instance(s, scheme).0.context == s.context,
        instance(s, scheme).1 matches Ok(t) ==> forall|v: usize|
            t.mentions(v) ==> !s.bound(v) && forall|k: usize|
                s.bound(k) ==> !(#[trigger] s.subst[k].mentions(v)),
{
    lemma_instance_is_fresh(s, scheme);
    let none: Named<Ty> = Seq::empty();
    lemma_fresh_params_only_draws(s, scheme.params, none);
    let (s1, r1) = fresh_params(s, scheme.params, none);
    if let Ok(vars) = r1 {
        lemma_inst_only_draws(s1, scheme.uninst, vars, 0);
    }
    if let Ok(t) = instance(s, scheme).1 {
        assert forall|v: usize| t.mentions(v) implies !s.bound(v) && forall|k: usize|
            s.bound(k) ==> !(#[trigger] s.subst[k].mentions(v)) by {
            assert(s.next_var <= v);
            assert forall|k: usize| s.bound(k) implies !(#[trigger] s.subst[k].mentions(v)) by {
                assert(s.subst.contains_key(k));
                assert(s.subst[k].vars_below(s.next_var));
            }
        }
    }
}

/// The variables in an instance are all drawn while the instance is built.
pub proof fn lemma_instance_is_fresh(s: Session, scheme: Scheme)
    ensures
        s.next_var <= instance(s, scheme).0.next_var,
        instance(s, scheme).0.subst == s.subst,
        instance(s, scheme).1 matches Ok(t) ==> forall|v: usize|
            t.mentions(v) ==> s.next_var <= v < instance(s, scheme).0.next_var,
{
    let none: Named<Ty> = Seq::empty();
    lemma_fresh_params(s, scheme.params, none, s.next_var);
    let (s1, r1) = fresh_params(s, scheme.params, none);
    if let Ok(vars) = r1 {
        lemma_inst_is_fresh(s1, scheme.uninst, vars, 0, s.next_var);
    }
}

/// The solver stops, and says truly how: when it reports success the
/// worklist is empty, and when it reports that it is stuck the worklist is
/// not.
pub proof fn law_solver_verdict(s: Session)
    ensures
        solved(s).1 == Ok::<bool, TypeError>(true) ==> solved(s).0.worklist.len() == 0,
        solved(s).1 == Ok::<bool, TypeError>(false) ==> solved(s).0.worklist.len() > 0,
    decreases s.worklist.len(),
{
    if s.worklist.len() > 0 {
        let (s1, r1) = round(Session { worklist: Seq::empty(), ..s }, s.worklist);
        if r1 is Ok && s1.worklist.len() < s.worklist.len() {
            law_solver_verdict(s1);
        }
    }
}

/// Whether `later` has every binding of `s`, unchanged.
pub open spec fn keeps_bindings(s: Session, later: Session) -> bool {
    forall|v: usize| #[trigger]
        s.subst.contains_key(v) ==> later.subst.contains_key(v) && later.subst[v] == s.subst[v]
}

/// Whether the worklist of `later` begins with that of `s`.
pub open spec fn keeps_worklist(s: Session, later: Session) -> bool {
    s.worklist.is_prefix_of(later.worklist)
}

/// Assignability only ever adds: no binding is removed or changed, nothing
/// leaves the worklist, and the scope, the counter and the type store are
/// left alone.
pub proof fn law_assign_only_adds(s: Session, into: Ty, from: Ty, hops_into: nat, hops_from: nat)
    ensures
        keeps_bindings(s, assign(s, into, from, hops_into, hops_from).0),
        keeps_worklist(s, assign(s, into, from, hops_into, hops_from).0),
        assign(s, into, from, hops_into, hops_from).0.context == s.context,
        assign(s, into, from, hops_into, hops_from).0.next_var == s.next_var,
        assign(s, into, from, hops_into, hops_from).0.store == s.store,
        s.subst.dom().finite() ==> assign(s, into, from, hops_into, hops_from).0.subst.dom().finite(),
    decreases room(hops_into) + room(hops_from), into.size() + from.size(),
{
    let iv = into.mutable_var();
    let fv = from.mutable_var();
    if into == from {
    } else if from is Bottom {
    } else if into is Range && from is Range {
    } else if into is String && from is String {
    } else if iv is Some && s.bound(iv.unwrap()) {
        if s.may_follow(hops_into) {
            law_assign_only_adds(s, s.subst[iv.unwrap()], from, hops_into + 1, hops_from);
        }
    } else if fv is Some && s.bound(fv.unwrap()) {
        if s.may_follow(hops_from) {
            law_assign_only_adds(s, into, s.subst[fv.unwrap()], hops_into, hops_from + 1);
        }
    } else if iv is Some {
    } else if fv is Some {
    } else if into is Var || from is Var {
    } else if into is Arrow && from is Arrow {
        law_assign_only_adds(s, *from->Arrow_0, *into->Arrow_0, hops_from, hops_into);
        let (s1, r1) = assign(s, *from->Arrow_0, *into->Arrow_0, hops_from, hops_into);
        if r1 is Ok {
            law_assign_only_adds(s1, *into->Arrow_1, *from->Arrow_1, hops_into, hops_from);
        }
    } else {
    }
}

/// Whether `later` can have come from `s` by solving: it has every binding of
/// `s`, unchanged, has handed out at least as many variables, and has the
/// same scope and the same type store.
pub open spec fn solves_on(s: Session, later: Session) -> bool {
    &&& keeps_bindings(s, later)
    &&& s.next_var <= later.next_var
    &&& later.context == s.context
    &&& later.store == s.store
}

/// Holding a literal against a type changes only the worklist.
pub proof fn lemma_conforms_only_defers(s: Session, lit: Lit, ty: Ty, hops: nat)
    ensures
        conforms(s, lit, ty, hops).0.subst == s.subst,
        conforms(s, lit, ty, hops).0.next_var == s.next_var,
        conforms(s, lit, ty, hops).0.context == s.context,
        conforms(s, lit, ty, hops).0.store == s.store,
    decreases room(hops),
{
    match ty {
        Ty::Var(_, v) => {
            if s.bound(v) && s.may_follow(hops) {
                lemma_conforms_only_defers(s, lit, s.subst[v], hops + 1);
            }
        },
        _ => {},
    }
}

/// Building an instance binds nothing and leaves scope and type store alone.
pub proof fn lemma_inst_only_draws(s: Session, ty: Ty, vars: Named<Ty>, hops: nat)
    ensures
        inst(s, ty, vars, hops).0.subst == s.subst,
        s.next_var <= inst(s, ty, vars, hops).0.next_var,
        inst(s, ty, vars, hops).0.context == s.context,
        inst(s, ty, vars, hops).0.store == s.store,
    decreases room(hops), ty,
{
    match ty {
        Ty::Var(_, v) => {
            if s.bound(v) && s.may_follow(hops) {
                lemma_inst_only_draws(s, s.subst[v], vars, hops + 1);
            }
        },
        Ty::Arrow(a, b) => {
            lemma_inst_only_draws(s, *a, vars, hops);
            let (s1, r1) = inst(s, *a, vars, hops);
            if r1 is Ok {
                lemma_inst_only_draws(s1, *b, vars, hops);
            }
        },
        _ => {},
    }
}

/// One attempt at a judgment solves on.
pub proof fn lemma_discharge_solves_on(s: Session, o: Obligation)
    ensures
        solves_on(s, discharge(s, o).0),
{
    match o {
        Obligation::FromLit(lit, ty) => {
            lemma_conforms_only_defers(s, lit, ty, 0);
        },
        Obligation::Assignable(into, from) => {
            law_assign_only_adds(s, into, from, 0, 0);
        },
        Obligation::Instantiate(vars, w, orig) => {
            if !must_wait(s, o) {
                lemma_inst_only_draws(s, orig, vars, 0);
                let (s1, r1) = inst(s, orig, vars, 0);
                if let Ok(ty) = r1 {
                    if s1.bound(w) {
                        law_assign_only_adds(s1, Ty::Var(Mutability::Mutable, w), ty, 0, 0);
                    }
                }
            }
        },
    }
}

/// A round of the solver solves on.
pub proof fn lemma_round_solves_on(s: Session, todo: Seq<Obligation>)
    ensures
        solves_on(s, round(s, todo).0),
    decreases todo.len(),
{
    if todo.len() > 0 {
        lemma_discharge_solves_on(s, todo[0]);
        let (s1, r1) = discharge(s, todo[0]);
        if r1 is Ok {
            lemma_round_solves_on(s1, todo.drop_first());
        }
    }
}

/// Solving only ever adds to what is known: no binding is removed or
/// changed, no variable is handed out twice, and the scope and the type
/// store are left alone.
pub proof fn law_solving_only_adds(s: Session)
    ensures
        solves_on(s, solved(s).0),
    decreases s.worklist.len(),
{
    if s.worklist.len() > 0 {
        let emptied = Session { worklist: Seq::empty(), ..s };
        lemma_round_solves_on(emptied, s.worklist);
        let (s1, r1) = round(emptied, s.worklist);
        if r1 is Ok && s1.worklist.len() < s.worklist.len() {
            law_solving_only_adds(s1);
        }
    }
}

/// Whether `later` can have come from `s` by checking: it has every binding
/// of `s`, unchanged, has handed out at least as many variables, has every
/// name of `s` in scope, and has the same type store.
pub open spec fn checks_on(s: Session, later: Session) -> bool {
    &&& keeps_bindings(s, later)
    &&& s.next_var <= later.next_var
    &&& s.names_kept(later)
    &&& later.store == s.store
}

/// Lowering an annotation only draws variables.
pub proof fn lemma_lowered_only_draws(s: Session, ty: SurfaceType, m: Mutability)
    ensures
        lowered(s, ty, m).0.subst == s.subst,
        s.next_var <= lowered(s, ty, m).0.next_var,
        lowered(s, ty, m).0.context == s.context,
        lowered(s, ty, m).0.store == s.store,
    decreases ty,
{
    match ty {
        SurfaceType::Arrow(a, b) => {
            lemma_lowered_only_draws(s, *a, m);
            let (s1, r1) = lowered(s, *a, m);
            if r1 is Ok {
                lemma_lowered_only_draws(s1, *b, m);
            }
        },
        _ => {},
    }
}

/// Binding fresh parameters only draws variables.
pub proof fn lemma_fresh_params_only_draws(s: Session, params: Seq<Seq<char>>, vars: Named<Ty>)
    ensures
        fresh_params(s, params, vars).0.subst == s.subst,
        s.next_var <= fresh_params(s, params, vars).0.next_var,
        fresh_params(s, params, vars).0.context == s.context,
        fresh_params(s, params, vars).0.store == s.store,
    decreases params.len(),
{
    if params.len() > 0 {
        let (s1, r1) = s.fresh();
        if let Ok(v) = r1 {
            lemma_fresh_params_only_draws(
                s1,
                params.drop_first(),
                put(vars, params[0], Ty::Var(Mutability::Mutable, v)),
            );
        }
    }
}

/// Matching a pattern checks on.
pub proof fn lemma_bind_pattern_checks_on(s: Session, pat: Pattern, ty: Ty)
    ensures
        checks_on(s, bind_pattern(s, pat, ty).0),
{
    match pat {
        Pattern::Bind(n) => {
            lemma_put_binds(s.context, n, Scheme { params: Seq::empty(), uninst: ty });
        },
        _ => {},
    }
}

/// Checking only ever adds to what is known: no binding is removed or
/// changed, no variable is handed out twice, no name leaves the scope, and
/// the type store is left alone.
pub proof fn law_checking_only_adds(s: Session, e: SurfaceExpr, ty: Ty)
    ensures
        checks_on(s, check(s, e, ty).0),
    decreases e, 1nat,
{
    match e {
        SurfaceExpr::Fun(pat, body) => {
            let (s1, r1) = as_fun(s, ty);
            if let Ok((dom, cod)) = r1 {
                lemma_bind_pattern_checks_on(s1, pat, dom);
                let (s2, r2) = bind_pattern(s1, pat, dom);
                if r2 is Ok {
                    law_checking_only_adds(s2, *body, cod);
                }
            }
        },
        SurfaceExpr::Let { pat, bound, then, elze } => {
            law_inferring_only_adds(s, *bound);
            let (s1, r1) = infer(s, *bound);
            if let Ok(b) = r1 {
                lemma_bind_pattern_checks_on(s1, pat, b.anno);
                let (s2, r2) = bind_pattern(s1, pat, b.anno);
                if r2 is Ok {
                    law_checking_only_adds(s2, *then, ty);
                    let (s3, r3) = check(s2, *then, ty);
                    if r3 is Ok {
                        law_checking_only_adds(s3, *elze, ty);
                    }
                }
            }
        },
        SurfaceExpr::Lit(Lit::Integer(_)) => {},
        SurfaceExpr::Lit(Lit::String(_)) => {},
        _ => {
            law_inferring_only_adds(s, e);
            let (s1, r1) = infer(s, e);
            if let Ok(t) = r1 {
                law_assign_only_adds(s1, ty, t.anno, 0, 0);
            }
        },
    }
}

/// Inferring only ever adds to what is known, as checking does.
pub proof fn law_inferring_only_adds(s: Session, e: SurfaceExpr)
    ensures
        checks_on(s, infer(s, e).0),
    decreases e, 0nat,
{
    match e {
        SurfaceExpr::Anno(inner, anno) => {
            lemma_lowered_only_draws(s, anno, Mutability::Mutable);
            let (s1, r1) = lowered(s, anno, Mutability::Mutable);
            if let Ok(ty) = r1 {
                law_checking_only_adds(s1, *inner, ty);
            }
        },
        SurfaceExpr::Let { pat, bound, then, elze } => {
            law_inferring_only_adds(s, *bound);
            let (s1, r1) = infer(s, *bound);
            if let Ok(b) = r1 {
                lemma_bind_pattern_checks_on(s1, pat, b.anno);
                let (s2, r2) = bind_pattern(s1, pat, b.anno);
                if r2 is Ok {
                    law_inferring_only_adds(s2, *then);
                    let (s3, r3) = infer(s2, *then);
                    if let Ok(t) = r3 {
                        law_checking_only_adds(s3, *elze, t.anno);
                    }
                }
            }
        },
        SurfaceExpr::Call(func, arg) => {
            law_inferring_only_adds(s, *func);
            let (s1, r1) = infer(s, *func);
            if let Ok(f) = r1 {
                let (s2, r2) = as_fun(s1, f.anno);
                if let Ok((dom, cod)) = r2 {
                    law_checking_only_adds(s2, *arg, dom);
                }
            }
        },
        SurfaceExpr::Name(n) => {
            if let Some(scheme) = lookup(s.context, n) {
                let none: Named<Ty> = Seq::empty();
                lemma_fresh_params_only_draws(s, scheme.params, none);
                let (s1, r1) = fresh_params(s, scheme.params, none);
                if let Ok(vars) = r1 {
                    lemma_inst_only_draws(s1, scheme.uninst, vars, 0);
                }
            }
        },
        _ => {},
    }
}

/// A name is bound exactly when it is among the names of the entries.
pub proof fn lemma_binds_is_contains<V>(entries: Named<V>, name: Seq<char>)
    ensures
        binds(entries, name) <==> keys(entries).contains(name),
{
    if binds(entries, name) {
        let i = place(entries, name);
        assert(first_at(entries, name, i));
        assert(keys(entries)[i] == name);
    }
    if keys(entries).contains(name) {
        let i = choose|i: int| 0 <= i < keys(entries).len() && keys(entries)[i] == name;
        lemma_exists_first(entries, name, i);
    }
}

/// Binding a name that is bound changes no name; binding one that is not
/// adds it at the end.
pub proof fn lemma_put_keys<V>(entries: Named<V>, name: Seq<char>, value: V)
    ensures
        binds(entries, name) ==> keys(put(entries, name, value)) == keys(entries),
        !binds(entries, name) ==> keys(put(entries, name, value)) == keys(entries).push(name),
{
    if binds(entries, name) {
        let i = place(entries, name);
        assert(first_at(entries, name, i));
        assert(keys(put(entries, name, value)) =~= keys(entries));
    } else {
        assert(keys(put(entries, name, value)) =~= keys(entries).push(name));
    }
}

/// The second pass keeps the names it is given: the checked bodies are those
/// of the names that were there before and of the declarations, and where no
/// name comes twice they stand in the order of the declarations.
pub proof fn lemma_define_all_names(s: Session, defs: Named<SurfaceDef>, done: Named<TypedExpr>)
    requires
        define_all(s, defs, done).1 is Ok,
    ensures
        forall|n: Seq<char>|
            keys(define_all(s, defs, done).1->Ok_0).contains(n) <==> keys(done).contains(n)
                || keys(defs).contains(n),
        (keys(done) + keys(defs)).no_duplicates() ==> keys(define_all(s, defs, done).1->Ok_0)
            == keys(done) + keys(defs),
    decreases defs.len(),
{
    if defs.len() == 0 {
        assert(keys(done) + keys(defs) =~= keys(done));
    } else {
        let (s1, r1) = defined(s, defs[0].0, defs[0].1.body);
        let item = r1->Ok_0;
        let name = defs[0].0;
        let rest = defs.drop_first();
        let next = put(done, name, item);
        lemma_define_all_names(s1, rest, next);
        lemma_put_keys(done, name, item);
        lemma_binds_is_contains(done, name);
        let out = keys(define_all(s, defs, done).1->Ok_0);
        assert(keys(defs) =~= seq![name] + keys(rest));
        assert(keys(defs)[0] == name);
        assert forall|n: Seq<char>| out.contains(n) <==> keys(done).contains(n) || keys(
            defs,
        ).contains(n) by {
            if keys(next).contains(n) {
                let i = choose|i: int| 0 <= i < keys(next).len() && keys(next)[i] == n;
                if binds(done, name) {
                } else {
                    if i < keys(done).len() {
                        assert(keys(done)[i] == n);
                    }
                }
            }
            if keys(done).contains(n) {
                let i = choose|i: int| 0 <= i < keys(done).len() && keys(done)[i] == n;
                assert(keys(next)[i] == n);
            }
            if n == name {
                lemma_put_binds(done, name, item);
                lemma_binds_is_contains(next, name);
            }
            if keys(rest).contains(n) {
                let i = choose|i: int| 0 <= i < keys(rest).len() && keys(rest)[i] == n;
                assert(keys(defs)[i + 1] == n);
            }
            if keys(defs).contains(n) {
                let i = choose|i: int| 0 <= i < keys(defs).len() && keys(defs)[i] == n;
                if i > 0 {
                    assert(keys(rest)[i - 1] == n);
                }
            }
        }
        let whole = keys(done) + keys(defs);
        if whole.no_duplicates() {
            if binds(done, name) {
                let i = choose|i: int| 0 <= i < keys(done).len() && keys(done)[i] == name;
                assert(whole[i] == name);
                assert(whole[keys(done).len() as int] == name);
            }
            assert(keys(next) + keys(rest) =~= whole);
        }
    }
}

/// The last pass keeps the names it is given, in order.
pub proof fn lemma_finalize_all_names(
    s: Session,
    values: Named<TypedExpr>,
    done: Named<FinalExpr>,
)
    requires
        finalize_all(s, values, done).1 is Ok,
    ensures
        keys(finalize_all(s, values, done).1->Ok_0) == keys(done) + keys(values),
    decreases values.len(),
{
    if values.len() == 0 {
        assert(keys(done) + keys(values) =~= keys(done));
    } else {
        let (s1, r1) = finalized(s, values[0].1);
        let next = done.push((values[0].0, r1->Ok_0));
        lemma_finalize_all_names(s1, values.drop_first(), next);
        assert(keys(next) + keys(values.drop_first()) =~= keys(done) + keys(values));
    }
}

/// A checked program has the declarations it was given: a name has a
/// checked body exactly when it was declared, and where no name was declared
/// twice the checked bodies stand under the names of the declarations, in
/// their order.
pub proof fn law_checked_keeps_names(defs: Named<SurfaceDef>)
    requires
        checked(defs) is Ok,
    ensures
        forall|n: Seq<char>|
            keys(checked(defs)->Ok_0.values).contains(n) <==> keys(defs).contains(n),
        distinct(defs) ==> keys(checked(defs)->Ok_0.values) == keys(defs),
{
    let (s1, r1) = declare_all(start(), defs);
    let none: Named<TypedExpr> = Seq::empty();
    let (s2, r2) = define_all(s1, defs, none);
    let values = r2->Ok_0;
    let (s3, r3) = solved(s2);
    let (s4, r4) = final_schemes(Session { context: Seq::empty(), ..s3 }, s3.context, Seq::empty());
    let nothing: Named<FinalExpr> = Seq::empty();
    lemma_define_all_names(s1, defs, none);
    lemma_finalize_all_names(s4, values, nothing);
    assert(keys(none) + keys(defs) =~= keys(defs));
    assert(keys(nothing) + keys(values) =~= keys(values));
    assert forall|n: Seq<char>| !keys(none).contains(n) by {}
    if distinct(defs) {
        assert forall|i: int, j: int|
            0 <= i < keys(defs).len() && 0 <= j < keys(defs).len() && i != j implies keys(defs)[i]
            != keys(defs)[j] by {
            if i < j {
                assert(defs[i].0 != defs[j].0);
            } else {
                assert(defs[j].0 != defs[i].0);
            }
        }
    }
}

/// Whether `rank` puts every solved variable above each variable that is
/// written in what it stands for.
pub open spec fn ranks(subst: Map<usize, Ty>, rank: spec_fn(usize) -> nat) -> bool {
    forall|v: usize, w: usize|
        subst.contains_key(v) && #[trigger] subst[v].mentions(w) ==> rank(w) < rank(v)
}

/// Whether no variable stands, directly or through other variables, for a
/// type in which it is written itself.
pub open spec fn acyclic(subst: Map<usize, Ty>) -> bool {
    exists|rank: spec_fn(usize) -> nat| ranks(subst, rank)
}

/// Whether the variables in `ty` rank below all of `seen`.
pub open spec fn below(ty: Ty, seen: Set<usize>, rank: spec_fn(usize) -> nat) -> bool {
    forall|w: usize, u: usize| #[trigger] ty.mentions(w) && #[trigger] seen.contains(u) ==> rank(w) < rank(u)
}

/// A solved variable that ranks below the variables left behind on a path
/// may be looked through, and what it stands for ranks below it and them.
proof fn lemma_next_hop(s: Session, v: usize, hops: nat, rank: spec_fn(usize) -> nat, seen: Set<usize>)
    requires
        ranks(s.subst, rank),
        s.subst.dom().finite(),
        s.subst.dom().len() <= usize::MAX,
        seen.subset_of(s.subst.dom()),
        seen.len() == hops,
        s.bound(v),
        forall|u: usize| seen.contains(u) ==> rank(v) < rank(u),
    ensures
        s.may_follow(hops),
        seen.insert(v).subset_of(s.subst.dom()),
        seen.insert(v).len() == hops + 1,
        below(s.subst[v], seen.insert(v), rank),
{
    vstd::set_lib::lemma_len_subset(seen, s.subst.dom());
    if seen.contains(v) {
        assert(rank(v) < rank(v));
    }
    let more = seen.insert(v);
    vstd::set_lib::lemma_len_subset(more, s.subst.dom());
    assert forall|w: usize, u: usize| #[trigger]
        s.subst[v].mentions(w) && #[trigger] more.contains(u) implies rank(w) < rank(u) by {
        assert(rank(w) < rank(v));
        if u != v {
            assert(seen.contains(u));
        }
    }
}

/// In a substitution without cycles, resolving a type never runs out of
/// bindings to look through.
proof fn lemma_resolved_in_budget(
    s: Session,
    ty: Ty,
    hops: nat,
    rank: spec_fn(usize) -> nat,
    seen: Set<usize>,
)
    requires
        ranks(s.subst, rank),
        s.subst.dom().finite(),
        s.subst.dom().len() <= usize::MAX,
        seen.subset_of(s.subst.dom()),
        seen.len() == hops,
        below(ty, seen, rank),
    ensures
        resolved(s, ty, hops).1 != Err::<usize, TypeError>(TypeError::RecursiveType),
        resolved(s, ty, hops).0.subst == s.subst,
    decreases room(hops), ty,
{
    match ty {
        Ty::Var(_, v) => {
            if s.bound(v) {
                assert(ty.mentions(v));
                lemma_next_hop(s, v, hops, rank, seen);
                lemma_resolved_in_budget(s, s.subst[v], hops + 1, rank, seen.insert(v));
            }
        },
        Ty::Arrow(a, b) => {
            assert forall|w: usize| a.mentions(w) || b.mentions(w) implies ty.mentions(w) by {}
            lemma_resolved_in_budget(s, *a, hops, rank, seen);
            let (s1, r1) = resolved(s, *a, hops);
            if r1 is Ok {
                lemma_resolved_in_budget(s1, *b, hops, rank, seen);
            }
        },
        _ => {},
    }
}

/// In a substitution without cycles, building an instance never runs out of
/// bindings to look through.
proof fn lemma_inst_in_budget(
    s: Session,
    ty: Ty,
    vars: Named<Ty>,
    hops: nat,
    rank: spec_fn(usize) -> nat,
    seen: Set<usize>,
)
    requires
        ranks(s.subst, rank),
        s.subst.dom().finite(),
        s.subst.dom().len() <= usize::MAX,
        seen.subset_of(s.subst.dom()),
        seen.len() == hops,
        below(ty, seen, rank),
    ensures
        inst(s, ty, vars, hops).1 != Err::<Ty, TypeError>(TypeError::RecursiveType),
        inst(s, ty, vars, hops).0.subst == s.subst,
    decreases room(hops), ty,
{
    match ty {
        Ty::Var(_, v) => {
            if s.bound(v) {
                assert(ty.mentions(v));
                lemma_next_hop(s, v, hops, rank, seen);
                lemma_inst_in_budget(s, s.subst[v], vars, hops + 1, rank, seen.insert(v));
            }
        },
        Ty::Arrow(a, b) => {
            assert forall|w: usize| a.mentions(w) || b.mentions(w) implies ty.mentions(w) by {}
            lemma_inst_in_budget(s, *a, vars, hops, rank, seen);
            let (s1, r1) = inst(s, *a, vars, hops);
            if r1 is Ok {
                lemma_inst_in_budget(s1, *b, vars, hops, rank, seen);
            }
        },
        _ => {},
    }
}

/// In a substitution without cycles, holding a literal against a type never
/// runs out of bindings to look through.
proof fn lemma_conforms_in_budget(
    s: Session,
    lit: Lit,
    ty: Ty,
    hops: nat,
    rank: spec_fn(usize) -> nat,
    seen: Set<usize>,
)
    requires
        ranks(s.subst, rank),
        s.subst.dom().finite(),
        s.subst.dom().len() <= usize::MAX,
        seen.subset_of(s.subst.dom()),
        seen.len() == hops,
        below(ty, seen, rank),
    ensures
        conforms(s, lit, ty, hops).1 != Err::<(), TypeError>(TypeError::RecursiveType),
    decreases room(hops),
{
    match ty {
        Ty::Var(_, v) => {
            if s.bound(v) {
                assert(ty.mentions(v));
                lemma_next_hop(s, v, hops, rank, seen);
                lemma_conforms_in_budget(s, lit, s.subst[v], hops + 1, rank, seen.insert(v));
            }
        },
        _ => {},
    }
}

/// Whether checking assignability runs out of bindings to look through on
/// some path.
pub open spec fn runs_out(s: Session, into: Ty, from: Ty, hops_into: nat, hops_from: nat) -> bool
    decreases room(hops_into) + room(hops_from), into.size() + from.size(),
{
    let iv = into.mutable_var();
    let fv = from.mutable_var();
    if into == from || from is Bottom {
        false
    } else if (into is Range && from is Range) || (into is String && from is String) {
        false
    } else if iv is Some && s.bound(iv.unwrap()) {
        if s.may_follow(hops_into) {
            runs_out(s, s.subst[iv.unwrap()], from, hops_into + 1, hops_from)
        } else {
            true
        }
    } else if fv is Some && s.bound(fv.unwrap()) {
        if s.may_follow(hops_from) {
            runs_out(s, into, s.subst[fv.unwrap()], hops_into, hops_from + 1)
        } else {
            true
        }
    } else if into is Var || from is Var {
        false
    } else if into is Arrow && from is Arrow {
        let (s1, r1) = assign(s, *from->Arrow_0, *into->Arrow_0, hops_from, hops_into);
        runs_out(s, *from->Arrow_0, *into->Arrow_0, hops_from, hops_into) || (r1 is Ok
            && runs_out(s1, *into->Arrow_1, *from->Arrow_1, hops_into, hops_from))
    } else {
        false
    }
}

/// What ranks a substitution ranks every part of it.
proof fn lemma_ranks_part(s: Session, later: Session, rank: spec_fn(usize) -> nat)
    requires
        keeps_bindings(s, later),
        ranks(later.subst, rank),
    ensures
        ranks(s.subst, rank),
{
    assert forall|v: usize, w: usize| s.subst.contains_key(v) && #[trigger] s.subst[v].mentions(
        w,
    ) implies rank(w) < rank(v) by {
        assert(s.bound(v));
        assert(later.subst[v] == s.subst[v]);
    }
}

/// A part of a substitution has no more bindings than the whole.
proof fn lemma_part_is_smaller(s: Session, later: Session)
    requires
        keeps_bindings(s, later),
        later.subst.dom().finite(),
    ensures
        s.subst.dom().finite(),
        s.subst.dom().len() <= later.subst.dom().len(),
        s.subst.dom().subset_of(later.subst.dom()),
{
    assert forall|v: usize| s.subst.dom().contains(v) implies later.subst.dom().contains(v) by {
        assert(s.bound(v));
    }
    vstd::set_lib::lemma_len_subset(s.subst.dom(), later.subst.dom());
}

/// Checking assignability runs out of bindings only where it leaves a cycle
/// behind.
proof fn lemma_assign_in_budget(
    s: Session,
    into: Ty,
    from: Ty,
    hops_into: nat,
    hops_from: nat,
    rank: spec_fn(usize) -> nat,
    seen_into: Set<usize>,
    seen_from: Set<usize>,
)
    requires
        ranks(assign(s, into, from, hops_into, hops_from).0.subst, rank),
        assign(s, into, from, hops_into, hops_from).0.subst.dom().finite(),
        assign(s, into, from, hops_into, hops_from).0.subst.dom().len() <= usize::MAX,
        seen_into.subset_of(s.subst.dom()),
        seen_into.len() == hops_into,
        below(into, seen_into, rank),
        seen_from.subset_of(s.subst.dom()),
        seen_from.len() == hops_from,
        below(from, seen_from, rank),
    ensures
        !runs_out(s, into, from, hops_into, hops_from),
    decreases room(hops_into) + room(hops_from), into.size() + from.size(),
{
    let done = assign(s, into, from, hops_into, hops_from).0;
    law_assign_only_adds(s, into, from, hops_into, hops_from);
    lemma_ranks_part(s, done, rank);
    lemma_part_is_smaller(s, done);
    let iv = into.mutable_var();
    let fv = from.mutable_var();
    if into == from || from is Bottom {
    } else if (into is Range && from is Range) || (into is String && from is String) {
    } else if iv is Some && s.bound(iv.unwrap()) {
        let v = iv.unwrap();
        assert(into.mentions(v));
        lemma_next_hop(s, v, hops_into, rank, seen_into);
        lemma_assign_in_budget(
            s,
            s.subst[v],
            from,
            hops_into + 1,
            hops_from,
            rank,
            seen_into.insert(v),
            seen_from,
        );
    } else if fv is Some && s.bound(fv.unwrap()) {
        let w = fv.unwrap();
        assert(from.mentions(w));
        lemma_next_hop(s, w, hops_from, rank, seen_from);
        lemma_assign_in_budget(
            s,
            into,
            s.subst[w],
            hops_into,
            hops_from + 1,
            rank,
            seen_into,
            seen_from.insert(w),
        );
    } else if into is Var || from is Var {
    } else if into is Arrow && from is Arrow {
        let t1 = *into->Arrow_0;
        let u1 = *into->Arrow_1;
        let t2 = *from->Arrow_0;
        let u2 = *from->Arrow_1;
        assert forall|w: usize| t1.mentions(w) || u1.mentions(w) implies into.mentions(w) by {}
        assert forall|w: usize| t2.mentions(w) || u2.mentions(w) implies from.mentions(w) by {}
        let (s1, r1) = assign(s, t2, t1, hops_from, hops_into);
        law_assign_only_adds(s, t2, t1, hops_from, hops_into);
        if r1 is Ok {
            law_assign_only_adds(s1, u1, u2, hops_into, hops_from);
            lemma_ranks_part(s1, done, rank);
            lemma_part_is_smaller(s1, done);
            lemma_part_is_smaller(s, s1);
            lemma_assign_in_budget(s, t2, t1, hops_from, hops_into, rank, seen_from, seen_into);
            lemma_assign_in_budget(s1, u1, u2, hops_into, hops_from, rank, seen_into, seen_from);
        } else {
            lemma_assign_in_budget(s, t2, t1, hops_from, hops_into, rank, seen_from, seen_into);
        }
    } else {
    }
}

/// Only a cycle exhausts the bindings in assignability, too: a check that
/// runs out of bindings to look through leaves behind a substitution in
/// which some variable stands, directly or through others, for a type in
/// which it is written itself.
pub proof fn law_assignability_runs_out_only_on_cycles(s: Session, into: Ty, from: Ty)
    requires
        s.subst.dom().finite(),
        assign(s, into, from, 0, 0).0.subst.dom().len() <= usize::MAX,
        runs_out(s, into, from, 0, 0),
    ensures
        !acyclic(assign(s, into, from, 0, 0).0.subst),
{
    let done = assign(s, into, from, 0, 0).0;
    law_assign_only_adds(s, into, from, 0, 0);
    if acyclic(done.subst) {
        let rank = choose|rank: spec_fn(usize) -> nat| ranks(done.subst, rank);
        let seen = Set::<usize>::empty();
        lemma_assign_in_budget(s, into, from, 0, 0, rank, seen, seen);
    }
}

/// Only a cycle exhausts the bindings. Where no variable stands, directly or
/// through others, for a type in which it is written itself, neither
/// resolving a type, nor building an instance, nor holding a literal against
/// a type fails as a recursive type, whatever the type.
pub proof fn law_only_cycles_are_recursive(s: Session, ty: Ty, vars: Named<Ty>, lit: Lit)
    requires
        acyclic(s.subst),
        s.subst.dom().finite(),
        s.subst.dom().len() <= usize::MAX,
    ensures
        resolved(s, ty, 0).1 != Err::<usize, TypeError>(TypeError::RecursiveType),
        inst(s, ty, vars, 0).1 != Err::<Ty, TypeError>(TypeError::RecursiveType),
        conforms(s, lit, ty, 0).1 != Err::<(), TypeError>(TypeError::RecursiveType),
{
    let rank = choose|rank: spec_fn(usize) -> nat| ranks(s.subst, rank);
    let seen = Set::<usize>::empty();
    lemma_resolved_in_budget(s, ty, 0, rank, seen);
    lemma_inst_in_budget(s, ty, vars, 0, rank, seen);
    lemma_conforms_in_budget(s, lit, ty, 0, rank, seen);
}

} // verus!
