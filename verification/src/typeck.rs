//! The checking engine: the session state and the passes over a program.

pub mod assign;
pub mod bind;
pub mod check;
pub mod context;
pub mod infer;
pub mod lower;
pub mod scope;
pub mod solve;
pub mod substitute;
pub mod tween;
pub mod types;

use std::collections::HashMap;
use vstd::prelude::*;
use crate::error::TypeError;
use crate::hir;
use crate::hir::Name;
use crate::intern::{grounded, ids, store_map, Interner};
use crate::mir;
use crate::model::{
    binds, distinct, keys, lookup, put, Checked, FinalExpr, FinalScheme, FinalType, Named, Obligation,
    Scheme, SurfaceDef, SurfaceExpr, SurfaceType, Ty, TypedExpr,
};
use crate::names::{bind, clone_names, find, lemma_put_binds, named, names};
use crate::typeck::check::check;
use crate::typeck::context::Template;
use crate::typeck::substitute::{finalized, lemma_typed_within_grows, resolved};
use crate::typeck::lower::lowered;
use crate::typeck::scope::{
    lemma_bind_scoped, lemma_declare_scoped, lemma_defer_scoped, lemma_lookup_scoped,
    lemma_obligation_below_grows, lemma_scope_grows, lemma_with_mutability_below,
};
use crate::typeck::solve::{discharge, Constraint};
use crate::typeck::tween::Mutability;
use crate::typeck::types::{Type, TypeVar};

verus! {

broadcast use vstd::std_specs::hash::group_hash_axioms;

/// The state of a checking session, as a mathematical value.
pub struct Session {
    /// The declared type of each name in scope.
    pub context: Named<Scheme>,
    /// What each solved type variable stands for.
    pub subst: Map<usize, Ty>,
    /// The next type variable to hand out.
    pub next_var: usize,
    /// The judgments that wait to be decided, oldest first.
    pub worklist: Seq<Obligation>,
    /// The final types interned so far.
    pub store: Seq<FinalType>,
}

impl Session {
    /// Whether the variable has been solved.
    pub open spec fn bound(self, v: usize) -> bool {
        self.subst.contains_key(v)
    }

    /// Whether one more binding may be looked through on a path that has
    /// looked through `hops` of them. A path that has looked through as many
    /// bindings as there are has come back to a variable it left before.
    pub open spec fn may_follow(self, hops: nat) -> bool {
        hops < self.subst.dom().len() && hops < usize::MAX
    }

    /// The session with `v` standing for `ty`.
    pub open spec fn bind(self, v: usize, ty: Ty) -> Session {
        Session { subst: self.subst.insert(v, ty), ..self }
    }

    /// The session with one more judgment at the end of the worklist.
    pub open spec fn defer(self, o: Obligation) -> Session {
        Session { worklist: self.worklist.push(o), ..self }
    }

    /// The session with `name` declared as `scheme`.
    pub open spec fn declare(self, name: Seq<char>, scheme: Scheme) -> Session {
        Session { context: put(self.context, name, scheme), ..self }
    }

    /// Interning a final type: the session afterwards and the identity of
    /// the type.
    pub open spec fn intern(self, ty: FinalType) -> (Session, usize) {
        let (store, id) = crate::intern::intern(self.store, ty);
        (Session { store, ..self }, id)
    }

    /// Whether every variable in use has been handed out: each solved
    /// variable, and each variable written in a binding, in a deferred
    /// judgment or in the type of a name in scope, is below the counter.
    pub open spec fn scoped(self) -> bool {
        &&& forall|k: usize| #[trigger]
            self.subst.contains_key(k) ==> k < self.next_var && self.subst[k].vars_below(
                self.next_var,
            )
        &&& forall|i: int|
            0 <= i < self.worklist.len() ==> (#[trigger] self.worklist[i]).vars_below(
                self.next_var,
            )
        &&& forall|i: int|
            0 <= i < self.context.len() ==> (#[trigger] self.context[i]).1.uninst.vars_below(
                self.next_var,
            )
    }

    /// Whether `later` differs from this session in the type store at most.
    pub open spec fn same_but_store(self, later: Session) -> bool {
        &&& later.context == self.context
        &&& later.subst == self.subst
        &&& later.next_var == self.next_var
        &&& later.worklist == self.worklist
    }

    /// Whether every name in scope here is in scope in `later`.
    pub open spec fn names_kept(self, later: Session) -> bool {
        forall|n: Seq<char>| binds(self.context, n) ==> binds(later.context, n)
    }

    /// Drawing a fresh type variable: the session afterwards and the
    /// variable, or the failure when none is left.
    pub open spec fn fresh(self) -> (Session, Result<usize, TypeError>) {
        if self.next_var == usize::MAX {
            (self, Err(TypeError::VariableLimit))
        } else {
            (Session { next_var: (self.next_var + 1) as usize, ..self }, Ok(self.next_var))
        }
    }
}

/// A result with its value as a mathematical value.
pub open spec fn viewed<T: View>(r: Result<T, TypeError>) -> Result<T::V, TypeError> {
    match r {
        Ok(x) => Ok(x@),
        Err(e) => Err(e),
    }
}

/// The bindings as mathematical values.
pub open spec fn bindings(m: Map<usize, Type>) -> Map<usize, Ty> {
    Map::new(|v: usize| m.contains_key(v), |v: usize| m[v]@)
}

/// The worklist as mathematical values.
pub open spec fn obligations(v: Seq<Constraint>) -> Seq<Obligation> {
    Seq::new(v.len(), |i: int| v[i]@)
}

/// One round of the solver: each judgment of `todo` is attempted once, in
/// order, until one fails.
pub open spec fn round(s: Session, todo: Seq<Obligation>) -> (Session, Result<(), TypeError>)
    decreases todo.len(),
{
    if todo.len() == 0 {
        (s, Ok(()))
    } else {
        let (s1, r1) = discharge(s, todo[0]);
        match r1 {
            Err(e) => (s1, Err(e)),
            Ok(_) => round(s1, todo.drop_first()),
        }
    }
}

/// Solving: the session afterwards and whether the worklist was emptied.
///
/// With an empty worklist there is nothing to do. Otherwise the whole
/// worklist is taken out and attempted in one round. If the worklist that the
/// round leaves behind is not shorter than the one it took, solving stops
/// unsuccessfully; else it goes on with what is left.
pub open spec fn solved(s: Session) -> (Session, Result<bool, TypeError>)
    decreases s.worklist.len(),
{
    if s.worklist.len() == 0 {
        (s, Ok(true))
    } else {
        let (s1, r1) = round(Session { worklist: Seq::empty(), ..s }, s.worklist);
        match r1 {
            Err(e) => (s1, Err(e)),
            Ok(_) => if s1.worklist.len() >= s.worklist.len() {
                (s1, Ok(false))
            } else {
                solved(s1)
            },
        }
    }
}

/// Declaring `name` with the type parameters `vars` and the annotation
/// `anno`, in which each wildcard is a fresh immutable variable.
pub open spec fn declared(s: Session, name: Seq<char>, vars: Seq<Seq<char>>, anno: SurfaceType) -> (
    Session,
    Result<(), TypeError>,
) {
    let (s1, r1) = lowered(s, anno, Mutability::Immutable);
    match r1 {
        Err(e) => (s1, Err(e)),
        Ok(ty) => (s1.declare(name, Scheme { params: vars, uninst: ty }), Ok(())),
    }
}

/// Checking the body of the declared name `name`: the body is checked
/// against the declared type with its variables made mutable, and then as
/// much as possible is solved.
pub open spec fn defined(s: Session, name: Seq<char>, body: SurfaceExpr) -> (
    Session,
    Result<TypedExpr, TypeError>,
)
    recommends
        binds(s.context, name),
{
    let ty = lookup(s.context, name).unwrap().uninst.with_mutability(Mutability::Mutable);
    let (s1, r1) = check(s, body, ty);
    match r1 {
        Err(e) => (s1, Err(e)),
        Ok(item) => {
            let (s2, r2) = solved(s1);
            match r2 {
                Err(e) => (s2, Err(e)),
                Ok(_) => (s2, Ok(item)),
            }
        },
    }
}

/// The final types of the names in `entries`, in order, after those in
/// `done`.
pub open spec fn final_schemes(s: Session, entries: Named<Scheme>, done: Named<FinalScheme>) -> (
    Session,
    Result<Named<FinalScheme>, TypeError>,
)
    decreases entries.len(),
{
    if entries.len() == 0 {
        (s, Ok(done))
    } else {
        let (s1, r1) = resolved(s, entries[0].1.uninst, 0);
        match r1 {
            Err(e) => (s1, Err(e)),
            Ok(id) => final_schemes(
                s1,
                entries.drop_first(),
                done.push((entries[0].0, FinalScheme { params: entries[0].1.params, uninst: id })),
            ),
        }
    }
}

/// The first pass over a program: every declaration is declared, in order.
pub open spec fn declare_all(s: Session, defs: Named<SurfaceDef>) -> (
    Session,
    Result<(), TypeError>,
)
    decreases defs.len(),
{
    if defs.len() == 0 {
        (s, Ok(()))
    } else {
        let (s1, r1) = declared(s, defs[0].0, defs[0].1.vars, defs[0].1.anno);
        match r1 {
            Err(e) => (s1, Err(e)),
            Ok(_) => declare_all(s1, defs.drop_first()),
        }
    }
}

/// The second pass: every body is checked, in order. The checked bodies are
/// added to `done`, each under its name.
pub open spec fn define_all(s: Session, defs: Named<SurfaceDef>, done: Named<TypedExpr>) -> (
    Session,
    Result<Named<TypedExpr>, TypeError>,
)
    decreases defs.len(),
{
    if defs.len() == 0 {
        (s, Ok(done))
    } else {
        let (s1, r1) = defined(s, defs[0].0, defs[0].1.body);
        match r1 {
            Err(e) => (s1, Err(e)),
            Ok(item) => define_all(s1, defs.drop_first(), put(done, defs[0].0, item)),
        }
    }
}

/// The last pass: every checked body is brought into its final form, in
/// order, after those in `done`.
pub open spec fn finalize_all(s: Session, values: Named<TypedExpr>, done: Named<FinalExpr>) -> (
    Session,
    Result<Named<FinalExpr>, TypeError>,
)
    decreases values.len(),
{
    if values.len() == 0 {
        (s, Ok(done))
    } else {
        let (s1, r1) = finalized(s, values[0].1);
        match r1 {
            Err(e) => (s1, Err(e)),
            Ok(expr) => finalize_all(s1, values.drop_first(), done.push((values[0].0, expr))),
        }
    }
}

/// The session in which nothing has happened yet.
pub open spec fn start() -> Session {
    Session {
        context: Seq::empty(),
        subst: Map::empty(),
        next_var: 0,
        worklist: Seq::empty(),
        store: Seq::empty(),
    }
}

/// What checking a program gives.
///
/// All declarations are declared before any body is checked, so that a body
/// may refer to any of them. Each body is then checked and what can be solved
/// is solved. After the last body the solver must empty the worklist. Then the
/// final types of the names in scope are built, in the order in which the
/// names came into scope, then the final forms of the bodies; the type store
/// is the one these leave behind.
pub open spec fn checked(defs: Named<SurfaceDef>) -> Result<Checked, TypeError> {
    let (s1, r1) = declare_all(start(), defs);
    match r1 {
        Err(e) => Err(e),
        Ok(_) => {
            let (s2, r2) = define_all(s1, defs, Seq::empty());
            match r2 {
                Err(e) => Err(e),
                Ok(values) => {
                    let (s3, r3) = solved(s2);
                    match r3 {
                        Err(e) => Err(e),
                        Ok(done) => if !done {
                            Err(TypeError::UnsolvedConstraints)
                        } else {
                            let (s4, r4) = final_schemes(
                                Session { context: Seq::empty(), ..s3 },
                                s3.context,
                                Seq::empty(),
                            );
                            match r4 {
                                Err(e) => Err(e),
                                Ok(context) => {
                                    let (s5, r5) = finalize_all(s4, values, Seq::empty());
                                    match r5 {
                                        Err(e) => Err(e),
                                        Ok(values) => Ok(
                                            Checked { context, values, types: store_map(s5.store) },
                                        ),
                                    }
                                },
                            }
                        },
                    }
                },
            }
        },
    }
}

/// A list of named entries, or a failure, as a mathematical value.
pub open spec fn viewed_named<T: View>(r: Result<Vec<(Name, T)>, TypeError>) -> Result<
    Named<T::V>,
    TypeError,
> {
    match r {
        Ok(v) => Ok(named(v@)),
        Err(e) => Err(e),
    }
}

/// Checks a program. In the checked program each name has one type and each
/// declaration one body, every type identity stands for a type, and no two
/// of them for the same type. A name has a checked body exactly when it was
/// declared, and where no name was declared twice the checked bodies stand
/// under the names of the declarations, in their order.
#[verifier::loop_isolation(false)]
pub fn typeck(prog: hir::Decls) -> (r: Result<mir::Program, TypeError>)
    ensures
        viewed(r) == checked(prog@),
        r matches Ok(program) ==> program@.keyed() && program@.closed() && program@.canonical(),
        r matches Ok(program) ==> forall|n: Seq<char>|
            keys(program@.values).contains(n) <==> keys(prog@).contains(n),
        r matches Ok(program) ==> (prog.wf() ==> keys(program@.values) == keys(prog@)),
{
    let mut checker = Checker::new();
    let hir::Decls { values: defs } = prog;
    let ghost all = named(defs@);
    assert(checker@ == start());

    let mut i: usize = 0;
    assert(all.skip(0) =~= all);
    while i < defs.len()
        invariant
            i <= defs.len(),
            checker.wf(),
            all == named(defs@),
            declare_all(checker@, all.skip(i as int)) == declare_all(start(), all),
            forall|j: int| 0 <= j < i ==> binds(checker@.context, (#[trigger] all[j]).0),
        decreases defs.len() - i,
    {
        proof {
            let rest = all.skip(i as int);
            assert(rest.len() > 0);
            assert(rest[0] == all[i as int]);
            assert(rest.drop_first() =~= all.skip(i + 1));
        }
        let entry = &defs[i];
        match checker.declare(entry.0.clone(), &entry.1.vars, &entry.1.anno) {
            Ok(()) => {},
            Err(e) => {
                return Err(e);
            },
        }
        i = i + 1;
    }
    assert(all.skip(defs.len() as int).len() == 0);

    let mut values: Vec<(Name, tween::Expr)> = Vec::new();
    let ghost elts = defs@;
    proof {
        assert(named(values@) =~= Seq::empty());
    }
    for entry in it: defs
        invariant
            checker.wf(),
            it.seq() == elts,
            all == named(elts),
            forall|j: int| 0 <= j < all.len() ==> binds(checker@.context, (#[trigger] all[j]).0),
            distinct(named(values@)),
            define_all(checker@, all.skip(it.index()), named(values@)) == define_all(
                declare_all(start(), all).0,
                all,
                Seq::empty(),
            ),
    {
        proof {
            let rest = all.skip(it.index());
            assert(rest.len() > 0);
            assert(rest[0] == all[it.index()]);
            assert(rest.drop_first() =~= all.skip(it.index() + 1));
            assert(binds(checker@.context, all[it.index()].0));
        }
        let (name, item) = entry;
        let body = match checker.define(&name, item.body) {
            Ok(body) => body,
            Err(e) => {
                return Err(e);
            },
        };
        bind(&mut values, name, body);
    }
    assert(all.skip(all.len() as int).len() == 0);

    match checker.solve_constraints() {
        Ok(true) => {},
        Ok(false) => {
            return Err(TypeError::UnsolvedConstraints);
        },
        Err(e) => {
            return Err(e);
        },
    }
    let context = match checker.subst_ctx() {
        Ok(context) => context,
        Err(e) => {
            return Err(e);
        },
    };

    let mut finals: Vec<(Name, mir::Expr)> = Vec::new();
    let ghost typed = named(values@);
    let ghost items = values@;
    let ghost s4 = checker@;
    proof {
        assert(named(finals@) =~= Seq::empty());
        assert(typed.skip(0) =~= typed);
    }
    for entry in it: values
        invariant
            checker.wf(),
            it.seq() == items,
            typed == named(items),
            finalize_all(checker@, typed.skip(it.index()), named(finals@)) == finalize_all(
                s4,
                typed,
                Seq::empty(),
            ),
            s4.store.is_prefix_of(checker@.store),
            finals@.len() == it.index(),
            forall|j: int| 0 <= j < finals@.len() ==> (#[trigger] finals@[j]).0@ == typed[j].0,
            forall|j: int|
                0 <= j < finals@.len() ==> (#[trigger] finals@[j]).1@.typed_within(
                    ids(checker@.store),
                ),
    {
        proof {
            let rest = typed.skip(it.index());
            assert(rest.len() > 0);
            assert(rest[0] == typed[it.index()]);
            assert(rest.drop_first() =~= typed.skip(it.index() + 1));
        }
        let (name, expr) = entry;
        let ghost before = named(finals@);
        let ghost earlier = finals@;
        let ghost store = checker@.store;
        let expr = match checker.substitute(expr) {
            Ok(expr) => expr,
            Err(e) => {
                return Err(e);
            },
        };
        finals.push((name, expr));
        proof {
            assert(named(finals@) =~= before.push((name@, expr@)));
            assert forall|j: int| 0 <= j < finals@.len() implies (#[trigger] finals@[j]).1@.typed_within(
                ids(checker@.store),
            ) by {
                if j < earlier.len() {
                    assert(finals@[j] == earlier[j]);
                    lemma_typed_within_grows(earlier[j].1@, ids(store), ids(checker@.store));
                }
            }
        }
    }
    assert(typed.skip(typed.len() as int).len() == 0);
    let types = checker.lower.types();
    let program = mir::Program { context, types, decls: mir::Decls { values: finals } };
    proof {
        assert(checked(all) == Ok::<Checked, TypeError>(program@));
        crate::laws::law_checked_keeps_names(all);
        let store = checker@.store;
        assert(distinct(program@.values)) by {
            assert forall|i: int, j: int| 0 <= i < j < program@.values.len() implies (
            #[trigger] program@.values[i]).0 != (#[trigger] program@.values[j]).0 by {
                assert(typed[i].0 != typed[j].0);
            }
        }
        assert(program@.types.dom() =~= ids(store));
        assert forall|j: int| 0 <= j < program@.values.len() implies (#[trigger] program@.values[j]).1.typed_within(
            program@.types.dom(),
        ) by {
            assert(program@.values[j].1 == finals@[j].1@);
        }
        assert forall|j: int| 0 <= j < program@.context.len() implies program@.types.contains_key(
            (#[trigger] program@.context[j]).1.uninst,
        ) by {
            assert(program@.context[j].1 == context@[j].1@);
            assert(ids(s4.store).contains(context@[j].1.uninst.0));
        }
        assert forall|k: usize| #[trigger] program@.types.contains_key(k) implies match program@.types[k] {
            FinalType::Arrow(a, b) => program@.types.contains_key(a) && program@.types.contains_key(
                b,
            ),
            _ => true,
        } by {
            assert(program@.types[k] == store[k as int]);
        }
        assert forall|j: usize, k: usize|
            program@.types.contains_key(j) && program@.types.contains_key(k) && program@.types[j]
                == program@.types[k] implies j == k by {
            assert(store[j as int] == store[k as int]);
        }
    }
    Ok(program)
}

/// A checking session. Each program is checked in a session of its own.
#[derive(Debug)]
pub struct Checker {
    pub context: Vec<(Name, Template)>,
    pub subst: HashMap<usize, Type>,
    pub lower: Interner,
    pub curr_tyvar: TypeVar,
    pub worklist: Vec<Constraint>,
}

impl View for Checker {
    type V = Session;

    open spec fn view(&self) -> Session {
        Session {
            context: named(self.context@),
            subst: bindings(self.subst@),
            next_var: self.curr_tyvar.0,
            worklist: obligations(self.worklist@),
            store: self.lower@,
        }
    }
}

impl Checker {
    /// No name is in scope twice, every variable in use has been handed
    /// out, the store of final types is in order, and the parts of every
    /// arrow in it are in it.
    pub open spec fn wf(&self) -> bool {
        &&& distinct(self@.context)
        &&& self@.scoped()
        &&& self.lower.wf()
        &&& grounded(self.lower@)
    }

    /// A session in which nothing is declared, solved, deferred or interned.
    pub fn new() -> (r: Self)
        ensures
            r.wf(),
            r@ == (Session {
                context: Seq::empty(),
                subst: Map::empty(),
                next_var: 0,
                worklist: Seq::empty(),
                store: Seq::empty(),
            }),
    {
        let r = Checker {
            context: Vec::new(),
            subst: HashMap::new(),
            lower: Interner::new(),
            curr_tyvar: TypeVar(0),
            worklist: Vec::new(),
        };
        proof {
            assert(r@.context =~= Seq::empty());
            assert(r@.subst =~= Map::empty());
            assert(r@.worklist =~= Seq::empty());
        }
        r
    }

    /// Declares `name` with the type parameters `vars` and the annotation
    /// `ty`.
    pub fn declare(&mut self, name: Name, vars: &Vec<Name>, ty: &hir::Type) -> (r: Result<
        (),
        TypeError,
    >)
        requires
            old(self).wf(),
        ensures
            final(self).wf(),
            (final(self)@, r) == declared(old(self)@, name@, names(vars@), ty@),
            old(self)@.names_kept(final(self)@),
            r is Ok ==> binds(final(self)@.context, name@),
    {
        let ty = match self.lower_type(ty, Mutability::Immutable) {
            Ok(ty) => ty,
            Err(e) => {
                return Err(e);
            },
        };
        let template = Template { params: clone_names(vars), uninst: ty };
        proof {
            lemma_put_binds(self@.context, name@, template@);
        }
        self.declare_name(name, template);
        Ok(())
    }

    /// Checks the body `expr` of the declared name `name`.
    pub fn define(&mut self, name: &Name, expr: hir::Expr) -> (r: Result<tween::Expr, TypeError>)
        requires
            old(self).wf(),
            binds(old(self)@.context, name@),
        ensures
            final(self).wf(),
            (final(self)@, viewed(r)) == defined(old(self)@, name@, expr@),
            old(self)@.names_kept(final(self)@),
    {
        let ty = match self.lookup(name) {
            Some(template) => template.uninst.clone(),
            None => {
                proof {
                    assert(false);
                }
                vstd::pervasive::unreached()
            },
        };
        proof {
            lemma_lookup_scoped(self@, name@);
            lemma_with_mutability_below(ty@, Mutability::Mutable, self@.next_var);
        }
        let ty = ty.make_mutable();
        let item = match self.check_expr(expr, ty) {
            Ok(item) => item,
            Err(e) => {
                return Err(e);
            },
        };
        match self.solve_constraints() {
            Ok(_) => Ok(item),
            Err(e) => Err(e),
        }
    }

    /// Attempts each judgment of `todo` once, in order.
    pub fn solve_round(&mut self, todo: Vec<Constraint>) -> (r: Result<(), TypeError>)
        requires
            old(self).wf(),
            forall|i: int|
                0 <= i < todo@.len() ==> (#[trigger] todo@[i])@.vars_below(old(self)@.next_var),
        ensures
            final(self).wf(),
            (final(self)@, r) == round(old(self)@, obligations(todo@)),
            final(self)@.context == old(self)@.context,
            old(self)@.next_var <= final(self)@.next_var,
    {
        let ghost all = obligations(todo@);
        let ghost elts = todo@;
        assert(all.skip(0) =~= all);
        for ctr in it: todo
            invariant
                self.wf(),
                it.seq() == elts,
                all == obligations(elts),
                self@.context == old(self)@.context,
                old(self)@.next_var <= self@.next_var,
                forall|i: int|
                    0 <= i < elts.len() ==> (#[trigger] elts[i])@.vars_below(self@.next_var),
                round(self@, all.skip(it.index())) == round(old(self)@, all),
        {
            proof {
                let rest = all.skip(it.index());
                assert(rest.len() > 0);
                assert(rest[0] == ctr@);
                assert(rest.drop_first() =~= all.skip(it.index() + 1));
            }
            let ghost before = self@.next_var;
            match self.solve(ctr) {
                Ok(()) => {},
                Err(e) => {
                    return Err(e);
                },
            }
            proof {
                assert forall|i: int| 0 <= i < elts.len() implies (#[trigger] elts[i])@.vars_below(
                    self@.next_var,
                ) by {
                    lemma_obligation_below_grows(elts[i]@, before, self@.next_var);
                }
            }
        }
        Ok(())
    }

    /// Solves as many judgments as possible. Returns `false` if some are
    /// left that a whole round could not reduce.
    pub fn solve_constraints(&mut self) -> (r: Result<bool, TypeError>)
        requires
            old(self).wf(),
        ensures
            final(self).wf(),
            (final(self)@, r) == solved(old(self)@),
            final(self)@.context == old(self)@.context,
            old(self)@.next_var <= final(self)@.next_var,
    {
        loop
            invariant
                self.wf(),
                self@.context == old(self)@.context,
                old(self)@.next_var <= self@.next_var,
                solved(self@) == solved(old(self)@),
            decreases self.worklist@.len(),
        {
            let ghost before = self@;
            let mut todo: Vec<Constraint> = Vec::new();
            core::mem::swap(&mut todo, &mut self.worklist);
            let prev = todo.len();
            proof {
                assert(self@.worklist =~= Seq::empty());
                assert(self@ == (Session { worklist: Seq::empty(), ..before }));
                assert(obligations(todo@) == before.worklist);
                assert forall|i: int| 0 <= i < todo@.len() implies (#[trigger] todo@[i])@.vars_below(
                    self@.next_var,
                ) by {
                    assert(before.worklist[i] == todo@[i]@);
                }
            }
            if prev == 0 {
                proof {
                    assert(before.worklist =~= Seq::empty());
                }
                return Ok(true);
            }
            match self.solve_round(todo) {
                Ok(()) => {},
                Err(e) => {
                    return Err(e);
                },
            }
            if self.worklist.len() >= prev {
                return Ok(false);
            }
        }
    }

    /// The final types of the names in scope, in the order in which the
    /// names came into scope. The scope is empty afterwards.
    #[verifier::loop_isolation(false)]
    pub fn subst_ctx(&mut self) -> (r: Result<Vec<(Name, mir::Template)>, TypeError>)
        requires
            old(self).wf(),
        ensures
            final(self).wf(),
            (final(self)@, viewed_named(r)) == final_schemes(
                Session { context: Seq::empty(), ..old(self)@ },
                old(self)@.context,
                Seq::empty(),
            ),
            old(self)@.store.is_prefix_of(final(self)@.store),
            r matches Ok(context) ==> distinct(named(context@)),
            r matches Ok(context) ==> forall|i: int|
                0 <= i < context@.len() ==> ids(final(self)@.store).contains(
                    (#[trigger] context@[i]).1.uninst.0,
                ),
    {
        let mut entries: Vec<(Name, Template)> = Vec::new();
        core::mem::swap(&mut entries, &mut self.context);
        let mut out: Vec<(Name, mir::Template)> = Vec::new();
        let ghost all = named(entries@);
        let ghost elts = entries@;
        let ghost s0 = self@;
        proof {
            assert(self@.context =~= Seq::empty());
            assert(s0 == (Session { context: Seq::empty(), ..old(self)@ }));
            assert(named(out@) =~= Seq::empty());
            assert(all.skip(0) =~= all);
        }
        for entry in it: entries
            invariant
                self.wf(),
                it.seq() == elts,
                all == named(elts),
                final_schemes(self@, all.skip(it.index()), named(out@)) == final_schemes(
                    s0,
                    all,
                    Seq::empty(),
                ),
                s0.store.is_prefix_of(self@.store),
                out@.len() == it.index(),
                forall|i: int| 0 <= i < out@.len() ==> (#[trigger] out@[i]).0@ == all[i].0,
                forall|i: int|
                    0 <= i < out@.len() ==> ids(self@.store).contains(
                        (#[trigger] out@[i]).1.uninst.0,
                    ),
        {
            proof {
                let rest = all.skip(it.index());
                assert(rest.len() > 0);
                assert(rest[0] == all[it.index()]);
                assert(rest.drop_first() =~= all.skip(it.index() + 1));
            }
            let (name, template) = entry;
            let ghost before = named(out@);
            let id = match self.subst_type(template.uninst) {
                Ok(id) => id,
                Err(e) => {
                    return Err(e);
                },
            };
            let template = mir::Template { params: template.params, uninst: id };
            out.push((name, template));
            proof {
                assert(named(out@) =~= before.push((name@, template@)));
            }
        }
        proof {
            assert(all.skip(all.len() as int).len() == 0);
            assert forall|i: int, j: int| 0 <= i < j < out@.len() implies (#[trigger] named(
                out@,
            )[i]).0 != (#[trigger] named(out@)[j]).0 by {
                assert(all[i].0 != all[j].0);
            }
        }
        Ok(out)
    }

    /// A type variable that was not handed out before.
    pub fn fresh_tyvar(&mut self) -> (r: Result<TypeVar, TypeError>)
        requires
            old(self).wf(),
        ensures
            final(self).wf(),
            (final(self)@, viewed(r)) == old(self)@.fresh(),
    {
        let v = self.curr_tyvar;
        if v.0 == usize::MAX {
            return Err(TypeError::VariableLimit);
        }
        proof {
            lemma_scope_grows(self@, (v.0 + 1) as usize);
        }
        self.curr_tyvar = TypeVar(v.0 + 1);
        Ok(v)
    }

    /// What the variable stands for, if it has been solved.
    pub fn binding(&self, v: TypeVar) -> (r: Option<&Type>)
        ensures
            match r {
                Some(ty) => self@.bound(v.0) && self@.subst[v.0] == ty@,
                None => !self@.bound(v.0),
            },
    {
        self.subst.get(&v.0)
    }

    /// Whether one more binding may be looked through after `hops` of them.
    pub fn may_follow(&self, hops: usize) -> (r: bool)
        ensures
            r == self@.may_follow(hops as nat),
    {
        proof {
            assert(self@.subst.dom() =~= self.subst@.dom());
        }
        hops < self.subst.len()
    }

    /// Lets `v` stand for `ty` from now on.
    pub fn bind_var(&mut self, v: TypeVar, ty: Type)
        requires
            old(self).wf(),
            v.0 < old(self)@.next_var,
            ty@.vars_below(old(self)@.next_var),
        ensures
            final(self).wf(),
            final(self)@ == old(self)@.bind(v.0, ty@),
    {
        self.subst.insert(v.0, ty);
        proof {
            assert(self@.subst =~= old(self)@.subst.insert(v.0, ty@));
            lemma_bind_scoped(old(self)@, v.0, ty@);
        }
    }

    /// Puts a judgment at the end of the worklist.
    pub fn defer(&mut self, c: Constraint)
        requires
            old(self).wf(),
            c@.vars_below(old(self)@.next_var),
        ensures
            final(self).wf(),
            final(self)@ == old(self)@.defer(c@),
    {
        self.worklist.push(c);
        proof {
            assert(self@.worklist =~= old(self)@.worklist.push(c@));
            lemma_defer_scoped(old(self)@, c@);
        }
    }

    /// The declared type of `name`, if it is in scope.
    pub fn lookup(&self, name: &Name) -> (r: Option<&Template>)
        ensures
            match r {
                Some(t) => lookup(self@.context, name@) == Some(t@),
                None => lookup(self@.context, name@) is None,
            },
    {
        find(&self.context, name)
    }

    /// Brings `name` into scope with the declared type `template`, in place
    /// of what it was declared as before.
    pub fn declare_name(&mut self, name: Name, template: Template)
        requires
            old(self).wf(),
            template@.uninst.vars_below(old(self)@.next_var),
        ensures
            final(self).wf(),
            final(self)@ == old(self)@.declare(name@, template@),
    {
        proof {
            lemma_declare_scoped(self@, name@, template@);
        }
        bind(&mut self.context, name, template);
    }
}

} // verus!
