//! The mathematical values that the contracts of this crate speak of: what a
//! literal, a pattern, a type or an expression is, apart from how it is held
//! in memory. Names and patterns are sequences of characters here.

use vstd::prelude::*;
use crate::typeck::tween::Mutability;

verus! {

/// A literal.
pub enum Lit {
    Boolean(bool),
    Integer(i64),
    String(Seq<char>),
    Regex(Seq<char>),
}

/// A pattern. The surface, the intermediate and the final tree share it.
pub enum Pattern {
    Constructor(Seq<char>),
    Bind(Seq<char>),
    Apply(Box<Pattern>, Box<Pattern>),
    Lit(Lit),
    Wildcard,
}

/// A type as it is written in an annotation.
pub enum SurfaceType {
    Bool,
    Regex,
    Range(i64, i64),
    String(Seq<char>),
    Arrow(Box<SurfaceType>, Box<SurfaceType>),
    Named(Seq<char>),
    Wildcard,
    Invalid,
}

/// An expression before it is checked.
pub enum SurfaceExpr {
    Anno(Box<SurfaceExpr>, SurfaceType),
    Fun(Pattern, Box<SurfaceExpr>),
    Let { pat: Pattern, bound: Box<SurfaceExpr>, then: Box<SurfaceExpr>, elze: Box<SurfaceExpr> },
    Call(Box<SurfaceExpr>, Box<SurfaceExpr>),
    Lit(Lit),
    Name(Seq<char>),
    Impossible,
    Invalid,
}

/// One declaration: its type parameters, its annotation and its body.
pub struct SurfaceDef {
    pub vars: Seq<Seq<char>>,
    pub anno: SurfaceType,
    pub body: SurfaceExpr,
}

/// A type as the checker works on it: it may hold type variables, each
/// tagged with the mutability it had where it was written down.
pub enum Ty {
    Bottom,
    Bool,
    Regex,
    Range(i64, i64),
    String(Seq<char>),
    Arrow(Box<Ty>, Box<Ty>),
    Var(Mutability, usize),
    Named(Seq<char>),
    Error,
}

/// A type without variables. The parts of an arrow are identities in the
/// store that holds the type.
pub enum FinalType {
    Bottom,
    Bool,
    Regex,
    Range(i64, i64),
    String(Seq<char>),
    Arrow(usize, usize),
    Named(Seq<char>),
    Error,
}

/// An expression whose types are identities in a store of final types.
pub struct FinalExpr {
    pub node: FinalNode,
    pub anno: usize,
}

/// What a final expression is made of.
pub enum FinalNode {
    Fun(Pattern, Box<FinalExpr>),
    Let { pat: Pattern, bound: Box<FinalExpr>, then: Box<FinalExpr>, elze: Box<FinalExpr> },
    Tuple(Seq<FinalExpr>),
    Call(Box<FinalExpr>, Box<FinalExpr>),
    Lit(Lit),
    Name(Seq<char>),
    Instantiated(Seq<char>),
    Impossible,
    Invalid,
}

/// The final type of a name: its type parameters and the identity of the
/// type in which they occur by name.
pub struct FinalScheme {
    pub params: Seq<Seq<char>>,
    pub uninst: usize,
}

/// A checked program: the final type of each name in scope, the checked
/// declarations, and the type that each identity stands for.
pub struct Checked {
    pub context: Named<FinalScheme>,
    pub values: Named<FinalExpr>,
    pub types: Map<usize, FinalType>,
}

impl FinalExpr {
    /// Whether every type identity in the expression is one of `ids`.
    pub open spec fn typed_within(self, ids: Set<usize>) -> bool
        decreases self,
    {
        ids.contains(self.anno) && self.node.typed_within(ids)
    }
}

impl FinalNode {
    /// Whether every type identity in the node is one of `ids`.
    pub open spec fn typed_within(self, ids: Set<usize>) -> bool
        decreases self,
    {
        match self {
            FinalNode::Fun(_, body) => body.typed_within(ids),
            FinalNode::Let { pat, bound, then, elze } => {
                &&& bound.typed_within(ids)
                &&& then.typed_within(ids)
                &&& elze.typed_within(ids)
            },
            FinalNode::Tuple(items) => forall|i: int|
                0 <= i < items.len() ==> (#[trigger] items[i]).typed_within(ids),
            FinalNode::Call(func, arg) => func.typed_within(ids) && arg.typed_within(ids),
            _ => true,
        }
    }
}

impl Checked {
    /// Whether each name has one type and each declaration one body.
    pub open spec fn keyed(self) -> bool {
        distinct(self.context) && distinct(self.values)
    }

    /// Whether equal types have equal identities: no two identities stand for
    /// the same type.
    pub open spec fn canonical(self) -> bool {
        forall|j: usize, k: usize|
            self.types.contains_key(j) && self.types.contains_key(k) && self.types[j]
                == self.types[k] ==> j == k
    }

    /// Whether every type identity in the program stands for a type: those
    /// of the names in scope, those in the declarations, and the parts of
    /// every arrow.
    pub open spec fn closed(self) -> bool {
        &&& forall|i: int|
            0 <= i < self.context.len() ==> self.types.contains_key(
                (#[trigger] self.context[i]).1.uninst,
            )
        &&& forall|i: int|
            0 <= i < self.values.len() ==> (#[trigger] self.values[i]).1.typed_within(
                self.types.dom(),
            )
        &&& forall|k: usize| #[trigger]
            self.types.contains_key(k) ==> match self.types[k] {
                FinalType::Arrow(a, b) => self.types.contains_key(a) && self.types.contains_key(b),
                _ => true,
            }
    }
}

/// An expression annotated with working types.
pub struct TypedExpr {
    pub node: TypedNode,
    pub anno: Ty,
}

/// What an expression annotated with working types is made of.
pub enum TypedNode {
    Fun(Pattern, Box<TypedExpr>),
    Let { pat: Pattern, bound: Box<TypedExpr>, then: Box<TypedExpr>, elze: Box<TypedExpr> },
    Call(Box<TypedExpr>, Box<TypedExpr>),
    Lit(Lit),
    Name(Seq<char>),
    Instantiated(Seq<char>),
    Impossible,
    Invalid,
}

/// The declared type of a name: its type parameters and the type in which
/// they occur by name.
pub struct Scheme {
    pub params: Seq<Seq<char>>,
    pub uninst: Ty,
}

/// A judgment that could not be decided when it came up.
pub enum Obligation {
    /// The literal must belong to the type.
    FromLit(Lit, Ty),
    /// A value of the second type must be usable where the first is expected.
    Assignable(Ty, Ty),
    /// The variable must become the instance, under the named types, of what
    /// the last type resolves to.
    Instantiate(Named<Ty>, usize, Ty),
}

/// Whether every variable written in the named types is below `n`.
pub open spec fn all_below(vars: Named<Ty>, n: usize) -> bool {
    forall|i: int| 0 <= i < vars.len() ==> (#[trigger] vars[i]).1.vars_below(n)
}

impl Obligation {
    /// Whether every variable written in the judgment is below `n`.
    pub open spec fn vars_below(self, n: usize) -> bool {
        match self {
            Obligation::FromLit(_, ty) => ty.vars_below(n),
            Obligation::Assignable(into, from) => into.vars_below(n) && from.vars_below(n),
            Obligation::Instantiate(vars, w, orig) => {
                &&& all_below(vars, n)
                &&& w < n
                &&& orig.vars_below(n)
            },
        }
    }
}

/// The names of the entries, in order.
pub open spec fn keys<V>(entries: Named<V>) -> Seq<Seq<char>> {
    Seq::new(entries.len(), |i: int| entries[i].0)
}

/// A list of named entries. A name is bound by its first entry.
pub type Named<V> = Seq<(Seq<char>, V)>;

/// Whether `i` is the place of the first entry for `name`.
pub open spec fn first_at<V>(entries: Named<V>, name: Seq<char>, i: int) -> bool {
    &&& 0 <= i < entries.len()
    &&& entries[i].0 == name
    &&& forall|j: int| 0 <= j < i ==> (#[trigger] entries[j]).0 != name
}

/// Whether no name has two entries.
pub open spec fn distinct<V>(entries: Named<V>) -> bool {
    forall|i: int, j: int|
        0 <= i < j < entries.len() ==> (#[trigger] entries[i]).0 != (#[trigger] entries[j]).0
}

/// Whether some entry binds `name`.
pub open spec fn binds<V>(entries: Named<V>, name: Seq<char>) -> bool {
    exists|i: int| first_at(entries, name, i)
}

/// The place of the entry that binds `name`.
pub open spec fn place<V>(entries: Named<V>, name: Seq<char>) -> int {
    choose|i: int| first_at(entries, name, i)
}

/// What `name` is bound to, if it is bound.
pub open spec fn lookup<V>(entries: Named<V>, name: Seq<char>) -> Option<V> {
    if binds(entries, name) {
        Some(entries[place(entries, name)].1)
    } else {
        None
    }
}

/// The entries with `name` bound to `value`: in the place where it was bound
/// before, or else at the end.
pub open spec fn put<V>(entries: Named<V>, name: Seq<char>, value: V) -> Named<V> {
    if binds(entries, name) {
        entries.update(place(entries, name), (name, value))
    } else {
        entries.push((name, value))
    }
}

impl Ty {
    /// The number of constructors in the type.
    pub open spec fn size(self) -> nat
        decreases self,
    {
        match self {
            Ty::Arrow(a, b) => 1 + a.size() + b.size(),
            _ => 1,
        }
    }

    /// Whether the variable `v` is written somewhere in the type. Bindings of
    /// other variables are not looked through.
    pub open spec fn mentions(self, v: usize) -> bool
        decreases self,
    {
        match self {
            Ty::Var(_, w) => v == w,
            Ty::Arrow(a, b) => a.mentions(v) || b.mentions(v),
            _ => false,
        }
    }

    /// Whether every variable written in the type is below `n`.
    pub open spec fn vars_below(self, n: usize) -> bool {
        forall|v: usize| self.mentions(v) ==> v < n
    }

    /// The type with every variable tagged `m`.
    pub open spec fn with_mutability(self, m: Mutability) -> Ty
        decreases self,
    {
        match self {
            Ty::Arrow(a, b) => Ty::Arrow(
                Box::new(a.with_mutability(m)),
                Box::new(b.with_mutability(m)),
            ),
            Ty::Var(_, v) => Ty::Var(m, v),
            _ => self,
        }
    }

    /// The type with every named parameter that `vars` binds replaced by what
    /// it is bound to.
    pub open spec fn with_params(self, vars: Named<Ty>) -> Ty
        decreases self,
    {
        match self {
            Ty::Named(n) => match lookup(vars, n) {
                Some(t) => t,
                None => self,
            },
            Ty::Arrow(a, b) => Ty::Arrow(
                Box::new(a.with_params(vars)),
                Box::new(b.with_params(vars)),
            ),
            _ => self,
        }
    }
}

} // verus!
