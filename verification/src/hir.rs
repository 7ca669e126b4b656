//! The surface tree: declarations, expressions, patterns, literals and type
//! annotations as a parser hands them over. The checker only reads it.

use vstd::prelude::*;
use crate::model::{
    distinct, lookup, put, Lit, Named, Pattern, SurfaceDef, SurfaceExpr, SurfaceType,
};
use crate::names::{bind, find, named, names};
use crate::regex::Regex;

verus! {

/// The name of a declaration, of a bound variable or of a type parameter.
pub type Name = String;

/// The declarations of a program, in the order in which they are checked.
#[derive(Clone, Debug, PartialEq, Eq)]
pub struct Decls {
    pub values: Vec<(Name, ValueDef)>,
}

/// One declaration: its type parameters, its annotation and its body.
#[derive(Clone, Debug, PartialEq, Eq)]
pub struct ValueDef {
    /// The names of the type parameters of the declaration.
    pub vars: Vec<Name>,
    pub anno: Type,
    pub body: Expr,
}

/// A type as it is written in an annotation.
#[derive(Debug, PartialEq, Eq)]
pub enum Type {
    Bool,
    Regex,
    Range(i64, i64),
    String(Regex),
    Arrow(Box<Type>, Box<Type>),
    /// One of the declaration's own type parameters.
    Named(Name),
    /// A type left for inference.
    Wildcard,
    /// An annotation that was already reported as malformed.
    Invalid,
}

/// An expression before it is checked.
#[derive(Debug, PartialEq, Eq)]
pub enum Expr {
    Anno(Box<Expr>, Type),
    Fun(Pat, Box<Expr>),
    Let { pat: Pat, bound: Box<Expr>, then: Box<Expr>, elze: Box<Expr> },
    Call(Box<Expr>, Box<Expr>),
    Lit(Literal),
    Name(Name),
    Impossible,
    Invalid,
}

/// A pattern before it is checked.
#[derive(Debug, PartialEq, Eq)]
pub enum Pat {
    Constructor(Name),
    Bind(Name),
    Apply(Box<Pat>, Box<Pat>),
    Lit(Literal),
    Wildcard,
}

/// A literal as it is written.
#[derive(Debug, PartialEq, Eq)]
pub enum Literal {
    Boolean(bool),
    Integer(i64),
    String(String),
    Regex(String),
}

impl View for Literal {
    type V = Lit;

    open spec fn view(&self) -> Lit {
        match self {
            Literal::Boolean(b) => Lit::Boolean(*b),
            Literal::Integer(v) => Lit::Integer(*v),
            Literal::String(s) => Lit::String(s@),
            Literal::Regex(s) => Lit::Regex(s@),
        }
    }
}

impl View for Pat {
    type V = Pattern;

    open spec fn view(&self) -> Pattern
        decreases self,
    {
        match self {
            Pat::Constructor(n) => Pattern::Constructor(n@),
            Pat::Bind(n) => Pattern::Bind(n@),
            Pat::Apply(f, a) => Pattern::Apply(Box::new((**f).view()), Box::new((**a).view())),
            Pat::Lit(l) => Pattern::Lit(l@),
            Pat::Wildcard => Pattern::Wildcard,
        }
    }
}

impl View for Type {
    type V = SurfaceType;

    open spec fn view(&self) -> SurfaceType
        decreases self,
    {
        match self {
            Type::Bool => SurfaceType::Bool,
            Type::Regex => SurfaceType::Regex,
            Type::Range(lo, hi) => SurfaceType::Range(*lo, *hi),
            Type::String(p) => SurfaceType::String(p@),
            Type::Arrow(a, b) => SurfaceType::Arrow(
                Box::new((**a).view()),
                Box::new((**b).view()),
            ),
            Type::Named(n) => SurfaceType::Named(n@),
            Type::Wildcard => SurfaceType::Wildcard,
            Type::Invalid => SurfaceType::Invalid,
        }
    }
}

impl View for Expr {
    type V = SurfaceExpr;

    open spec fn view(&self) -> SurfaceExpr
        decreases self,
    {
        match self {
            Expr::Anno(e, t) => SurfaceExpr::Anno(Box::new((**e).view()), t@),
            Expr::Fun(p, b) => SurfaceExpr::Fun(p@, Box::new((**b).view())),
            Expr::Let { pat, bound, then, elze } => SurfaceExpr::Let {
                pat: pat@,
                bound: Box::new((**bound).view()),
                then: Box::new((**then).view()),
                elze: Box::new((**elze).view()),
            },
            Expr::Call(f, a) => SurfaceExpr::Call(Box::new((**f).view()), Box::new((**a).view())),
            Expr::Lit(l) => SurfaceExpr::Lit(l@),
            Expr::Name(n) => SurfaceExpr::Name(n@),
            Expr::Impossible => SurfaceExpr::Impossible,
            Expr::Invalid => SurfaceExpr::Invalid,
        }
    }
}

impl View for ValueDef {
    type V = SurfaceDef;

    open spec fn view(&self) -> SurfaceDef {
        SurfaceDef {
            vars: names(self.vars@),
            anno: self.anno@,
            body: self.body@,
        }
    }
}

impl View for Decls {
    type V = Named<SurfaceDef>;

    open spec fn view(&self) -> Named<SurfaceDef> {
        named(self.values@)
    }
}

impl Decls {
    /// Whether no name is declared twice.
    pub open spec fn wf(&self) -> bool {
        distinct(self@)
    }

    /// No declarations.
    pub fn new() -> (r: Self)
        ensures
            r.wf(),
            r@ == Seq::<(Seq<char>, SurfaceDef)>::empty(),
    {
        let r = Decls { values: Vec::new() };
        assert(r@ =~= Seq::<(Seq<char>, SurfaceDef)>::empty());
        r
    }

    /// Declares `name` as `def`: in place of an earlier declaration of the
    /// name, or else after all the others.
    pub fn insert(&mut self, name: Name, def: ValueDef)
        ensures
            final(self)@ == put(old(self)@, name@, def@),
            old(self).wf() ==> final(self).wf(),
    {
        bind(&mut self.values, name, def);
    }

    /// The declaration of `name`, if there is one.
    pub fn get(&self, name: &Name) -> (r: Option<&ValueDef>)
        ensures
            match r {
                Some(def) => lookup(self@, name@) == Some(def@),
                None => lookup(self@, name@) is None,
            },
    {
        find(&self.values, name)
    }
}

impl Clone for Literal {
    fn clone(&self) -> (r: Self)
        ensures
            r == *self,
    {
        match self {
            Literal::Boolean(b) => Literal::Boolean(*b),
            Literal::Integer(v) => Literal::Integer(*v),
            Literal::String(s) => Literal::String(s.clone()),
            Literal::Regex(s) => Literal::Regex(s.clone()),
        }
    }
}

impl Clone for Pat {
    fn clone(&self) -> (r: Self)
        ensures
            r == *self,
        decreases self,
    {
        match self {
            Pat::Constructor(n) => Pat::Constructor(n.clone()),
            Pat::Bind(n) => Pat::Bind(n.clone()),
            Pat::Apply(f, a) => Pat::Apply(Box::new((**f).clone()), Box::new((**a).clone())),
            Pat::Lit(l) => Pat::Lit(l.clone()),
            Pat::Wildcard => Pat::Wildcard,
        }
    }
}

impl Clone for Type {
    fn clone(&self) -> (r: Self)
        ensures
            r == *self,
        decreases self,
    {
        match self {
            Type::Bool => Type::Bool,
            Type::Regex => Type::Regex,
            Type::Range(lo, hi) => Type::Range(*lo, *hi),
            Type::String(p) => Type::String(p.clone()),
            Type::Arrow(a, b) => Type::Arrow(Box::new((**a).clone()), Box::new((**b).clone())),
            Type::Named(n) => Type::Named(n.clone()),
            Type::Wildcard => Type::Wildcard,
            Type::Invalid => Type::Invalid,
        }
    }
}

impl Clone for Expr {
    fn clone(&self) -> (r: Self)
        ensures
            r == *self,
        decreases self,
    {
        match self {
            Expr::Anno(e, t) => Expr::Anno(Box::new((**e).clone()), t.clone()),
            Expr::Fun(p, b) => Expr::Fun(p.clone(), Box::new((**b).clone())),
            Expr::Let { pat, bound, then, elze } => Expr::Let {
                pat: pat.clone(),
                bound: Box::new((**bound).clone()),
                then: Box::new((**then).clone()),
                elze: Box::new((**elze).clone()),
            },
            Expr::Call(f, a) => Expr::Call(Box::new((**f).clone()), Box::new((**a).clone())),
            Expr::Lit(l) => Expr::Lit(l.clone()),
            Expr::Name(n) => Expr::Name(n.clone()),
            Expr::Impossible => Expr::Impossible,
            Expr::Invalid => Expr::Invalid,
        }
    }
}

} // verus!
