//! The intermediate tree: what the checker builds while types may still hold
//! variables.

pub use crate::mir::{Literal, Name};

use vstd::prelude::*;
use crate::model::{Pattern, TypedExpr, TypedNode};
use crate::typeck::types::Type;

verus! {

/// Whether a type variable may be bound where it stands.
#[derive(Clone, Copy, Debug, PartialEq, Eq, Hash, Structural)]
pub enum Mutability {
    /// Comparisons that involve the variable are deferred.
    Immutable,
    /// The variable may be bound in place.
    Mutable,
}

/// The checked declarations, in the order in which they were given.
#[derive(Debug, PartialEq, Eq)]
pub struct Decls {
    pub values: Vec<(Name, Expr)>,
}

/// An expression with the working type that checking gave it.
#[derive(Debug, PartialEq, Eq)]
pub struct Expr {
    pub node: ExprNode,
    pub anno: Type,
}

/// What an intermediate expression is made of.
#[derive(Debug, PartialEq, Eq)]
pub enum ExprNode {
    Fun(Pat, Box<Expr>),
    Let { pat: Pat, bound: Box<Expr>, then: Box<Expr>, elze: Box<Expr> },
    Call(Box<Expr>, Box<Expr>),
    Lit(Literal),
    Name(Name),
    Instantiated(Name),
    Impossible,
    Invalid,
}

/// A pattern in the intermediate tree.
#[derive(Debug, PartialEq, Eq)]
pub enum Pat {
    Constructor(Name),
    Bind(Name),
    Apply(Box<Pat>, Box<Pat>),
    Lit(Literal),
    Wildcard,
}

impl View for Pat {
    type V = Pattern;

    open spec fn view(&self) -> Pattern
        decreases self,
    {
        match self {
            Pat::Constructor(n) => Pattern::Constructor(n@),
            Pat::Bind(n) => Pattern::Bind(n@),
            Pat::Apply(f, a) => Pattern::Apply(Box::new((**f).view()), Box::new((**a).view())),
            Pat::Lit(l) => Pattern::Lit(l@),
            Pat::Wildcard => Pattern::Wildcard,
        }
    }
}

impl View for Expr {
    type V = TypedExpr;

    open spec fn view(&self) -> TypedExpr
        decreases self,
    {
        TypedExpr { node: node_view(self.node), anno: self.anno@ }
    }
}

/// A node as a mathematical value.
pub open spec fn node_view(node: ExprNode) -> TypedNode
    decreases node,
{
    match node {
        ExprNode::Fun(p, b) => TypedNode::Fun(p@, Box::new((*b).view())),
        ExprNode::Let { pat, bound, then, elze } => TypedNode::Let {
            pat: pat@,
            bound: Box::new((*bound).view()),
            then: Box::new((*then).view()),
            elze: Box::new((*elze).view()),
        },
        ExprNode::Call(f, a) => TypedNode::Call(Box::new((*f).view()), Box::new((*a).view())),
        ExprNode::Lit(l) => TypedNode::Lit(l@),
        ExprNode::Name(n) => TypedNode::Name(n@),
        ExprNode::Instantiated(n) => TypedNode::Instantiated(n@),
        ExprNode::Impossible => TypedNode::Impossible,
        ExprNode::Invalid => TypedNode::Invalid,
    }
}

impl View for ExprNode {
    type V = TypedNode;

    open spec fn view(&self) -> TypedNode {
        node_view(*self)
    }
}

impl Clone for Pat {
    fn clone(&self) -> (r: Self)
        ensures
            r == *self,
        decreases self,
    {
        match self {
            Pat::Constructor(n) => Pat::Constructor(n.clone()),
            Pat::Bind(n) => Pat::Bind(n.clone()),
            Pat::Apply(f, a) => Pat::Apply(Box::new((**f).clone()), Box::new((**a).clone())),
            Pat::Lit(l) => Pat::Lit(l.clone()),
            Pat::Wildcard => Pat::Wildcard,
        }
    }
}

impl Clone for Expr {
    fn clone(&self) -> (r: Self)
        ensures
            r == *self,
        decreases self,
    {
        let node = match &self.node {
            ExprNode::Fun(p, b) => ExprNode::Fun(p.clone(), Box::new((**b).clone())),
            ExprNode::Let { pat, bound, then, elze } => ExprNode::Let {
                pat: pat.clone(),
                bound: Box::new((**bound).clone()),
                then: Box::new((**then).clone()),
                elze: Box::new((**elze).clone()),
            },
            ExprNode::Call(f, a) => ExprNode::Call(
                Box::new((**f).clone()),
                Box::new((**a).clone()),
            ),
            ExprNode::Lit(l) => ExprNode::Lit(l.clone()),
            ExprNode::Name(n) => ExprNode::Name(n.clone()),
            ExprNode::Instantiated(n) => ExprNode::Instantiated(n.clone()),
            ExprNode::Impossible => ExprNode::Impossible,
            ExprNode::Invalid => ExprNode::Invalid,
        };
        Expr { node, anno: self.anno.clone() }
    }
}

} // verus!
