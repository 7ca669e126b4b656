//! The final tree: the checked program, every expression annotated with the
//! identity of its final type.

use vstd::prelude::*;
use crate::model::{Checked, FinalExpr, FinalNode, FinalScheme, Lit, Named, Pattern};
use crate::names::{named, names};
use crate::types::{TypeId, Types};

verus! {

/// The name of a declaration, of a bound variable or of a type parameter.
pub type Name = String;

/// A checked program.
#[derive(Debug)]
pub struct Program {
    /// The final type of each name, in the order in which the names were
    /// first bound.
    pub context: Vec<(Name, Template)>,
    pub decls: Decls,
    pub types: Types,
}

/// The final type of a name: its type parameters and the identity of the
/// type in which they occur by name.
#[derive(Clone, Debug, PartialEq, Eq)]
pub struct Template {
    pub params: Vec<Name>,
    pub uninst: TypeId,
}

/// The checked declarations, in the order in which they were given.
#[derive(Debug, PartialEq, Eq)]
pub struct Decls {
    pub values: Vec<(Name, Expr)>,
}

/// A checked expression: a node and the identity of its final type.
#[derive(Debug, PartialEq, Eq)]
pub struct Expr {
    pub node: ExprNode,
    pub anno: TypeId,
}

/// What a checked expression is made of.
#[derive(Debug, PartialEq, Eq)]
pub enum ExprNode {
    Fun(Pat, Box<Expr>),
    Let { pat: Pat, bound: Box<Expr>, then: Box<Expr>, elze: Box<Expr> },
    Tuple(Vec<Expr>),
    Call(Box<Expr>, Box<Expr>),
    Lit(Literal),
    Name(Name),
    Instantiated(Name),
    Impossible,
    Invalid,
}

/// A checked pattern.
#[derive(Debug, PartialEq, Eq)]
pub enum Pat {
    Constructor(Name),
    Bind(Name),
    Apply(Box<Pat>, Box<Pat>),
    Lit(Literal),
    Wildcard,
}

/// A literal in a checked tree.
#[derive(Debug, PartialEq, Eq)]
pub enum Literal {
    Boolean(bool),
    Integer(i64),
    String(String),
    Regex(String),
}

impl View for Template {
    type V = FinalScheme;

    open spec fn view(&self) -> FinalScheme {
        FinalScheme { params: names(self.params@), uninst: self.uninst.0 }
    }
}

impl View for Decls {
    type V = Named<FinalExpr>;

    open spec fn view(&self) -> Named<FinalExpr> {
        named(self.values@)
    }
}

impl View for Program {
    type V = Checked;

    open spec fn view(&self) -> Checked {
        Checked { context: named(self.context@), values: self.decls@, types: self.types@ }
    }
}

impl View for Literal {
    type V = Lit;

    open spec fn view(&self) -> Lit {
        match self {
            Literal::Boolean(b) => Lit::Boolean(*b),
            Literal::Integer(v) => Lit::Integer(*v),
            Literal::String(s) => Lit::String(s@),
            Literal::Regex(s) => Lit::Regex(s@),
        }
    }
}

impl View for Pat {
    type V = Pattern;

    open spec fn view(&self) -> Pattern
        decreases self,
    {
        match self {
            Pat::Constructor(n) => Pattern::Constructor(n@),
            Pat::Bind(n) => Pattern::Bind(n@),
            Pat::Apply(f, a) => Pattern::Apply(Box::new((**f).view()), Box::new((**a).view())),
            Pat::Lit(l) => Pattern::Lit(l@),
            Pat::Wildcard => Pattern::Wildcard,
        }
    }
}

impl View for Expr {
    type V = FinalExpr;

    open spec fn view(&self) -> FinalExpr
        decreases self,
    {
        FinalExpr { node: node_view(self.node), anno: self.anno.0 }
    }
}

/// A node as a mathematical value.
pub open spec fn node_view(node: ExprNode) -> FinalNode
    decreases node,
{
    match node {
        ExprNode::Fun(p, b) => FinalNode::Fun(p@, Box::new((*b).view())),
        ExprNode::Let { pat, bound, then, elze } => FinalNode::Let {
            pat: pat@,
            bound: Box::new((*bound).view()),
            then: Box::new((*then).view()),
            elze: Box::new((*elze).view()),
        },
        ExprNode::Tuple(es) => FinalNode::Tuple(
            Seq::new(
                es@.len(),
                |i: int|
                    if 0 <= i < es@.len() {
                        es@[i].view()
                    } else {
                        arbitrary()
                    },
            ),
        ),
        ExprNode::Call(f, a) => FinalNode::Call(Box::new((*f).view()), Box::new((*a).view())),
        ExprNode::Lit(l) => FinalNode::Lit(l@),
        ExprNode::Name(n) => FinalNode::Name(n@),
        ExprNode::Instantiated(n) => FinalNode::Instantiated(n@),
        ExprNode::Impossible => FinalNode::Impossible,
        ExprNode::Invalid => FinalNode::Invalid,
    }
}

impl View for ExprNode {
    type V = FinalNode;

    open spec fn view(&self) -> FinalNode {
        node_view(*self)
    }
}

impl Expr {
    /// A copy of the expression.
    pub fn duplicate(&self) -> (r: Expr)
        ensures
            r@ == self@,
        decreases self,
    {
        let node = match &self.node {
            ExprNode::Fun(p, b) => ExprNode::Fun(p.clone(), Box::new((**b).duplicate())),
            ExprNode::Let { pat, bound, then, elze } => ExprNode::Let {
                pat: pat.clone(),
                bound: Box::new((**bound).duplicate()),
                then: Box::new((**then).duplicate()),
                elze: Box::new((**elze).duplicate()),
            },
            ExprNode::Tuple(items) => {
                let mut out: Vec<Expr> = Vec::new();
                let mut i: usize = 0;
                while i < items.len()
                    invariant
                        i <= items.len(),
                        self.node == ExprNode::Tuple(*items),
                        out@.len() == i,
                        forall|j: int| 0 <= j < i ==> (#[trigger] out@[j])@ == items@[j]@,
                    decreases items.len() - i,
                {
                    proof {
                        assert(decreases_to!(self => self.node));
                        assert(decreases_to!(self.node => self.node->Tuple_0));
                        assert(decreases_to!(self.node->Tuple_0 => self.node->Tuple_0@));
                        assert(decreases_to!(items@ => items@[i as int]));
                    }
                    out.push(items[i].duplicate());
                    i = i + 1;
                }
                let r = ExprNode::Tuple(out);
                proof {
                    assert(r@->Tuple_0 =~= self.node@->Tuple_0);
                }
                r
            },
            ExprNode::Call(f, a) => ExprNode::Call(
                Box::new((**f).duplicate()),
                Box::new((**a).duplicate()),
            ),
            ExprNode::Lit(l) => ExprNode::Lit(l.clone()),
            ExprNode::Name(n) => ExprNode::Name(n.clone()),
            ExprNode::Instantiated(n) => ExprNode::Instantiated(n.clone()),
            ExprNode::Impossible => ExprNode::Impossible,
            ExprNode::Invalid => ExprNode::Invalid,
        };
        Expr { node, anno: self.anno }
    }
}

impl Clone for Expr {
    fn clone(&self) -> (r: Self)
        ensures
            r@ == self@,
    {
        self.duplicate()
    }
}

impl Clone for Literal {
    fn clone(&self) -> (r: Self)
        ensures
            r == *self,
    {
        match self {
            Literal::Boolean(b) => Literal::Boolean(*b),
            Literal::Integer(v) => Literal::Integer(*v),
            Literal::String(s) => Literal::String(s.clone()),
            Literal::Regex(s) => Literal::Regex(s.clone()),
        }
    }
}

impl Clone for Pat {
    fn clone(&self) -> (r: Self)
        ensures
            r == *self,
        decreases self,
    {
        match self {
            Pat::Constructor(n) => Pat::Constructor(n.clone()),
            Pat::Bind(n) => Pat::Bind(n.clone()),
            Pat::Apply(f, a) => Pat::Apply(Box::new((**f).clone()), Box::new((**a).clone())),
            Pat::Lit(l) => Pat::Lit(l.clone()),
            Pat::Wildcard => Pat::Wildcard,
        }
    }
}

} // verus!
