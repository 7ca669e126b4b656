//! Final types: types without variables, each known by a small identity.

use std::collections::HashMap;
use vstd::prelude::*;
use crate::hir::Name;
use crate::model::FinalType;
use crate::regex::Regex;

verus! {

broadcast use vstd::std_specs::hash::group_hash_axioms;

/// The identity of a final type in its store.
#[derive(Clone, Copy, Debug, PartialEq, Eq, Hash, Structural)]
pub struct TypeId(pub usize);

impl View for TypeId {
    type V = usize;

    open spec fn view(&self) -> usize {
        self.0
    }
}

/// A final type. It holds no variable, and the parts of an arrow are the
/// identities of final types.
#[derive(Debug, PartialEq, Eq, Hash)]
pub enum Type {
    Bottom,
    Bool,
    Regex,
    Range(i64, i64),
    String(Regex),
    Arrow(TypeId, TypeId),
    Named(Name),
    Error,
}

impl View for Type {
    type V = FinalType;

    open spec fn view(&self) -> FinalType {
        match self {
            Type::Bottom => FinalType::Bottom,
            Type::Bool => FinalType::Bool,
            Type::Regex => FinalType::Regex,
            Type::Range(lo, hi) => FinalType::Range(*lo, *hi),
            Type::String(p) => FinalType::String(p@),
            Type::Arrow(a, b) => FinalType::Arrow(a.0, b.0),
            Type::Named(n) => FinalType::Named(n@),
            Type::Error => FinalType::Error,
        }
    }
}

impl Clone for Type {
    fn clone(&self) -> (r: Self)
        ensures
            r == *self,
    {
        match self {
            Type::Bottom => Type::Bottom,
            Type::Bool => Type::Bool,
            Type::Regex => Type::Regex,
            Type::Range(lo, hi) => Type::Range(*lo, *hi),
            Type::String(p) => Type::String(p.clone()),
            Type::Arrow(a, b) => Type::Arrow(*a, *b),
            Type::Named(n) => Type::Named(n.clone()),
            Type::Error => Type::Error,
        }
    }
}

/// The final types of a checked program, by identity.
#[derive(Debug)]
pub struct Types {
    pub types: HashMap<usize, Type>,
}

impl View for Types {
    type V = Map<usize, FinalType>;

    open spec fn view(&self) -> Map<usize, FinalType> {
        Map::new(|k: usize| self.types@.contains_key(k), |k: usize| self.types@[k]@)
    }
}

impl Default for Types {
    fn default() -> (r: Self)
        ensures
            r@ == Map::<usize, FinalType>::empty(),
    {
        Types::new()
    }
}

impl Types {
    /// The store that holds nothing.
    pub fn new() -> (r: Self)
        ensures
            r@ == Map::<usize, FinalType>::empty(),
    {
        let r = Types { types: HashMap::new() };
        assert(r@ =~= Map::<usize, FinalType>::empty());
        r
    }

    /// Records `ty` under `id`, in place of what `id` stood for before.
    pub fn add(&mut self, id: TypeId, ty: Type)
        ensures
            final(self)@ == old(self)@.insert(id.0, ty@),
    {
        self.types.insert(id.0, ty);
        assert(self@ =~= old(self)@.insert(id.0, ty@));
    }

    /// Whether `id` stands for a type in this store.
    pub fn contains(&self, id: &TypeId) -> (r: bool)
        ensures
            r == self@.contains_key(id.0),
    {
        self.types.contains_key(&id.0)
    }

    /// The type that `id` stands for.
    pub fn get(&self, id: &TypeId) -> (r: &Type)
        requires
            self@.contains_key(id.0),
        ensures
            r@ == self@[id.0],
    {
        match self.types.get(&id.0) {
            Some(ty) => ty,
            None => {
                proof {
                    assert(false);
                }
                vstd::pervasive::unreached()
            },
        }
    }
}

} // verus!
