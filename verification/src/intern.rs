//! The type store: it gives structurally equal final types one identity.

use bimap::BiHashMap;
use vstd::prelude::*;
use crate::model::FinalType;
use crate::types::{Type, TypeId, Types};

verus! {

/// The two-way hash map of the `bimap` crate. Nothing of its inside is known
/// here; what a table holds is named by [`pairs`].
#[verifier::external_type_specification]
#[verifier::external_body]
#[verifier::reject_recursive_types(L)]
#[verifier::reject_recursive_types(R)]
#[verifier::reject_recursive_types(LS)]
#[verifier::reject_recursive_types(RS)]
pub struct ExBiHashMap<L, R, LS, RS>(BiHashMap<L, R, LS, RS>);

/// The pairs that a table holds: each identity on the left with the type on
/// its right.
pub uninterp spec fn pairs(table: BiHashMap<TypeId, Type>) -> Map<usize, FinalType>;

/// `BiHashMap::new`: a table without pairs.
#[verifier::external_body]
fn table_new() -> (table: BiHashMap<TypeId, Type>)
    ensures
        pairs(table).dom() == Set::<usize>::empty(),
{
    BiHashMap::new()
}

/// `BiHashMap::len`: the number of pairs.
#[verifier::external_body]
fn table_len(table: &BiHashMap<TypeId, Type>) -> (n: usize)
    ensures
        n == pairs(*table).dom().len(),
{
    table.len()
}

/// `BiHashMap::get_by_right`: the identity paired with a type equal to `ty`,
/// if there is such a pair. The table compares types with the derived `Eq`
/// and `Hash`, under which two types are equal when they are the same value.
#[verifier::external_body]
fn table_get_by_right(table: &BiHashMap<TypeId, Type>, ty: &Type) -> (r: Option<TypeId>)
    ensures
        match r {
            Some(id) => pairs(*table).contains_pair(id.0, ty@),
            None => forall|k: usize| pairs(*table).contains_key(k) ==> pairs(*table)[k] != ty@,
        },
{
    table.get_by_right(ty).copied()
}

/// `BiHashMap::get_by_left`: the type paired with `id`, if there is such a
/// pair.
#[verifier::external_body]
fn table_get_by_left<'a>(table: &'a BiHashMap<TypeId, Type>, id: &TypeId) -> (r: Option<&'a Type>)
    ensures
        match r {
            Some(ty) => pairs(*table).contains_pair(id.0, ty@),
            None => !pairs(*table).contains_key(id.0),
        },
{
    table.get_by_left(id)
}

/// `BiHashMap::insert`, where neither side is in the table yet: the pair is
/// added and no other pair changes.
#[verifier::external_body]
fn table_insert(table: &mut BiHashMap<TypeId, Type>, id: TypeId, ty: Type)
    requires
        !pairs(*old(table)).contains_key(id.0),
        forall|k: usize| pairs(*old(table)).contains_key(k) ==> pairs(*old(table))[k] != ty@,
    ensures
        pairs(*final(table)) == pairs(*old(table)).insert(id.0, ty@),
{
    table.insert(id, ty);
}

/// What interning `ty` does to a store: the store afterwards and the identity
/// of `ty` in it.
pub open spec fn intern(store: Seq<FinalType>, ty: FinalType) -> (Seq<FinalType>, usize) {
    if store.contains(ty) {
        (store, store.index_of(ty) as usize)
    } else {
        (store.push(ty), store.len() as usize)
    }
}

/// Whether the parts of every arrow in the store come before the arrow.
pub open spec fn grounded(store: Seq<FinalType>) -> bool {
    forall|i: int|
        0 <= i < store.len() ==> match #[trigger] store[i] {
            FinalType::Arrow(a, b) => a < i && b < i,
            _ => true,
        }
}

/// The identities of a store.
pub open spec fn ids(store: Seq<FinalType>) -> Set<usize> {
    Set::new(|k: usize| k < store.len())
}

/// The store of final types. The identities are the numbers below its length,
/// in the order in which the types were first interned.
#[derive(Debug)]
pub struct Interner {
    pub table: BiHashMap<TypeId, Type>,
}

impl View for Interner {
    type V = Seq<FinalType>;

    open spec fn view(&self) -> Seq<FinalType> {
        Seq::new(pairs(self.table).dom().len(), |i: int| pairs(self.table)[i as usize])
    }
}

impl Interner {
    /// The identities are dense and no type has two of them.
    pub open spec fn wf(&self) -> bool {
        &&& pairs(self.table).dom().finite()
        &&& forall|k: usize| pairs(self.table).contains_key(k) <==> k < pairs(self.table).dom().len()
        &&& self@.no_duplicates()
    }

    /// The empty store.
    pub fn new() -> (r: Self)
        ensures
            r.wf(),
            r@ == Seq::<FinalType>::empty(),
    {
        let r = Interner { table: table_new() };
        assert(r@ =~= Seq::<FinalType>::empty());
        r
    }

    /// The number of types in the store.
    pub fn len(&self) -> (n: usize)
        requires
            self.wf(),
        ensures
            n == self@.len(),
    {
        table_len(&self.table)
    }

    /// The identity of `ty`: the one it has already, or else the next free
    /// one, under which it is then stored.
    pub fn intern(&mut self, ty: Type) -> (id: TypeId)
        requires
            old(self).wf(),
        ensures
            final(self).wf(),
            (final(self)@, id.0) == intern(old(self)@, ty@),
            old(self)@.is_prefix_of(final(self)@),
            id.0 < final(self)@.len(),
            final(self)@[id.0 as int] == ty@,
    {
        let ghost before = self@;
        match table_get_by_right(&self.table, &ty) {
            Some(id) => {
                proof {
                    assert(before[id.0 as int] == ty@);
                    assert(before.contains(ty@));
                    let j = before.index_of(ty@);
                    assert(before[j] == ty@);
                    assert(j == id.0);
                }
                id
            },
            None => {
                let n = table_len(&self.table);
                let id = TypeId(n);
                proof {
                    assert(!before.contains(ty@)) by {
                        if before.contains(ty@) {
                            let j = before.index_of(ty@);
                            assert(before[j] == ty@);
                            assert(pairs(self.table).contains_key(j as usize));
                        }
                    }
                }
                table_insert(&mut self.table, id, ty);
                proof {
                    let new = pairs(self.table);
                    let prev = pairs(old(self).table);
                    assert(new.dom() =~= prev.dom().insert(n));
                    assert(new.dom().len() == n + 1);
                    assert(self@ =~= before.push(ty@));
                }
                id
            },
        }
    }

    /// The type that `id` stands for.
    pub fn resolve(&self, id: TypeId) -> (r: &Type)
        requires
            self.wf(),
            id.0 < self@.len(),
        ensures
            r@ == self@[id.0 as int],
    {
        match table_get_by_left(&self.table, &id) {
            Some(ty) => ty,
            None => {
                proof {
                    assert(false);
                }
                vstd::pervasive::unreached()
            },
        }
    }

    /// The types of the store, each under its identity.
    pub fn types(&self) -> (r: Types)
        requires
            self.wf(),
        ensures
            r@ == store_map(self@),
    {
        let n = self.len();
        let mut types = Types::new();
        let mut i: usize = 0;
        while i < n
            invariant
                self.wf(),
                n == self@.len(),
                i <= n,
                types@ == store_map(self@.take(i as int)),
            decreases n - i,
        {
            let ty = self.resolve(TypeId(i)).clone();
            types.add(TypeId(i), ty);
            proof {
                assert(types@ =~= store_map(self@.take(i + 1)));
            }
            i = i + 1;
        }
        proof {
            assert(self@.take(n as int) =~= self@);
        }
        types
    }
}

/// A store as a map from identities to types.
pub open spec fn store_map(store: Seq<FinalType>) -> Map<usize, FinalType> {
    Map::new(|k: usize| k < store.len(), |k: usize| store[k as int])
}

} // verus!
