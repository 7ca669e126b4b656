//! Lists of named entries, in which a name is bound at most once in effect:
//! the first entry for a name is the one that counts, and binding a name
//! again replaces that entry where it stands.

use vstd::prelude::*;
use crate::hir::Name;
use crate::model::{binds, distinct, first_at, lookup, place, put, Named};

verus! {

/// The entries as mathematical values.
pub open spec fn named<T: View>(v: Seq<(Name, T)>) -> Named<T::V> {
    Seq::new(v.len(), |i: int| (v[i].0@, v[i].1@))
}

/// Names as sequences of characters.
pub open spec fn names(v: Seq<Name>) -> Seq<Seq<char>> {
    Seq::new(v.len(), |i: int| v[i]@)
}

/// A copy of the names.
pub fn clone_names(v: &Vec<Name>) -> (r: Vec<Name>)
    ensures
        r@ == v@,
{
    let mut r: Vec<Name> = Vec::new();
    let mut i: usize = 0;
    while i < v.len()
        invariant
            i <= v.len(),
            r@ == v@.take(i as int),
        decreases v.len() - i,
    {
        r.push(v[i].clone());
        assert(r@ =~= v@.take(i + 1));
        i = i + 1;
    }
    assert(v@.take(v.len() as int) =~= v@);
    r
}

/// The first place of a name is unique.
pub proof fn lemma_first_at_unique<V>(entries: Named<V>, name: Seq<char>, i: int)
    requires
        first_at(entries, name, i),
    ensures
        binds(entries, name),
        place(entries, name) == i,
        lookup(entries, name) == Some(entries[i].1),
{
    let j = place(entries, name);
    assert(first_at(entries, name, j));
    if j < i {
        assert(entries[j].0 != name);
    }
    if i < j {
        assert(entries[i].0 != name);
    }
}

/// A name that no entry carries is unbound.
pub proof fn lemma_absent_unbound<V>(entries: Named<V>, name: Seq<char>)
    requires
        forall|j: int| 0 <= j < entries.len() ==> (#[trigger] entries[j]).0 != name,
    ensures
        !binds(entries, name),
        lookup(entries, name) is None,
{
}

/// Binding a name keeps every bound name bound, and binds the name.
pub proof fn lemma_put_binds<V>(entries: Named<V>, name: Seq<char>, value: V)
    ensures
        binds(put(entries, name, value), name),
        lookup(put(entries, name, value), name) == Some(value),
        forall|n: Seq<char>| binds(entries, n) ==> binds(put(entries, name, value), n),
        forall|n: Seq<char>| n != name ==> lookup(put(entries, name, value), n) == lookup(entries, n),
{
    let after = put(entries, name, value);
    if binds(entries, name) {
        let i = place(entries, name);
        assert(first_at(entries, name, i));
        assert(first_at(after, name, i));
        lemma_first_at_unique(after, name, i);
    } else {
        let i = entries.len() as int;
        assert forall|j: int| 0 <= j < i implies (#[trigger] after[j]).0 != name by {
            if entries[j].0 == name {
                lemma_exists_first(entries, name, j);
            }
        }
        assert(first_at(after, name, i));
        lemma_first_at_unique(after, name, i);
    }
    assert forall|n: Seq<char>| n != name implies lookup(after, n) == lookup(entries, n) by {
        if binds(entries, n) {
            let k = place(entries, n);
            assert(first_at(entries, n, k));
            assert(first_at(after, n, k));
            lemma_first_at_unique(after, n, k);
        } else {
            if binds(after, n) {
                let k = place(after, n);
                assert(first_at(after, n, k));
                assert(k < entries.len());
                assert(entries[k].0 == n);
                lemma_exists_first(entries, n, k);
            }
        }
    }
    assert forall|n: Seq<char>| binds(entries, n) implies binds(after, n) by {
        if n != name {
            assert(lookup(after, n) == lookup(entries, n));
        }
    }
}

/// Binding a name leaves no name with two entries.
pub proof fn lemma_put_distinct<V>(entries: Named<V>, name: Seq<char>, value: V)
    requires
        distinct(entries),
    ensures
        distinct(put(entries, name, value)),
{
    let after = put(entries, name, value);
    if binds(entries, name) {
        let k = place(entries, name);
        assert(first_at(entries, name, k));
        assert forall|i: int, j: int| 0 <= i < j < after.len() implies (#[trigger] after[i]).0 != (
        #[trigger] after[j]).0 by {
            assert(after[i].0 == entries[i].0);
            assert(after[j].0 == entries[j].0);
        }
    } else {
        assert forall|i: int, j: int| 0 <= i < j < after.len() implies (#[trigger] after[i]).0 != (
        #[trigger] after[j]).0 by {
            if j == entries.len() {
                if entries[i].0 == name {
                    lemma_exists_first(entries, name, i);
                }
            } else {
                assert(after[i] == entries[i]);
                assert(after[j] == entries[j]);
            }
        }
    }
}

/// A name that some entry carries is bound.
pub proof fn lemma_exists_first<V>(entries: Named<V>, name: Seq<char>, j: int)
    requires
        0 <= j < entries.len(),
        entries[j].0 == name,
    ensures
        binds(entries, name),
    decreases j,
{
    if forall|k: int| 0 <= k < j ==> (#[trigger] entries[k]).0 != name {
        assert(first_at(entries, name, j));
    } else {
        let k = choose|k: int| 0 <= k < j && (#[trigger] entries[k]).0 == name;
        lemma_exists_first(entries, name, k);
    }
}

/// The place of the entry that binds `name`, if there is one.
pub fn find_place<T: View>(entries: &Vec<(Name, T)>, name: &Name) -> (r: Option<usize>)
    ensures
        match r {
            Some(i) => first_at(named(entries@), name@, i as int),
            None => !binds(named(entries@), name@),
        },
{
    let ghost model = named(entries@);
    let mut i: usize = 0;
    while i < entries.len()
        invariant
            i <= entries.len(),
            model == named(entries@),
            forall|j: int| 0 <= j < i ==> (#[trigger] model[j]).0 != name@,
        decreases entries.len() - i,
    {
        if entries[i].0 == *name {
            return Some(i);
        }
        i = i + 1;
    }
    proof {
        lemma_absent_unbound(model, name@);
    }
    None
}

/// What `name` is bound to, if it is bound.
pub fn find<'a, T: View>(entries: &'a Vec<(Name, T)>, name: &Name) -> (r: Option<&'a T>)
    ensures
        match r {
            Some(t) => lookup(named(entries@), name@) == Some(t@),
            None => lookup(named(entries@), name@) is None,
        },
{
    match find_place(entries, name) {
        Some(i) => {
            proof {
                lemma_first_at_unique(named(entries@), name@, i as int);
            }
            Some(&entries[i].1)
        },
        None => None,
    }
}

/// Binds `name` to `value`: in the place where it was bound before, or else
/// at the end.
pub fn bind<T: View>(entries: &mut Vec<(Name, T)>, name: Name, value: T)
    ensures
        named(final(entries)@) == put(named(old(entries)@), name@, value@),
        distinct(named(old(entries)@)) ==> distinct(named(final(entries)@)),
{
    let ghost model = named(entries@);
    proof {
        if distinct(model) {
            lemma_put_distinct(model, name@, value@);
        }
    }
    match find_place(entries, &name) {
        Some(i) => {
            proof {
                lemma_first_at_unique(model, name@, i as int);
            }
            entries.set(i, (name, value));
            proof {
                assert(named(entries@) =~= model.update(i as int, (name@, value@)));
            }
        },
        None => {
            entries.push((name, value));
            proof {
                assert(named(entries@) =~= model.push((name@, value@)));
            }
        },
    }
}

} // verus!
