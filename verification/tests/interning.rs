use illiol::intern::Interner;
use illiol::regex::Regex;
use illiol::typeck::tween::Mutability;
use illiol::typeck::types::{Type as Working, TypeVar};
use illiol::typeck::Checker;
use illiol::types::{Type, TypeId, Types};

fn arrow(from: Working, into: Working) -> Working {
    Working::Arrow(Box::new(from), Box::new(into))
}

#[test]
fn interning_bool_twice_gives_one_identity() {
    let mut store = Interner::new();
    let a = store.intern(Type::Bool);
    let b = store.intern(Type::Bool);
    assert_eq!(a, b);
    assert_eq!(a, TypeId(0));
    assert_eq!(store.len(), 1);
}

#[test]
fn interning_distinct_types_gives_distinct_identities() {
    let mut store = Interner::new();
    let a = store.intern(Type::Bool);
    let b = store.intern(Type::Regex);
    let c = store.intern(Type::Range(0, 10));
    let d = store.intern(Type::Range(0, 11));
    let e = store.intern(Type::Named("T".to_string()));
    let f = store.intern(Type::Named("U".to_string()));
    let g = store.intern(Type::String(Regex::new("a+")));
    let h = store.intern(Type::String(Regex::new("a*")));
    let ids = vec![a, b, c, d, e, f, g, h];
    for i in 0..ids.len() {
        assert_eq!(ids[i], TypeId(i));
        for j in 0..ids.len() {
            assert_eq!(ids[i] == ids[j], i == j);
        }
    }
    assert_eq!(store.len(), 8);
}

#[test]
fn interning_equal_patterns_gives_one_identity() {
    let mut store = Interner::new();
    let first = store.intern(Type::String(Regex::new("[a-z]+")));
    let pattern = format!("[a-z]{}", "+");
    let second = store.intern(Type::String(Regex::new(&pattern)));
    assert_eq!(first, second);
    assert_eq!(store.len(), 1);
}

#[test]
fn resolve_gives_back_the_interned_type() {
    let mut store = Interner::new();
    let b = store.intern(Type::Bool);
    let r = store.intern(Type::Range(-5, 10));
    let a = store.intern(Type::Arrow(b, r));
    assert_eq!(store.resolve(b), &Type::Bool);
    assert_eq!(store.resolve(r), &Type::Range(-5, 10));
    assert_eq!(store.resolve(a), &Type::Arrow(b, r));
}

#[test]
fn arrow_built_twice_gives_one_identity() {
    let mut checker = Checker::new();
    let first = checker.subst_type(arrow(Working::Bool, Working::Range(-5, 10))).unwrap();
    let parts = vec![Working::Bool, Working::Range(-5, 10)];
    let second = checker.subst_type(arrow(parts[0].clone(), parts[1].clone())).unwrap();
    assert_eq!(first, second);
    assert_eq!(checker.lower.len(), 3);
    let other = checker.subst_type(arrow(Working::Bool, Working::Range(-5, 11))).unwrap();
    assert_ne!(first, other);
}

#[test]
fn the_parts_of_an_arrow_are_interned_before_it() {
    let mut checker = Checker::new();
    let id = checker.subst_type(arrow(Working::Bool, Working::Range(-5, 10))).unwrap();
    assert_eq!(id, TypeId(2));
    assert_eq!(checker.lower.resolve(id), &Type::Arrow(TypeId(0), TypeId(1)));
    assert_eq!(checker.lower.resolve(TypeId(0)), &Type::Bool);
    assert_eq!(checker.lower.resolve(TypeId(1)), &Type::Range(-5, 10));
}

#[test]
fn two_variables_with_one_binding_shape_share_an_identity() {
    let mut checker = Checker::new();
    let a = checker.fresh_type(Mutability::Mutable).unwrap();
    let b = checker.fresh_type(Mutability::Mutable).unwrap();
    checker.check_assignable(a.clone(), Working::Range(0, 10)).unwrap();
    checker.check_assignable(b.clone(), Working::Range(0, 10)).unwrap();
    let ia = checker.subst_type(a).unwrap();
    let ib = checker.subst_type(b).unwrap();
    assert_eq!(ia, ib);
    assert_eq!(checker.lower.len(), 1);
}

#[test]
fn the_store_of_a_session_becomes_a_table_of_types() {
    let mut checker = Checker::new();
    let id = checker.subst_type(arrow(Working::Regex, Working::Error)).unwrap();
    let types = checker.lower.types();
    assert!(types.contains(&id));
    assert!(!types.contains(&TypeId(3)));
    assert_eq!(types.get(&TypeId(0)), &Type::Regex);
    assert_eq!(types.get(&TypeId(1)), &Type::Error);
    assert_eq!(types.get(&id), &Type::Arrow(TypeId(0), TypeId(1)));
}

#[test]
fn types_add_replaces_and_get_finds() {
    let mut types = Types::new();
    assert!(!types.contains(&TypeId(7)));
    types.add(TypeId(7), Type::Bool);
    types.add(TypeId(8), Type::Bottom);
    assert_eq!(types.get(&TypeId(7)), &Type::Bool);
    types.add(TypeId(7), Type::Regex);
    assert_eq!(types.get(&TypeId(7)), &Type::Regex);
    assert_eq!(types.get(&TypeId(8)), &Type::Bottom);
}

#[test]
fn an_unsolved_variable_has_no_final_type() {
    let mut checker = Checker::new();
    let a = checker.fresh_type(Mutability::Mutable).unwrap();
    assert_eq!(checker.subst_type(a), Err(illiol::TypeError::UnresolvedTypeVariable));
    assert_eq!(
        checker.subst_type(Working::Var(Mutability::Immutable, TypeVar(41))),
        Err(illiol::TypeError::UnresolvedTypeVariable)
    );
}
