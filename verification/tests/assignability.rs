use illiol::regex::Regex;
use illiol::typeck::solve::Constraint;
use illiol::typeck::tween::Mutability;
use illiol::typeck::types::{Type, TypeVar};
use illiol::typeck::Checker;
use illiol::TypeError;

fn arrow(from: Type, into: Type) -> Type {
    Type::Arrow(Box::new(from), Box::new(into))
}

fn mutable(v: usize) -> Type {
    Type::Var(Mutability::Mutable, TypeVar(v))
}

fn immutable(v: usize) -> Type {
    Type::Var(Mutability::Immutable, TypeVar(v))
}

/// A session that has handed out the variables below `n`.
fn session(n: usize) -> Checker {
    let mut c = Checker::new();
    for _ in 0..n {
        c.fresh_tyvar().unwrap();
    }
    c
}

#[test]
fn equal_types_are_assignable() {
    let mut c = session(4);
    assert_eq!(c.check_assignable(Type::Bool, Type::Bool), Ok(()));
    assert_eq!(c.check_assignable(Type::Regex, Type::Regex), Ok(()));
    assert_eq!(c.check_assignable(Type::Range(0, 10), Type::Range(0, 10)), Ok(()));
    assert_eq!(
        c.check_assignable(Type::String(Regex::new("a+")), Type::String(Regex::new("a+"))),
        Ok(())
    );
    assert_eq!(c.check_assignable(immutable(3), immutable(3)), Ok(()));
    assert_eq!(
        c.check_assignable(Type::Named("T".to_string()), Type::Named("T".to_string())),
        Ok(())
    );
    assert!(c.subst.is_empty());
    assert!(c.worklist.is_empty());
}

#[test]
fn bottom_is_assignable_to_anything() {
    let mut c = session(1);
    assert_eq!(c.check_assignable(Type::Bool, Type::Bottom), Ok(()));
    assert_eq!(c.check_assignable(Type::Range(0, 1), Type::Bottom), Ok(()));
    assert_eq!(c.check_assignable(mutable(0), Type::Bottom), Ok(()));
    assert!(c.subst.is_empty());
    assert_eq!(c.check_assignable(Type::Bottom, Type::Bool), Err(TypeError::TypeMismatch));
}

#[test]
fn ranges_are_invariant() {
    let mut c = Checker::new();
    assert_eq!(
        c.check_assignable(Type::Range(0, 20), Type::Range(0, 10)),
        Err(TypeError::TypeMismatch)
    );
    assert_eq!(
        c.check_assignable(Type::Range(0, 10), Type::Range(1, 10)),
        Err(TypeError::TypeMismatch)
    );
}

#[test]
fn string_types_compare_by_pattern_text() {
    let mut c = Checker::new();
    assert_eq!(
        c.check_assignable(Type::String(Regex::new("a|b")), Type::String(Regex::new("b|a"))),
        Err(TypeError::TypeMismatch)
    );
}

#[test]
fn arrow_variance() {
    let mut c = Checker::new();
    let f = arrow(Type::Range(0, 10), Type::Range(0, 10));
    assert_eq!(c.check_assignable(arrow(Type::Range(0, 10), Type::Range(0, 10)), f.clone()), Ok(()));
    assert_eq!(
        c.check_assignable(arrow(Type::Range(0, 20), Type::Range(0, 5)), f),
        Err(TypeError::TypeMismatch)
    );
}

#[test]
fn the_domain_is_checked_against_the_offered_function() {
    let mut c = Checker::new();
    assert_eq!(
        c.check_assignable(arrow(Type::Bottom, Type::Bool), arrow(Type::Bool, Type::Bool)),
        Ok(())
    );
    assert_eq!(
        c.check_assignable(arrow(Type::Bool, Type::Bool), arrow(Type::Bottom, Type::Bool)),
        Err(TypeError::TypeMismatch)
    );
    assert_eq!(
        c.check_assignable(arrow(Type::Bool, Type::Bool), arrow(Type::Bool, Type::Bottom)),
        Ok(())
    );
    assert_eq!(
        c.check_assignable(arrow(Type::Bool, Type::Bottom), arrow(Type::Bool, Type::Bool)),
        Err(TypeError::TypeMismatch)
    );
}

#[test]
fn a_free_mutable_variable_is_bound_to_the_other_side() {
    let mut c = Checker::new();
    let a = c.fresh_type(Mutability::Mutable).unwrap();
    let b = c.fresh_type(Mutability::Mutable).unwrap();
    assert_eq!(c.check_assignable(a.clone(), Type::Range(0, 10)), Ok(()));
    assert_eq!(c.binding(TypeVar(0)), Some(&Type::Range(0, 10)));
    assert_eq!(c.check_assignable(Type::Bool, b.clone()), Ok(()));
    assert_eq!(c.binding(TypeVar(1)), Some(&Type::Bool));
    assert_eq!(c.check_assignable(a, Type::Range(0, 10)), Ok(()));
    assert_eq!(c.check_assignable(Type::Range(0, 10), b), Err(TypeError::TypeMismatch));
}

#[test]
fn the_left_variable_is_bound_first() {
    let mut c = Checker::new();
    let a = c.fresh_type(Mutability::Mutable).unwrap();
    let b = c.fresh_type(Mutability::Mutable).unwrap();
    assert_eq!(c.check_assignable(a, b.clone()), Ok(()));
    assert_eq!(c.binding(TypeVar(0)), Some(&b));
    assert_eq!(c.binding(TypeVar(1)), None);
}

#[test]
fn one_variable_cannot_be_both_bool_and_range() {
    let mut c = Checker::new();
    let a = c.fresh_type(Mutability::Mutable).unwrap();
    assert_eq!(c.check_assignable(a.clone(), Type::Bool), Ok(()));
    assert_eq!(c.check_assignable(a, Type::Range(0, 10)), Err(TypeError::TypeMismatch));
}

#[test]
fn occurs_check_rejects_self_referential_arrow() {
    let mut c = Checker::new();
    let v = c.fresh_type(Mutability::Mutable).unwrap();
    assert_eq!(
        c.check_assignable(v.clone(), arrow(v.clone(), Type::Bool)),
        Err(TypeError::RecursiveType)
    );
    assert_eq!(c.check_assignable(arrow(v.clone(), Type::Bool), v), Err(TypeError::RecursiveType));
    assert_eq!(
        c.check_assignable(mutable(0), arrow(Type::Bool, arrow(immutable(0), Type::Bool))),
        Err(TypeError::RecursiveType)
    );
    assert!(c.subst.is_empty());
}

#[test]
fn occurs_looks_through_arrows_only() {
    let c = Checker::new();
    assert!(c.occurs(&TypeVar(1), &mutable(1)));
    assert!(c.occurs(&TypeVar(1), &immutable(1)));
    assert!(!c.occurs(&TypeVar(1), &mutable(2)));
    assert!(c.occurs(&TypeVar(1), &arrow(Type::Bool, arrow(mutable(1), Type::Regex))));
    assert!(!c.occurs(&TypeVar(1), &arrow(Type::Bool, Type::Named("T".to_string()))));
}

#[test]
fn an_immutable_variable_defers_the_judgment() {
    let mut c = session(2);
    assert_eq!(c.check_assignable(immutable(0), Type::Bool), Ok(()));
    assert_eq!(c.check_assignable(Type::Regex, immutable(1)), Ok(()));
    assert!(c.subst.is_empty());
    assert_eq!(
        c.worklist,
        vec![
            Constraint::Assignable(immutable(0), Type::Bool),
            Constraint::Assignable(Type::Regex, immutable(1)),
        ]
    );
}

#[test]
fn parameter_names_must_agree() {
    let mut c = Checker::new();
    assert_eq!(
        c.check_assignable(Type::Named("T".to_string()), Type::Named("U".to_string())),
        Err(TypeError::TypeMismatch)
    );
}

#[test]
fn the_error_type_is_absorbing() {
    let mut c = Checker::new();
    assert_eq!(c.check_assignable(Type::Error, Type::Bool), Ok(()));
    assert_eq!(c.check_assignable(arrow(Type::Bool, Type::Bool), Type::Error), Ok(()));
    assert_eq!(c.check_assignable(Type::Bool, Type::Regex), Err(TypeError::TypeMismatch));
    assert_eq!(
        c.check_assignable(Type::Bool, arrow(Type::Bool, Type::Bool)),
        Err(TypeError::TypeMismatch)
    );
}

#[test]
fn a_cycle_of_bindings_is_a_recursive_type() {
    let mut c = Checker::new();
    let a = c.fresh_type(Mutability::Mutable).unwrap();
    let b = c.fresh_type(Mutability::Mutable).unwrap();
    assert_eq!(c.check_assignable(a.clone(), b.clone()), Ok(()));
    assert_eq!(c.check_assignable(b, arrow(a.clone(), Type::Bool)), Ok(()));
    assert_eq!(c.subst_type(a.clone()), Err(TypeError::RecursiveType));
    assert_eq!(
        c.check_assignable(a.clone(), arrow(arrow(a, Type::Bool), Type::Bool)),
        Err(TypeError::RecursiveType)
    );
}

#[test]
fn a_chain_of_bindings_is_followed_to_its_end() {
    let mut c = Checker::new();
    let a = c.fresh_type(Mutability::Mutable).unwrap();
    let b = c.fresh_type(Mutability::Mutable).unwrap();
    let d = c.fresh_type(Mutability::Mutable).unwrap();
    assert_eq!(c.check_assignable(a.clone(), b.clone()), Ok(()));
    assert_eq!(c.check_assignable(b, d.clone()), Ok(()));
    assert_eq!(c.check_assignable(d, Type::Range(1, 2)), Ok(()));
    assert_eq!(c.check_assignable(a.clone(), Type::Range(1, 2)), Ok(()));
    assert_eq!(c.check_assignable(Type::Range(1, 3), a), Err(TypeError::TypeMismatch));
}

#[test]
fn as_fun_ty_splits_an_arrow() {
    let mut c = Checker::new();
    assert_eq!(
        c.as_fun_ty(arrow(Type::Bool, Type::Range(0, 1))),
        Ok((Type::Bool, Type::Range(0, 1)))
    );
    assert!(c.worklist.is_empty());
    assert_eq!(c.curr_tyvar, TypeVar(0));
}

#[test]
fn as_fun_ty_invents_the_parts_of_a_variable() {
    let mut c = Checker::new();
    let f = c.fresh_type(Mutability::Mutable).unwrap();
    assert_eq!(c.as_fun_ty(f.clone()), Ok((mutable(1), mutable(2))));
    assert_eq!(c.worklist, vec![Constraint::Assignable(arrow(mutable(1), mutable(2)), f)]);
    assert_eq!(c.curr_tyvar, TypeVar(3));
}

#[test]
fn as_fun_ty_rejects_what_is_no_function() {
    let mut c = Checker::new();
    assert_eq!(c.as_fun_ty(Type::Bool), Err(TypeError::TypeMismatch));
    assert_eq!(c.as_fun_ty(Type::Error), Err(TypeError::TypeMismatch));
}

#[test]
fn the_supply_of_variables_ends() {
    let mut c = Checker::new();
    c.curr_tyvar = TypeVar(usize::MAX - 1);
    assert_eq!(c.fresh_tyvar(), Ok(TypeVar(usize::MAX - 1)));
    assert_eq!(c.fresh_tyvar(), Err(TypeError::VariableLimit));
    assert_eq!(c.fresh_type(Mutability::Mutable), Err(TypeError::VariableLimit));
    assert_eq!(c.as_fun_ty(mutable(0)), Err(TypeError::VariableLimit));
}

#[test]
fn same_compares_structure() {
    assert!(arrow(Type::Bool, mutable(1)).same(&arrow(Type::Bool, mutable(1))));
    assert!(!arrow(Type::Bool, mutable(1)).same(&arrow(Type::Bool, immutable(1))));
    assert!(!Type::Range(0, 1).same(&Type::Range(0, 2)));
    assert!(Type::String(Regex::new("x")).same(&Type::String(Regex::new("x"))));
    assert!(!Type::Bottom.same(&Type::Error));
}

#[test]
fn make_mutable_tags_every_variable() {
    let ty = arrow(immutable(0), arrow(mutable(1), Type::Named("T".to_string())));
    assert_eq!(
        ty.make_mutable(),
        arrow(mutable(0), arrow(mutable(1), Type::Named("T".to_string())))
    );
    let ty = arrow(mutable(0), Type::Bool);
    assert_eq!(ty.make_mutability(Mutability::Immutable), arrow(immutable(0), Type::Bool));
}

#[test]
fn instantiate_replaces_bound_parameters() {
    let vars = vec![("T".to_string(), Type::Bool), ("U".to_string(), mutable(4))];
    let ty = arrow(
        Type::Named("T".to_string()),
        arrow(Type::Named("V".to_string()), Type::Named("U".to_string())),
    );
    assert_eq!(
        ty.instantiate(&vars),
        arrow(Type::Bool, arrow(Type::Named("V".to_string()), mutable(4)))
    );
    assert_eq!(immutable(2).instantiate(&vars), immutable(2));
}
