use illiol::mir::Literal;
use illiol::regex::Regex;
use illiol::typeck::context::Template;
use illiol::typeck::solve::Constraint;
use illiol::typeck::tween::Mutability;
use illiol::typeck::types::{Type, TypeVar};
use illiol::typeck::Checker;
use illiol::TypeError;

fn arrow(from: Type, into: Type) -> Type {
    Type::Arrow(Box::new(from), Box::new(into))
}

fn mutable(v: usize) -> Type {
    Type::Var(Mutability::Mutable, TypeVar(v))
}

fn immutable(v: usize) -> Type {
    Type::Var(Mutability::Immutable, TypeVar(v))
}

#[test]
fn range_bound_is_half_open() {
    let mut c = Checker::new();
    assert_eq!(c.solve_from_lit(Literal::Integer(0), Type::Range(0, 10)), Ok(()));
    assert_eq!(c.solve_from_lit(Literal::Integer(9), Type::Range(0, 10)), Ok(()));
    assert_eq!(
        c.solve_from_lit(Literal::Integer(10), Type::Range(0, 10)),
        Err(TypeError::LiteralConformance)
    );
    assert_eq!(
        c.solve_from_lit(Literal::Integer(-1), Type::Range(0, 10)),
        Err(TypeError::LiteralConformance)
    );
    assert_eq!(c.solve_from_lit(Literal::Integer(-5), Type::Range(-5, -4)), Ok(()));
    assert_eq!(
        c.solve_from_lit(Literal::Integer(3), Type::Range(3, 3)),
        Err(TypeError::LiteralConformance)
    );
    assert_eq!(
        c.solve_from_lit(Literal::Integer(i64::MAX), Type::Range(i64::MIN, i64::MAX)),
        Err(TypeError::LiteralConformance)
    );
    assert_eq!(c.solve_from_lit(Literal::Integer(i64::MIN), Type::Range(i64::MIN, i64::MAX)), Ok(()));
    assert!(c.worklist.is_empty());
}

#[test]
fn truth_values_and_patterns_have_one_type_each() {
    let mut c = Checker::new();
    assert_eq!(c.solve_from_lit(Literal::Boolean(true), Type::Bool), Ok(()));
    assert_eq!(c.solve_from_lit(Literal::Boolean(false), Type::Bool), Ok(()));
    assert_eq!(c.solve_from_lit(Literal::Regex("a+".to_string()), Type::Regex), Ok(()));
    assert_eq!(
        c.solve_from_lit(Literal::Boolean(true), Type::Regex),
        Err(TypeError::LiteralConformance)
    );
    assert_eq!(
        c.solve_from_lit(Literal::Regex("a+".to_string()), Type::Bool),
        Err(TypeError::LiteralConformance)
    );
    assert_eq!(
        c.solve_from_lit(Literal::Integer(1), Type::Bool),
        Err(TypeError::LiteralConformance)
    );
    assert_eq!(
        c.solve_from_lit(Literal::Boolean(true), Type::Error),
        Err(TypeError::LiteralConformance)
    );
    assert_eq!(
        c.solve_from_lit(Literal::Integer(1), Type::Bottom),
        Err(TypeError::LiteralConformance)
    );
}

#[test]
fn a_string_must_match_the_pattern_of_its_type() {
    let mut c = Checker::new();
    let ty = Type::String(Regex::new("^[a-c]+$"));
    assert_eq!(c.solve_from_lit(Literal::String("abcabc".to_string()), ty.clone()), Ok(()));
    assert_eq!(
        c.solve_from_lit(Literal::String("abd".to_string()), ty.clone()),
        Err(TypeError::LiteralConformance)
    );
    assert_eq!(
        c.solve_from_lit(Literal::String("".to_string()), ty),
        Err(TypeError::LiteralConformance)
    );
    assert_eq!(
        c.solve_from_lit(Literal::String("^[a-c]+$".to_string()), Type::String(Regex::new("^[a-c]+$"))),
        Err(TypeError::LiteralConformance)
    );
    assert_eq!(
        c.solve_from_lit(Literal::String("x".to_string()), Type::String(Regex::new("("))),
        Err(TypeError::LiteralConformance)
    );
    assert_eq!(
        c.solve_from_lit(Literal::String("x".to_string()), Type::Range(0, 1)),
        Err(TypeError::LiteralConformance)
    );
}

#[test]
fn a_literal_waits_for_an_unsolved_variable() {
    let mut c = Checker::new();
    let a = c.fresh_type(Mutability::Mutable).unwrap();
    assert_eq!(c.solve_from_lit(Literal::Integer(5), a.clone()), Ok(()));
    assert_eq!(c.worklist, vec![Constraint::FromLit(Literal::Integer(5), a.clone())]);
    assert_eq!(c.solve_constraints(), Ok(false));
    assert_eq!(c.worklist, vec![Constraint::FromLit(Literal::Integer(5), a.clone())]);
    assert_eq!(c.check_assignable(a, Type::Range(0, 5)), Ok(()));
    assert_eq!(c.solve_constraints(), Err(TypeError::LiteralConformance));
}

#[test]
fn a_literal_is_held_against_what_a_variable_stands_for() {
    let mut c = Checker::new();
    let a = c.fresh_type(Mutability::Immutable).unwrap();
    c.check_lit(Literal::Integer(5), a.clone());
    c.bind_var(TypeVar(0), Type::Range(0, 6));
    assert_eq!(c.solve_constraints(), Ok(true));
    assert!(c.worklist.is_empty());
}

#[test]
fn solving_nothing_succeeds() {
    let mut c = Checker::new();
    assert_eq!(c.solve_constraints(), Ok(true));
}

#[test]
fn a_round_without_progress_ends_solving() {
    let mut c = Checker::new();
    c.fresh_tyvar().unwrap();
    assert_eq!(c.check_assignable(immutable(0), Type::Bool), Ok(()));
    assert_eq!(c.check_assignable(immutable(0), Type::Range(0, 10)), Ok(()));
    assert_eq!(c.worklist.len(), 2);
    assert_eq!(c.solve_constraints(), Ok(false));
    assert_eq!(
        c.worklist,
        vec![
            Constraint::Assignable(immutable(0), Type::Bool),
            Constraint::Assignable(immutable(0), Type::Range(0, 10)),
        ]
    );
}

#[test]
fn solving_goes_on_while_the_worklist_shrinks() {
    let mut c = Checker::new();
    let a = c.fresh_type(Mutability::Mutable).unwrap();
    c.check_lit(Literal::Integer(1), a.clone());
    c.check_lit(Literal::Integer(2), Type::Range(0, 3));
    c.defer(Constraint::Assignable(a, Type::Range(0, 2)));
    assert_eq!(c.solve_constraints(), Ok(true));
    assert!(c.worklist.is_empty());
    assert_eq!(c.binding(TypeVar(0)), Some(&Type::Range(0, 2)));
}

#[test]
fn a_failing_judgment_ends_the_session() {
    let mut c = Checker::new();
    c.defer(Constraint::Assignable(Type::Bool, Type::Regex));
    assert_eq!(c.solve_constraints(), Err(TypeError::TypeMismatch));
}

#[test]
fn solve_attempts_one_judgment() {
    let mut c = Checker::new();
    let a = c.fresh_type(Mutability::Mutable).unwrap();
    assert_eq!(c.solve(Constraint::Assignable(a.clone(), Type::Regex)), Ok(()));
    assert_eq!(c.binding(TypeVar(0)), Some(&Type::Regex));
    assert_eq!(
        c.solve(Constraint::FromLit(Literal::Integer(1), a)),
        Err(TypeError::LiteralConformance)
    );
}

#[test]
fn mono_has_no_parameters() {
    let t = Template::mono(Type::Bool);
    assert!(t.params.is_empty());
    assert_eq!(t.uninst, Type::Bool);
}

#[test]
fn each_instance_has_variables_of_its_own() {
    let mut c = Checker::new();
    let id = Template {
        params: vec!["T".to_string()],
        uninst: arrow(Type::Named("T".to_string()), Type::Named("T".to_string())),
    };
    let first = c.instantiate(&id).unwrap();
    let second = c.instantiate(&id).unwrap();
    assert_eq!(first, arrow(mutable(0), mutable(0)));
    assert_eq!(second, arrow(mutable(1), mutable(1)));
    assert_eq!(c.check_assignable(mutable(0), Type::Range(0, 10)), Ok(()));
    assert_eq!(c.binding(TypeVar(0)), Some(&Type::Range(0, 10)));
    assert_eq!(c.binding(TypeVar(1)), None);
    assert_eq!(c.check_assignable(mutable(1), Type::Bool), Ok(()));
    assert_eq!(c.subst_type(first).is_ok(), true);
    assert_eq!(c.subst_type(second).is_ok(), true);
}

#[test]
fn a_later_parameter_of_the_same_name_wins() {
    let mut c = Checker::new();
    let t = Template {
        params: vec!["T".to_string(), "U".to_string(), "T".to_string()],
        uninst: arrow(Type::Named("T".to_string()), Type::Named("U".to_string())),
    };
    assert_eq!(c.instantiate(&t), Ok(arrow(mutable(2), mutable(1))));
    assert_eq!(c.curr_tyvar, TypeVar(3));
}

#[test]
fn the_instance_of_a_solved_variable_is_that_of_its_binding() {
    let mut c = Checker::new();
    let v = c.fresh_type(Mutability::Immutable).unwrap();
    c.bind_var(TypeVar(0), arrow(Type::Named("T".to_string()), Type::Bool));
    let vars = vec![("T".to_string(), Type::Regex)];
    assert_eq!(c.inst_ty(v, &vars), Ok(arrow(Type::Regex, Type::Bool)));
    assert!(c.worklist.is_empty());
}

#[test]
fn the_instance_of_an_unsolved_variable_is_deferred() {
    let mut c = Checker::new();
    let v = c.fresh_type(Mutability::Immutable).unwrap();
    let vars = vec![("T".to_string(), Type::Regex)];
    assert_eq!(c.inst_ty(arrow(v.clone(), Type::Bool), &vars), Ok(arrow(mutable(1), Type::Bool)));
    assert_eq!(c.worklist, vec![Constraint::Instantiate(vars.clone(), TypeVar(1), v.clone())]);
    assert_eq!(c.solve_constraints(), Ok(false));
    assert_eq!(c.worklist, vec![Constraint::Instantiate(vars, TypeVar(1), v)]);
    c.bind_var(TypeVar(0), arrow(Type::Named("T".to_string()), Type::Named("T".to_string())));
    assert_eq!(c.solve_constraints(), Ok(true));
    assert_eq!(c.binding(TypeVar(1)), Some(&arrow(Type::Regex, Type::Regex)));
}

#[test]
fn a_deferred_instance_must_agree_with_what_its_variable_became() {
    let mut c = Checker::new();
    let v = c.fresh_type(Mutability::Immutable).unwrap();
    let w = c.inst_ty(v, &Vec::new()).unwrap();
    assert_eq!(c.check_assignable(w, Type::Bool), Ok(()));
    c.bind_var(TypeVar(0), Type::Regex);
    assert_eq!(c.solve_constraints(), Err(TypeError::TypeMismatch));
}

#[test]
fn an_instance_that_is_bottom_is_bound_all_the_same() {
    let mut c = Checker::new();
    let v = c.fresh_type(Mutability::Immutable).unwrap();
    let w = c.inst_ty(v.clone(), &Vec::new()).unwrap();
    assert_eq!(w, mutable(1));
    assert_eq!(c.worklist, vec![Constraint::Instantiate(Vec::new(), TypeVar(1), v)]);
    c.bind_var(TypeVar(0), Type::Bottom);
    assert_eq!(c.solve_constraints(), Ok(true));
    assert!(c.worklist.is_empty());
    assert_eq!(c.binding(TypeVar(1)), Some(&Type::Bottom));
    let id = c.subst_type(w).unwrap();
    assert_eq!(c.lower.resolve(id), &illiol::types::Type::Bottom);
}

#[test]
fn solving_an_instantiation_binds_its_variable() {
    let mut c = Checker::new();
    c.fresh_tyvar().unwrap();
    c.fresh_tyvar().unwrap();
    c.bind_var(TypeVar(0), Type::Bottom);
    assert_eq!(c.solve(Constraint::Instantiate(Vec::new(), TypeVar(1), immutable(0))), Ok(()));
    assert_eq!(c.binding(TypeVar(1)), Some(&Type::Bottom));
    assert!(c.worklist.is_empty());

    let mut c = Checker::new();
    c.fresh_tyvar().unwrap();
    c.fresh_tyvar().unwrap();
    c.bind_var(TypeVar(0), arrow(Type::Named("T".to_string()), Type::Error));
    let vars = vec![("T".to_string(), Type::Range(0, 2))];
    assert_eq!(c.solve(Constraint::Instantiate(vars, TypeVar(1), immutable(0))), Ok(()));
    assert_eq!(c.binding(TypeVar(1)), Some(&arrow(Type::Range(0, 2), Type::Error)));
    assert!(c.worklist.is_empty());
}

#[test]
fn an_instance_in_which_its_variable_is_written_is_recursive() {
    let mut c = Checker::new();
    c.fresh_tyvar().unwrap();
    c.fresh_tyvar().unwrap();
    c.bind_var(TypeVar(0), arrow(Type::Named("T".to_string()), Type::Bool));
    let vars = vec![("T".to_string(), mutable(1))];
    assert_eq!(
        c.solve(Constraint::Instantiate(vars, TypeVar(1), immutable(0))),
        Err(TypeError::RecursiveType)
    );
    assert_eq!(c.binding(TypeVar(1)), None);
}

#[test]
fn an_instantiation_of_a_solved_variable_must_agree() {
    let mut c = Checker::new();
    c.fresh_tyvar().unwrap();
    c.fresh_tyvar().unwrap();
    c.bind_var(TypeVar(0), Type::Bottom);
    c.bind_var(TypeVar(1), Type::Bool);
    assert_eq!(c.solve(Constraint::Instantiate(Vec::new(), TypeVar(1), immutable(0))), Ok(()));
    assert_eq!(c.binding(TypeVar(1)), Some(&Type::Bool));

    let mut c = Checker::new();
    c.fresh_tyvar().unwrap();
    c.fresh_tyvar().unwrap();
    c.bind_var(TypeVar(0), Type::Regex);
    c.bind_var(TypeVar(1), Type::Bool);
    assert_eq!(
        c.solve(Constraint::Instantiate(Vec::new(), TypeVar(1), immutable(0))),
        Err(TypeError::TypeMismatch)
    );
}

#[test]
fn an_instance_has_no_variable_that_was_in_use() {
    let mut c = Checker::new();
    let a = c.fresh_type(Mutability::Mutable).unwrap();
    c.check_assignable(a, Type::Bool).unwrap();
    let id = Template {
        params: vec!["T".to_string()],
        uninst: arrow(Type::Named("T".to_string()), Type::Named("T".to_string())),
    };
    assert_eq!(c.instantiate(&id), Ok(arrow(mutable(1), mutable(1))));
    assert_eq!(c.binding(TypeVar(1)), None);
    assert_eq!(c.binding(TypeVar(0)), Some(&Type::Bool));
    assert!(c.context.is_empty());
}
