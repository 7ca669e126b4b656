use illiol::hir::{Decls, Expr, Literal, Pat, Type, ValueDef};
use illiol::mir;
use illiol::regex::Regex;
use illiol::typeck;
use illiol::types;
use illiol::types::TypeId;
use illiol::TypeError;

fn name(n: &str) -> Expr {
    Expr::Name(n.to_string())
}

fn call(f: Expr, a: Expr) -> Expr {
    Expr::Call(Box::new(f), Box::new(a))
}

fn anno(e: Expr, t: Type) -> Expr {
    Expr::Anno(Box::new(e), t)
}

fn fun(p: Pat, e: Expr) -> Expr {
    Expr::Fun(p, Box::new(e))
}

fn let_in(pat: Pat, bound: Expr, then: Expr, elze: Expr) -> Expr {
    Expr::Let { pat, bound: Box::new(bound), then: Box::new(then), elze: Box::new(elze) }
}

fn integer(v: i64) -> Expr {
    Expr::Lit(Literal::Integer(v))
}

fn arrow(a: Type, b: Type) -> Type {
    Type::Arrow(Box::new(a), Box::new(b))
}

fn param(n: &str) -> Type {
    Type::Named(n.to_string())
}

fn def(anno: Type, body: Expr) -> ValueDef {
    ValueDef { vars: Vec::new(), anno, body }
}

fn typed(node: mir::ExprNode, anno: usize) -> mir::Expr {
    mir::Expr { node, anno: TypeId(anno) }
}

fn boxed(node: mir::ExprNode, anno: usize) -> Box<mir::Expr> {
    Box::new(typed(node, anno))
}

fn identity() -> ValueDef {
    ValueDef {
        vars: vec!["T".to_string()],
        anno: Type::Wildcard,
        body: anno(fun(Pat::Bind("a".to_string()), name("a")), arrow(param("T"), param("T"))),
    }
}

fn scheme(params: &[&str], uninst: usize) -> mir::Template {
    mir::Template { params: params.iter().map(|p| p.to_string()).collect(), uninst: TypeId(uninst) }
}

fn check_store(program: &mir::Program, expected: Vec<types::Type>) {
    for (i, ty) in expected.iter().enumerate() {
        assert!(program.types.contains(&TypeId(i)));
        assert_eq!(program.types.get(&TypeId(i)), ty);
    }
    assert!(!program.types.contains(&TypeId(expected.len())));
}

#[test]
fn a_polymorphic_function_is_applied() {
    let prog = Decls {
        values: vec![
            ("f".to_string(), identity()),
            ("x".to_string(), def(Type::Range(0, 10), integer(5))),
            ("y".to_string(), def(Type::Wildcard, call(name("f"), name("x")))),
        ],
    };
    let checked = typeck(prog).unwrap();
    check_store(
        &checked,
        vec![
            types::Type::Named("T".to_string()),
            types::Type::Arrow(TypeId(0), TypeId(0)),
            types::Type::Range(0, 10),
            types::Type::Arrow(TypeId(2), TypeId(2)),
        ],
    );
    assert_eq!(
        checked.context,
        vec![
            ("f".to_string(), scheme(&["T"], 1)),
            ("x".to_string(), scheme(&[], 2)),
            ("y".to_string(), scheme(&[], 2)),
            ("a".to_string(), scheme(&[], 0)),
        ]
    );
    assert_eq!(
        checked.decls.values,
        vec![
            (
                "f".to_string(),
                typed(
                    mir::ExprNode::Fun(
                        mir::Pat::Bind("a".to_string()),
                        boxed(mir::ExprNode::Name("a".to_string()), 0),
                    ),
                    1,
                ),
            ),
            ("x".to_string(), typed(mir::ExprNode::Lit(mir::Literal::Integer(5)), 2)),
            (
                "y".to_string(),
                typed(
                    mir::ExprNode::Call(
                        boxed(mir::ExprNode::Name("f".to_string()), 3),
                        boxed(mir::ExprNode::Name("x".to_string()), 2),
                    ),
                    2,
                ),
            ),
        ]
    );
}

#[test]
fn a_declaration_may_refer_to_a_later_one() {
    let prog = Decls {
        values: vec![
            ("y".to_string(), def(Type::Wildcard, call(name("f"), name("x")))),
            ("f".to_string(), identity()),
            ("x".to_string(), def(Type::Range(0, 10), integer(5))),
        ],
    };
    let checked = typeck(prog).unwrap();
    check_store(
        &checked,
        vec![
            types::Type::Range(0, 10),
            types::Type::Named("T".to_string()),
            types::Type::Arrow(TypeId(1), TypeId(1)),
            types::Type::Arrow(TypeId(0), TypeId(0)),
        ],
    );
    assert_eq!(
        checked.context,
        vec![
            ("y".to_string(), scheme(&[], 0)),
            ("f".to_string(), scheme(&["T"], 2)),
            ("x".to_string(), scheme(&[], 0)),
            ("a".to_string(), scheme(&[], 1)),
        ]
    );
    assert_eq!(
        checked.decls.values[0],
        (
            "y".to_string(),
            typed(
                mir::ExprNode::Call(
                    boxed(mir::ExprNode::Name("f".to_string()), 3),
                    boxed(mir::ExprNode::Name("x".to_string()), 0),
                ),
                0,
            ),
        )
    );
    assert_eq!(checked.decls.values[1].1.anno, TypeId(2));
    assert_eq!(checked.decls.values[2].1, typed(mir::ExprNode::Lit(mir::Literal::Integer(5)), 0));
}

#[test]
fn polymorphic_instantiation_is_independent() {
    let prog = Decls {
        values: vec![
            ("id".to_string(), identity()),
            ("x".to_string(), def(Type::Range(0, 10), integer(5))),
            ("p".to_string(), def(Type::Wildcard, call(name("id"), name("x")))),
            (
                "q".to_string(),
                def(Type::Wildcard, call(name("id"), Expr::Lit(Literal::Boolean(true)))),
            ),
            ("r".to_string(), def(arrow(Type::Regex, Type::Regex), name("id"))),
        ],
    };
    let checked = typeck(prog).unwrap();
    let of = |n: &str| {
        let entry = checked.context.iter().find(|e| e.0 == n).unwrap();
        checked.types.get(&entry.1.uninst).clone()
    };
    assert_eq!(of("p"), types::Type::Range(0, 10));
    assert_eq!(of("q"), types::Type::Bool);
    let regex = checked
        .context
        .iter()
        .map(|e| e.1.uninst)
        .find(|id| checked.types.get(id) == &types::Type::Arrow(TypeId(id.0 - 1), TypeId(id.0 - 1)))
        .is_some();
    assert!(regex);
    match of("r") {
        types::Type::Arrow(a, b) => {
            assert_eq!(a, b);
            assert_eq!(checked.types.get(&a), &types::Type::Regex);
        }
        other => panic!("not an arrow: {:?}", other),
    }
    match of("id") {
        types::Type::Arrow(a, b) => {
            assert_eq!(a, b);
            assert_eq!(checked.types.get(&a), &types::Type::Named("T".to_string()));
        }
        other => panic!("not an arrow: {:?}", other),
    }
}

#[test]
fn let_binding_propagates_its_type() {
    let body = let_in(
        Pat::Bind("x'".to_string()),
        anno(integer(5), Type::Range(0, 10)),
        name("x'"),
        Expr::Impossible,
    );
    let prog = Decls { values: vec![("v".to_string(), def(Type::Wildcard, body))] };
    let checked = typeck(prog).unwrap();
    check_store(&checked, vec![types::Type::Range(0, 10), types::Type::Bottom]);
    assert_eq!(
        checked.context,
        vec![("v".to_string(), scheme(&[], 0)), ("x'".to_string(), scheme(&[], 0))]
    );
    assert_eq!(
        checked.decls.values,
        vec![(
            "v".to_string(),
            typed(
                mir::ExprNode::Let {
                    pat: mir::Pat::Bind("x'".to_string()),
                    bound: boxed(mir::ExprNode::Lit(mir::Literal::Integer(5)), 0),
                    then: boxed(mir::ExprNode::Name("x'".to_string()), 0),
                    elze: boxed(mir::ExprNode::Impossible, 1),
                },
                0,
            ),
        )]
    );
}

#[test]
fn unknown_name_yields_error_not_abort() {
    let prog = Decls {
        values: vec![
            ("a".to_string(), def(Type::Wildcard, name("y"))),
            ("b".to_string(), def(Type::Bool, Expr::Lit(Literal::Boolean(true)))),
            ("c".to_string(), def(Type::Range(0, 3), name("y"))),
        ],
    };
    let checked = typeck(prog).unwrap();
    assert_eq!(
        checked.context,
        vec![
            ("a".to_string(), scheme(&[], 0)),
            ("b".to_string(), scheme(&[], 1)),
            ("c".to_string(), scheme(&[], 2)),
        ]
    );
    assert_eq!(checked.types.get(&TypeId(0)), &types::Type::Error);
    assert_eq!(checked.types.get(&TypeId(1)), &types::Type::Bool);
    assert_eq!(checked.types.get(&TypeId(2)), &types::Type::Range(0, 3));
    assert_eq!(checked.decls.values[0], ("a".to_string(), typed(mir::ExprNode::Invalid, 0)));
    assert_eq!(
        checked.decls.values[1],
        ("b".to_string(), typed(mir::ExprNode::Lit(mir::Literal::Boolean(true)), 1))
    );
    assert_eq!(checked.decls.values[2], ("c".to_string(), typed(mir::ExprNode::Invalid, 0)));
}

#[test]
fn an_unknown_name_is_no_function() {
    let prog = Decls {
        values: vec![
            ("b".to_string(), def(Type::Bool, Expr::Lit(Literal::Boolean(true)))),
            ("c".to_string(), def(Type::Range(0, 3), call(name("y"), name("b")))),
        ],
    };
    assert_eq!(typeck(prog).err(), Some(TypeError::TypeMismatch));
}

#[test]
fn an_invalid_expression_has_the_error_type() {
    let prog = Decls { values: vec![("a".to_string(), def(Type::Invalid, Expr::Invalid))] };
    let checked = typeck(prog).unwrap();
    check_store(&checked, vec![types::Type::Error]);
    assert_eq!(checked.decls.values, vec![("a".to_string(), typed(mir::ExprNode::Invalid, 0))]);
}

#[test]
fn a_literal_without_a_type_is_left_unsolved() {
    let prog = Decls { values: vec![("y".to_string(), def(Type::Wildcard, integer(5)))] };
    assert_eq!(typeck(prog).err(), Some(TypeError::UnsolvedConstraints));
}

#[test]
fn an_unapplied_function_without_annotation_is_left_unsolved() {
    let prog = Decls {
        values: vec![("f".to_string(), def(Type::Wildcard, fun(Pat::Bind("a".to_string()), name("a"))))],
    };
    assert_eq!(typeck(prog).err(), Some(TypeError::UnsolvedConstraints));
}

#[test]
fn a_type_that_nothing_decides_is_unresolved() {
    let prog = Decls { values: vec![("y".to_string(), def(Type::Wildcard, Expr::Impossible))] };
    assert_eq!(typeck(prog).err(), Some(TypeError::UnresolvedTypeVariable));
}

#[test]
fn an_integer_at_the_upper_bound_is_rejected() {
    let prog = Decls { values: vec![("x".to_string(), def(Type::Range(0, 10), integer(10)))] };
    assert_eq!(typeck(prog).err(), Some(TypeError::LiteralConformance));
    let prog = Decls { values: vec![("x".to_string(), def(Type::Range(0, 10), integer(0)))] };
    assert!(typeck(prog).is_ok());
}

#[test]
fn a_string_is_held_against_its_pattern() {
    let ty = Type::String(Regex::new("^[0-9]{4}-[0-9]{2}$"));
    let good = Expr::Lit(Literal::String("2024-06".to_string()));
    let bad = Expr::Lit(Literal::String("2024-6".to_string()));
    let prog = Decls { values: vec![("d".to_string(), def(ty.clone(), good))] };
    let checked = typeck(prog).unwrap();
    check_store(&checked, vec![types::Type::String(Regex::new("^[0-9]{4}-[0-9]{2}$"))]);
    let prog = Decls { values: vec![("d".to_string(), def(ty, bad))] };
    assert_eq!(typeck(prog).err(), Some(TypeError::LiteralConformance));
}

#[test]
fn a_body_must_have_the_declared_type() {
    let prog = Decls {
        values: vec![("b".to_string(), def(Type::Bool, anno(integer(5), Type::Range(0, 10))))],
    };
    assert_eq!(typeck(prog).err(), Some(TypeError::TypeMismatch));
    let prog = Decls {
        values: vec![("b".to_string(), def(Type::Bool, Expr::Lit(Literal::Regex("a".to_string()))))],
    };
    assert_eq!(typeck(prog).err(), Some(TypeError::TypeMismatch));
}

#[test]
fn a_function_in_function_position_needs_an_annotation() {
    let prog = Decls {
        values: vec![(
            "g".to_string(),
            def(Type::Bool, call(fun(Pat::Wildcard, name("g")), Expr::Lit(Literal::Boolean(true)))),
        )],
    };
    assert_eq!(typeck(prog).err(), Some(TypeError::AmbiguousExpression));
}

#[test]
fn constructor_patterns_have_no_rule() {
    let body = let_in(
        Pat::Constructor("Some".to_string()),
        Expr::Lit(Literal::Boolean(true)),
        Expr::Impossible,
        Expr::Impossible,
    );
    let prog = Decls { values: vec![("c".to_string(), def(Type::Bool, body))] };
    assert_eq!(typeck(prog).err(), Some(TypeError::UnsupportedPattern));
    let body = fun(
        Pat::Apply(Box::new(Pat::Constructor("Some".to_string())), Box::new(Pat::Wildcard)),
        Expr::Impossible,
    );
    let prog = Decls { values: vec![("c".to_string(), def(arrow(Type::Bool, Type::Bool), body))] };
    assert_eq!(typeck(prog).err(), Some(TypeError::UnsupportedPattern));
}

#[test]
fn calling_what_is_no_function_fails() {
    let prog = Decls {
        values: vec![
            ("b".to_string(), def(Type::Bool, Expr::Lit(Literal::Boolean(true)))),
            ("c".to_string(), def(Type::Bool, call(name("b"), name("b")))),
        ],
    };
    assert_eq!(typeck(prog).err(), Some(TypeError::TypeMismatch));
}

#[test]
fn the_empty_program_checks() {
    let checked = typeck(Decls { values: Vec::new() }).unwrap();
    assert!(checked.context.is_empty());
    assert!(checked.decls.values.is_empty());
    assert!(!checked.types.contains(&TypeId(0)));
}

#[test]
fn a_function_is_checked_against_its_declared_arrow() {
    let prog = Decls {
        values: vec![(
            "inc".to_string(),
            def(
                arrow(Type::Range(0, 10), Type::Range(0, 10)),
                fun(Pat::Bind("n".to_string()), name("n")),
            ),
        )],
    };
    let checked = typeck(prog).unwrap();
    check_store(
        &checked,
        vec![types::Type::Range(0, 10), types::Type::Arrow(TypeId(0), TypeId(0))],
    );
    let prog = Decls {
        values: vec![(
            "bad".to_string(),
            def(
                arrow(Type::Range(0, 20), Type::Range(0, 5)),
                fun(Pat::Bind("n".to_string()), name("n")),
            ),
        )],
    };
    assert_eq!(typeck(prog).err(), Some(TypeError::TypeMismatch));
}

#[test]
fn a_literal_pattern_is_held_against_the_bound_type() {
    let body = let_in(
        Pat::Lit(Literal::Integer(3)),
        anno(integer(5), Type::Range(0, 10)),
        Expr::Lit(Literal::Boolean(true)),
        Expr::Lit(Literal::Boolean(false)),
    );
    let prog = Decls { values: vec![("t".to_string(), def(Type::Bool, body))] };
    assert!(typeck(prog).is_ok());
    let body = let_in(
        Pat::Lit(Literal::Integer(30)),
        anno(integer(5), Type::Range(0, 10)),
        Expr::Lit(Literal::Boolean(true)),
        Expr::Lit(Literal::Boolean(false)),
    );
    let prog = Decls { values: vec![("t".to_string(), def(Type::Bool, body))] };
    assert_eq!(typeck(prog).err(), Some(TypeError::LiteralConformance));
}

#[test]
fn declarations_are_kept_once_per_name() {
    let mut prog = Decls::new();
    assert!(prog.values.is_empty());
    prog.insert("x".to_string(), def(Type::Range(0, 10), integer(5)));
    prog.insert("y".to_string(), def(Type::Bool, Expr::Lit(Literal::Boolean(true))));
    prog.insert("x".to_string(), def(Type::Range(0, 3), integer(2)));
    assert_eq!(prog.values.len(), 2);
    assert_eq!(prog.values[0].0, "x");
    assert_eq!(prog.get(&"x".to_string()), Some(&def(Type::Range(0, 3), integer(2))));
    assert_eq!(prog.get(&"y".to_string()).map(|d| d.anno.clone()), Some(Type::Bool));
    assert_eq!(prog.get(&"z".to_string()), None);
    let checked = typeck(prog).unwrap();
    check_store(&checked, vec![types::Type::Range(0, 3), types::Type::Bool]);
}

#[test]
fn a_name_declared_twice_has_its_last_type() {
    let prog = Decls {
        values: vec![
            ("x".to_string(), def(Type::Bool, Expr::Lit(Literal::Boolean(true)))),
            ("x".to_string(), def(Type::Regex, Expr::Lit(Literal::Regex("a".to_string())))),
        ],
    };
    assert_eq!(typeck(prog).err(), Some(TypeError::TypeMismatch));
    let prog = Decls {
        values: vec![
            ("x".to_string(), def(Type::Bool, Expr::Lit(Literal::Boolean(true)))),
            ("x".to_string(), def(Type::Bool, Expr::Lit(Literal::Boolean(false)))),
        ],
    };
    let checked = typeck(prog).unwrap();
    assert_eq!(checked.context, vec![("x".to_string(), scheme(&[], 0))]);
    assert_eq!(
        checked.decls.values,
        vec![("x".to_string(), typed(mir::ExprNode::Lit(mir::Literal::Boolean(false)), 0))]
    );
}
