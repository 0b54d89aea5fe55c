use typthon::cli_checker::{type_from_annotation, TypeChecker};
use typthon::pyast::{Constant, Expr, Module, Operator, Param, Stmt};
use typthon::types::Type;

fn name(s: &str) -> Expr {
    Expr::Name(s.to_string())
}

fn lit(n: i64) -> Expr {
    Expr::Constant(Constant::Int(Some(n)))
}

fn attr(v: Expr, a: &str) -> Expr {
    Expr::Attribute(Box::new(v), a.to_string())
}

#[test]
fn annotations_of_the_command_line_checker() {
    assert_eq!(type_from_annotation(&name("int")), Type::Int);
    assert_eq!(type_from_annotation(&name("Point")), Type::Class("Point".to_string()));
    let sub = Expr::Subscript(Box::new(name("Optional")), Box::new(name("int")));
    assert_eq!(type_from_annotation(&sub), Type::Generic("Optional".to_string(), vec![Type::Int]));
    let or = Expr::BinOp(Box::new(name("int")), Operator::BitOr, Box::new(name("int")));
    assert_eq!(type_from_annotation(&or), Type::Union(vec![Type::Int, Type::Int]));
}

#[test]
fn missing_attribute_is_reported_with_suggestion() {
    let mut checker = TypeChecker::new();
    let module = Module {
        body: vec![
            Stmt::Assign { targets: vec![name("s")], value: Expr::Constant(Constant::Str("a".to_string())) },
            Stmt::Expr(attr(name("s"), "uper")),
        ],
    };
    let errors = checker.check(&module);
    assert_eq!(errors.len(), 1);
    assert_eq!(errors[0].message, "Type 'str' has no attribute 'uper'. Did you mean: upper?");
}

#[test]
fn arithmetic_and_calls() {
    let mut checker = TypeChecker::new();
    let module = Module {
        body: vec![
            Stmt::FunctionDef {
                name: "f".to_string(),
                params: vec![Param { name: "x".to_string(), annotation: Some(name("int")) }],
                result: Some(name("str")),
                body: vec![],
            },
            Stmt::Assign {
                targets: vec![name("y")],
                value: Expr::Call(Box::new(name("f")), vec![lit(1)]),
            },
            Stmt::Assign {
                targets: vec![name("z")],
                value: Expr::BinOp(Box::new(lit(1)), Operator::Add, Box::new(Expr::Constant(Constant::Float))),
            },
            Stmt::Expr(attr(name("y"), "upper")),
        ],
    };
    assert!(checker.check(&module).is_empty());
    assert_eq!(checker.infer(&Module { body: vec![] }), Type::NoneType);
}
