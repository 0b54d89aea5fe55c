use typthon::checker::{is_compatible, type_from_annotation, TypeChecker};
use typthon::pyast::{Constant, Expr, Module, Operator, Param, Stmt};
use typthon::types::Type;

fn name(s: &str) -> Expr {
    Expr::Name(s.to_string())
}

fn lit(n: i64) -> Expr {
    Expr::Constant(Constant::Int(Some(n)))
}

fn string(s: &str) -> Expr {
    Expr::Constant(Constant::Str(s.to_string()))
}

fn subscript(v: &str, slice: Expr) -> Expr {
    Expr::Subscript(Box::new(name(v)), Box::new(slice))
}

fn messages(errors: &[typthon::checker::TypeError]) -> Vec<String> {
    errors.iter().map(|e| e.message.clone()).collect()
}

#[test]
fn annotations_denote_types() {
    assert_eq!(type_from_annotation(&name("int")), Type::Int);
    assert_eq!(type_from_annotation(&name("None")), Type::NoneType);
    assert_eq!(type_from_annotation(&name("Point")), Type::Class("Point".to_string()));
    assert_eq!(type_from_annotation(&subscript("List", name("str"))), Type::List(Box::new(Type::Str)));
    assert_eq!(
        type_from_annotation(&subscript("Dict", Expr::Tuple(vec![name("str"), name("int")]))),
        Type::Dict(Box::new(Type::Str), Box::new(Type::Int))
    );
    assert_eq!(
        type_from_annotation(&subscript("Optional", name("int"))),
        Type::Union(vec![Type::Int, Type::NoneType])
    );
    assert_eq!(
        type_from_annotation(&Expr::BinOp(Box::new(name("int")), Operator::BitOr, Box::new(name("str")))),
        Type::Union(vec![Type::Int, Type::Str])
    );
    assert_eq!(
        type_from_annotation(&subscript("Sequence", name("int"))),
        Type::Generic("Sequence".to_string(), vec![Type::Int])
    );
    let bounded = Expr::Call(Box::new(name("Bounded")), vec![lit(0), lit(100)]);
    assert_eq!(type_from_annotation(&bounded).to_string(), "int[(value >= 0 && value <= 100)]");
    assert_eq!(type_from_annotation(&string("x")), Type::Any);
}

#[test]
fn compatibility_of_types() {
    assert!(is_compatible(&Type::Int, &Type::Float));
    assert!(!is_compatible(&Type::Float, &Type::Int));
    assert!(is_compatible(&Type::Str, &Type::Union(vec![Type::Int, Type::Str])));
    assert!(is_compatible(&Type::Var(3), &Type::Int));
    assert!(!is_compatible(
        &Type::Tuple(vec![Type::Int]),
        &Type::Tuple(vec![Type::Int, Type::Int])
    ));
    assert!(is_compatible(
        &Type::List(Box::new(Type::Int)),
        &Type::List(Box::new(Type::Any))
    ));
}

#[test]
fn annotated_assignment_of_wrong_type() {
    let mut checker = TypeChecker::new();
    let module = Module {
        body: vec![Stmt::AnnAssign { target: name("x"), annotation: name("int"), value: Some(string("hello")) }],
    };
    let errors = checker.check(&module);
    assert_eq!(errors.len(), 2);
    assert_eq!(errors[0].message, "Type mismatch: cannot assign str to variable 'x' of type int");
    assert!(errors[1].message.starts_with("Constraint solving failed: "));
    assert_eq!(errors[0].to_string(), "Line 0, Col 0: Type mismatch: cannot assign str to variable 'x' of type int");
    assert_eq!(checker.get_type("x"), Some(Type::Int));
}

#[test]
fn well_typed_module_has_no_errors() {
    let mut checker = TypeChecker::new();
    let module = Module {
        body: vec![
            Stmt::AnnAssign { target: name("x"), annotation: name("int"), value: Some(lit(1)) },
            Stmt::Assign {
                targets: vec![name("y")],
                value: Expr::BinOp(Box::new(lit(1)), Operator::Add, Box::new(lit(2))),
            },
        ],
    };
    let errors = checker.check(&module);
    assert!(errors.is_empty(), "{:?}", messages(&errors));
    assert_eq!(checker.get_type("y"), Some(Type::Int));
}

#[test]
fn return_type_mismatch() {
    let mut checker = TypeChecker::new();
    let module = Module {
        body: vec![Stmt::FunctionDef {
            name: "f".to_string(),
            params: vec![],
            result: Some(name("int")),
            body: vec![Stmt::Return(Some(string("s")))],
        }],
    };
    let errors = checker.check(&module);
    assert_eq!(messages(&errors), vec!["Return type mismatch: expected Int, got Str".to_string()]);
    assert_eq!(checker.get_type("f"), Some(Type::Function(vec![], Box::new(Type::Int))));
}

#[test]
fn calls_check_arguments() {
    let mut checker = TypeChecker::new();
    let f = Stmt::FunctionDef {
        name: "f".to_string(),
        params: vec![Param { name: "x".to_string(), annotation: Some(name("int")) }],
        result: Some(name("int")),
        body: vec![Stmt::Return(Some(name("x")))],
    };
    let module = Module {
        body: vec![
            f,
            Stmt::Expr(Expr::Call(Box::new(name("f")), vec![lit(1), lit(2)])),
            Stmt::Expr(Expr::Call(Box::new(name("f")), vec![string("s")])),
        ],
    };
    let errors = checker.check(&module);
    assert_eq!(
        messages(&errors),
        vec![
            "Function call argument count mismatch: expected 1, got 2".to_string(),
            "Argument 0 type mismatch: expected Int, got Str".to_string(),
        ]
    );
}

#[test]
fn missing_attribute_suggests_close_names() {
    let mut checker = TypeChecker::new();
    let module = Module {
        body: vec![
            Stmt::Expr(Expr::Attribute(Box::new(string("abc")), "uper".to_string())),
            Stmt::Expr(Expr::Attribute(Box::new(lit(1)), "real".to_string())),
        ],
    };
    let errors = checker.check(&module);
    assert_eq!(
        messages(&errors),
        vec![
            "Type 'str' has no attribute 'uper'. Did you mean: upper?".to_string(),
            "Type 'int' has no attribute 'real'".to_string(),
        ]
    );
}

#[test]
fn functions_carry_their_effects() {
    let mut checker = TypeChecker::new();
    let module = Module {
        body: vec![Stmt::FunctionDef {
            name: "g".to_string(),
            params: vec![],
            result: None,
            body: vec![Stmt::Expr(Expr::Call(Box::new(name("print")), vec![string("x")]))],
        }],
    };
    let errors = checker.check(&module);
    assert!(errors.is_empty());
    assert_eq!(checker.get_type("g").unwrap().to_string(), "() -> T0 ! {IO}");
    assert!(checker.get_function_effects("g").is_some());
}

#[test]
fn classes_record_self_attributes() {
    let mut checker = TypeChecker::new();
    let init = Stmt::FunctionDef {
        name: "__init__".to_string(),
        params: vec![Param { name: "self".to_string(), annotation: None }],
        result: None,
        body: vec![Stmt::Assign {
            targets: vec![Expr::Attribute(Box::new(name("self")), "count".to_string())],
            value: lit(0),
        }],
    };
    let module = Module {
        body: vec![
            Stmt::ClassDef { name: "Counter".to_string(), body: vec![init] },
            Stmt::AnnAssign { target: name("c"), annotation: name("Counter"), value: None },
            Stmt::Assign {
                targets: vec![name("n")],
                value: Expr::Attribute(Box::new(name("c")), "count".to_string()),
            },
        ],
    };
    let errors = checker.check(&module);
    assert!(errors.is_empty(), "{:?}", messages(&errors));
    assert_eq!(checker.get_type("n"), Some(Type::Int));
}

#[test]
fn loops_bind_element_types() {
    let mut checker = TypeChecker::new();
    let module = Module {
        body: vec![Stmt::For {
            target: name("c"),
            iter: Expr::List(vec![string("a"), string("b")]),
            body: vec![],
            orelse: vec![],
        }],
    };
    assert!(checker.check(&module).is_empty());
    assert_eq!(checker.get_type("c"), Some(Type::Str));
    assert_eq!(checker.infer(&module), Type::NoneType);
}

#[test]
fn bidirectional_checks() {
    let mut checker = TypeChecker::new();
    assert!(checker.bi_check(&lit(3), &Type::Int));
    assert!(!checker.bi_check(&string("s"), &Type::Int));
    assert!(checker.bi_check(&Expr::Call(Box::new(name("len")), vec![string("s")]), &Type::Int));
    assert!(checker.check_recursive_type(&Type::Int));
}

#[test]
fn infer_types_gives_none() {
    let module = Module { body: vec![Stmt::Assign { targets: vec![name("x")], value: lit(1) }] };
    assert_eq!(typthon::checker::infer_types(&module), Type::NoneType);
    assert_eq!(typthon::checker::infer_types(&Module { body: vec![] }), Type::NoneType);
}
