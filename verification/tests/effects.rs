use typthon::context::TypeContext;
use typthon::effects::{analyze_effects, EffectAnalyzer};
use typthon::pyast::{Constant, Expr, Module, Operator, Param, Stmt};
use typthon::types::Effect;

fn name(s: &str) -> Expr {
    Expr::Name(s.to_string())
}

fn param(s: &str) -> Param {
    Param { name: s.to_string(), annotation: None }
}

fn def(n: &str, params: Vec<Param>, body: Vec<Stmt>) -> Stmt {
    Stmt::FunctionDef { name: n.to_string(), params, result: None, body }
}

fn call(f: &str, args: Vec<Expr>) -> Expr {
    Expr::Call(Box::new(name(f)), args)
}

// def add(x, y):
//     return x + y
#[test]
fn test_pure_function() {
    let ctx = TypeContext::new();
    let mut analyzer = EffectAnalyzer::new();
    let module = Module {
        body: vec![def(
            "add",
            vec![param("x"), param("y")],
            vec![Stmt::Return(Some(Expr::BinOp(Box::new(name("x")), Operator::Add, Box::new(name("y")))))],
        )],
    };
    analyzer.analyze_module(&ctx, &module);
    let effects = analyzer.get_function_effects("add").unwrap();
    assert!(effects.is_pure());
}

// def greet():
//     print('Hello')
#[test]
fn test_io_function() {
    let ctx = TypeContext::new();
    let mut analyzer = EffectAnalyzer::new();
    let module = Module {
        body: vec![def(
            "greet",
            vec![],
            vec![Stmt::Expr(call("print", vec![Expr::Constant(Constant::Str("Hello".to_string()))]))],
        )],
    };
    analyzer.analyze_module(&ctx, &module);
    let effects = analyzer.get_function_effects("greet").unwrap();
    assert!(effects.contains(&Effect::IO));
}

// def modify(x):
//     x = 42
//     return x
#[test]
fn test_mutation_function() {
    let ctx = TypeContext::new();
    let mut analyzer = EffectAnalyzer::new();
    let module = Module {
        body: vec![def(
            "modify",
            vec![param("x")],
            vec![
                Stmt::Assign { targets: vec![name("x")], value: Expr::Constant(Constant::Int(Some(42))) },
                Stmt::Return(Some(name("x"))),
            ],
        )],
    };
    analyzer.analyze_module(&ctx, &module);
    let effects = analyzer.get_function_effects("modify").unwrap();
    assert!(effects.contains(&Effect::Mutation));
}

#[test]
fn effects_of_called_functions_propagate() {
    let ctx = TypeContext::new();
    let mut analyzer = EffectAnalyzer::new();
    let module = Module {
        body: vec![
            def("noisy", vec![], vec![Stmt::Expr(call("print", vec![]))]),
            def("caller", vec![], vec![Stmt::Return(Some(call("noisy", vec![])))]),
            def("fails", vec![], vec![Stmt::Raise]),
        ],
    };
    let table = analyzer.analyze_module(&ctx, &module);
    assert_eq!(table.len(), 3);
    assert!(analyzer.get_function_effects("caller").unwrap().contains(&Effect::IO));
    assert!(analyzer.get_function_effects("fails").unwrap().contains(&Effect::Exception));
    assert!(analyzer.get_function_effects("missing").is_none());
}

#[test]
fn async_functions_are_async() {
    let ctx = TypeContext::new();
    let mut analyzer = EffectAnalyzer::new();
    let module = Module {
        body: vec![Stmt::AsyncFunctionDef { name: "fetch".to_string(), body: vec![] }],
    };
    analyzer.analyze_module(&ctx, &module);
    assert!(analyzer.get_function_effects("fetch").unwrap().contains(&Effect::Async));
}

#[test]
fn pure_expressions_and_annotations() {
    let ctx = TypeContext::new();
    let mut analyzer = EffectAnalyzer::new();
    assert!(analyzer.is_pure_expr(&ctx, &call("len", vec![name("x")])));
    assert!(!analyzer.is_pure_expr(&ctx, &call("randint", vec![])));
    let module = Module { body: vec![def("tick", vec![], vec![Stmt::Expr(call("sleep", vec![]))])] };
    analyzer.analyze_module(&ctx, &module);
    let annotated = analyzer.annotate_function_type("tick", typthon::types::Type::Int);
    assert_eq!(annotated.to_string(), "int ! {Time}");
    assert_eq!(analyzer.annotate_function_type("other", typthon::types::Type::Int), typthon::types::Type::Int);
}

// def add(x, y): return x + y
// def greet(): print('Hello')
#[test]
fn test_analyze_effects_report() {
    let module = Module {
        body: vec![
            def(
                "add",
                vec![param("x"), param("y")],
                vec![Stmt::Return(Some(Expr::BinOp(Box::new(name("x")), Operator::Add, Box::new(name("y")))))],
            ),
            def(
                "greet",
                vec![],
                vec![Stmt::Expr(call("print", vec![Expr::Constant(Constant::Str("Hello".to_string()))]))],
            ),
        ],
    };
    let report = analyze_effects(&module);
    assert_eq!(report.len(), 2);
    let add = report.iter().find(|(k, _)| k == "add").unwrap();
    assert_eq!(add.1, "pure");
    let greet = report.iter().find(|(k, _)| k == "greet").unwrap();
    assert_eq!(greet.1, "EffectSet { effects: [IO] }");
}

#[test]
fn test_analyze_effects_empty_module() {
    let report = analyze_effects(&Module { body: vec![] });
    assert!(report.is_empty());
}
