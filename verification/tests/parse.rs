use typthon::location::{location_from_range, LineIndex, SourceLocationExt};
use typthon::parse::{parse_expression, parse_module, statement_spans};
use typthon::pyast::{Constant, Expr, Operator, Stmt};

#[test]
fn test_parse_simple() {
    let source = "x = 1 + 2";
    assert!(parse_module(source).is_ok());
}

#[test]
fn test_parse_function() {
    let source = r#"
def add(x: int, y: int) -> int:
    return x + y
"#;
    assert!(parse_module(source).is_ok());
}

#[test]
fn test_expr_location_extraction() {
    let source = "x = 1 + 2";
    let index = LineIndex::new(source);
    let body = statement_spans(source).unwrap();
    assert!(!body.is_empty());
    let loc = body[0].source_location(&index);
    assert_eq!(loc.line, 1);
    assert!(loc.col == 0);
}

#[test]
fn test_multiline_location() {
    let source = "def foo():\n    return 42";
    let index = LineIndex::new(source);
    let body = statement_spans(source).unwrap();
    assert!(!body.is_empty());
    let loc = body[0].source_location(&index);
    assert_eq!(loc.line, 1);
    assert!(loc.end_line >= 2);
}

#[test]
fn test_fallback_location() {
    let source = "x = 1";
    let body = statement_spans(source).unwrap();
    let loc = location_from_range(body[0].start, body[0].end);
    assert!(loc.line > 0);
}

#[test]
fn assignment_is_read_into_the_tree() {
    let m = parse_module("x = 1 + 2").unwrap();
    assert_eq!(m.body.len(), 1);
    match &m.body[0] {
        Stmt::Assign { targets, value } => {
            assert!(matches!(&targets[0], Expr::Name(n) if n == "x"));
            match value {
                Expr::BinOp(l, op, r) => {
                    assert!(matches!(**l, Expr::Constant(Constant::Int(Some(1)))));
                    assert!(*op == Operator::Add);
                    assert!(matches!(**r, Expr::Constant(Constant::Int(Some(2)))));
                },
                _ => panic!("expected a binary operation"),
            }
        },
        _ => panic!("expected an assignment"),
    }
}

#[test]
fn function_definitions_keep_parameters_and_annotations() {
    let m = parse_module("def f(a: int, b) -> str:\n    return a\n").unwrap();
    match &m.body[0] {
        Stmt::FunctionDef { name, params, result, body } => {
            assert_eq!(name, "f");
            assert_eq!(params.len(), 2);
            assert_eq!(params[0].name, "a");
            assert!(matches!(&params[0].annotation, Some(Expr::Name(n)) if n == "int"));
            assert_eq!(params[1].name, "b");
            assert!(params[1].annotation.is_none());
            assert!(matches!(result, Some(Expr::Name(n)) if n == "str"));
            assert!(matches!(&body[0], Stmt::Return(Some(Expr::Name(n))) if n == "a"));
        },
        _ => panic!("expected a function definition"),
    }
}

#[test]
fn string_escapes_are_undone() {
    let m = parse_module("s = \"a\\nb\\t\\\"q\\\" \\x1b é\"").unwrap();
    match &m.body[0] {
        Stmt::Assign { value: Expr::Constant(Constant::Str(s)), .. } => {
            assert_eq!(s, "a\nb\t\"q\" \u{1b} é");
        },
        _ => panic!("expected a string assignment"),
    }
}

#[test]
fn large_integers_have_no_i64_value() {
    let m = parse_module("x = 99999999999999999999").unwrap();
    assert!(matches!(&m.body[0], Stmt::Assign { value: Expr::Constant(Constant::Int(None)), .. }));
}

#[test]
fn other_statements_and_constructs_are_read() {
    let source = "import os\nfor i in [1, 2]:\n    pass\nwhile x:\n    break\nclass A:\n    pass\ntry:\n    y = {1: None, **z}\nexcept E:\n    raise\nwith open(p) as f:\n    g = (lambda a, b: a)\n    h = [v for v in w if v]\n";
    let m = parse_module(source).unwrap();
    assert!(matches!(&m.body[0], Stmt::Import));
    assert!(matches!(&m.body[1], Stmt::For { body, .. } if matches!(&body[0], Stmt::Other)));
    assert!(matches!(&m.body[2], Stmt::While { .. }));
    assert!(matches!(&m.body[3], Stmt::ClassDef { name, .. } if name == "A"));
    match &m.body[4] {
        Stmt::Try { body, handlers } => {
            assert!(matches!(&body[0], Stmt::Assign { value: Expr::Dict(keys, _), .. } if keys.len() == 2 && keys[1].is_none()));
            assert_eq!(handlers.len(), 1);
            assert!(matches!(&handlers[0][0], Stmt::Raise));
        },
        _ => panic!("expected a try"),
    }
    match &m.body[5] {
        Stmt::With { items, body } => {
            assert_eq!(items.len(), 1);
            assert!(matches!(&body[0], Stmt::Assign { value: Expr::Lambda(names, _), .. } if names.len() == 2));
            assert!(matches!(&body[1], Stmt::Assign { value: Expr::ListComp(_, gens), .. } if gens.len() == 1 && gens[0].ifs.len() == 1));
        },
        _ => panic!("expected a with"),
    }
}

#[test]
fn syntax_errors_give_the_parsers_message() {
    let e = parse_module("x = (").err().unwrap();
    assert!(e.starts_with("Parse error: "));
    assert!(e.len() > "Parse error: ".len());
}

#[test]
fn expressions_parse_alone() {
    let e = parse_expression("a.b(1)").unwrap();
    match e {
        Expr::Call(f, args) => {
            assert!(matches!(*f, Expr::Attribute(_, ref a) if a == "b"));
            assert_eq!(args.len(), 1);
        },
        _ => panic!("expected a call"),
    }
    assert!(parse_expression("x = 1").err().unwrap().starts_with("Parse error: "));
}

#[test]
fn statement_spans_are_the_parsers_ranges() {
    let spans = statement_spans("x = 1\nyy = 22\n").unwrap();
    assert_eq!(spans.len(), 2);
    assert_eq!((spans[0].start, spans[0].end), (0, 5));
    assert_eq!((spans[1].start, spans[1].end), (6, 13));
}
