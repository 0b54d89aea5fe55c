use typthon::refinement::{parse_i64, JsonValue, RefinementAnalyzer};
use typthon::refinements;
use typthon::types::{BinOp, CompareOp, Predicate, PredicateExpr, Type};

#[test]
fn test_parse_predicate() {
    let analyzer = RefinementAnalyzer::new();
    let pred = analyzer.parse_predicate("value > 0").unwrap();
    match pred {
        Predicate::Compare { op, .. } => assert_eq!(op, CompareOp::Gt),
        _ => panic!("Expected Compare predicate"),
    }
}

#[test]
fn test_validate_positive() {
    let analyzer = RefinementAnalyzer::new();
    let pred = Predicate::Compare {
        op: CompareOp::Gt,
        left: PredicateExpr::Value,
        right: PredicateExpr::Literal(0),
    };
    assert!(analyzer.validate(&JsonValue::Int(5), &pred));
    assert!(!analyzer.validate(&JsonValue::Int(-5), &pred));
    assert!(!analyzer.validate(&JsonValue::Int(0), &pred));
}

#[test]
fn test_bounded_int() {
    let ty = refinements::range(0, 100);
    match ty {
        Type::Refinement(base, _) => {
            assert_eq!(*base, Type::Int);
        }
        _ => panic!("Expected Refinement type"),
    }
}

#[test]
fn parsing_predicates() {
    let a = RefinementAnalyzer::new();
    assert_eq!(
        a.parse_predicate("  len(x)\t>=  -12 "),
        Ok(Predicate::Compare {
            op: CompareOp::Ge,
            left: PredicateExpr::Property("len".to_string()),
            right: PredicateExpr::Literal(-12),
        })
    );
    assert_eq!(
        a.parse_predicate("size != value"),
        Ok(Predicate::Compare {
            op: CompareOp::Ne,
            left: PredicateExpr::Property("size".to_string()),
            right: PredicateExpr::Value,
        })
    );
    assert_eq!(a.parse_predicate("value >"), Err("Invalid predicate format: value >".to_string()));
    assert_eq!(a.parse_predicate("value => 1"), Err("Unknown comparison operator: =>".to_string()));
}

#[test]
fn reading_signed_numbers() {
    assert_eq!(parse_i64("-9223372036854775808"), Some(i64::MIN));
    assert_eq!(parse_i64("9223372036854775807"), Some(i64::MAX));
    assert_eq!(parse_i64("9223372036854775808"), None);
    assert_eq!(parse_i64("+7"), Some(7));
    assert_eq!(parse_i64("-"), None);
    assert_eq!(parse_i64("1.5"), None);
}

#[test]
fn validating_values() {
    let a = RefinementAnalyzer::new();
    let non_empty = Predicate::Compare {
        op: CompareOp::Gt,
        left: PredicateExpr::Property("len".to_string()),
        right: PredicateExpr::Literal(0),
    };
    assert!(a.validate(&JsonValue::Str("é".to_string()), &non_empty));
    assert!(!a.validate(&JsonValue::Str(String::new()), &non_empty));
    assert!(a.validate(&JsonValue::Array(vec![JsonValue::Null]), &non_empty));
    assert!(!a.validate(&JsonValue::Bool(true), &non_empty));
    let two_bytes = Predicate::Compare {
        op: CompareOp::Eq,
        left: PredicateExpr::Property("len".to_string()),
        right: PredicateExpr::Literal(2),
    };
    assert!(a.validate(&JsonValue::Str("é".to_string()), &two_bytes));
    let even = Predicate::Compare {
        op: CompareOp::Eq,
        left: PredicateExpr::BinOp(Box::new(PredicateExpr::Value), BinOp::Mod, Box::new(PredicateExpr::Literal(2))),
        right: PredicateExpr::Literal(0),
    };
    assert!(a.validate(&JsonValue::Int(-4), &even));
    assert!(!a.validate(&JsonValue::Int(-3), &even));
    let div = Predicate::Compare {
        op: CompareOp::Eq,
        left: PredicateExpr::BinOp(Box::new(PredicateExpr::Value), BinOp::Div, Box::new(PredicateExpr::Literal(2))),
        right: PredicateExpr::Literal(-3),
    };
    assert!(a.validate(&JsonValue::Int(-7), &div));
    let by_zero = Predicate::Compare {
        op: CompareOp::Eq,
        left: PredicateExpr::BinOp(Box::new(PredicateExpr::Value), BinOp::Div, Box::new(PredicateExpr::Literal(0))),
        right: PredicateExpr::Literal(0),
    };
    assert!(!a.validate(&JsonValue::Int(1), &by_zero));
    let abs = Predicate::Compare {
        op: CompareOp::Eq,
        left: PredicateExpr::Property("abs".to_string()),
        right: PredicateExpr::Literal(9),
    };
    assert!(a.validate(&JsonValue::Int(-9), &abs));
    assert!(!a.validate(&JsonValue::Number, &abs));
    let range = Predicate::Compare { op: CompareOp::Ge, left: PredicateExpr::Value, right: PredicateExpr::Literal(1) }
        .and(Predicate::Compare { op: CompareOp::Le, left: PredicateExpr::Value, right: PredicateExpr::Literal(3) });
    assert!(a.validate(&JsonValue::Int(2), &range));
    assert!(!a.validate(&JsonValue::Int(4), &range));
    assert!(a.validate(&JsonValue::Int(4), &Predicate::Not(Box::new(range.clone()))));
    assert!(!a.validate(&JsonValue::Int(4), &Predicate::Custom("x".to_string())));
    assert!(a.validate(&JsonValue::Null, &Predicate::True));
    assert!(a.validate(&JsonValue::Int(9), &Predicate::Or(vec![range, Predicate::True])));
}

#[test]
fn common_refinements() {
    assert_eq!(refinements::positive(), RefinementAnalyzer::positive_int());
    assert_eq!(refinements::negative(), RefinementAnalyzer::negative_int());
    assert_eq!(refinements::natural(), RefinementAnalyzer::bounded_int(1, i64::MAX));
    assert_eq!(refinements::non_negative(), RefinementAnalyzer::bounded_int(0, i64::MAX));
    assert_eq!(refinements::non_empty_str(), RefinementAnalyzer::non_empty_str());
    assert_ne!(refinements::even(), refinements::odd());
}
