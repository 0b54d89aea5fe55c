use typthon::advanced::AdvancedTypeAnalyzer;
use typthon::higher_kinded;
use typthon::recursive;
use typthon::types::{DependentConstraint, Type, TypeCondition, TypeKind, TypeParam};

#[test]
fn test_recursive_list() {
    let analyzer = AdvancedTypeAnalyzer::new();
    let list_ty = recursive::linked_list(Type::Int);
    assert!(analyzer.is_productive(&list_ty));
}

#[test]
fn test_json_type() {
    let json_ty = recursive::json_type();
    match json_ty {
        Type::Recursive(name, _) => assert_eq!(name, "JSON"),
        _ => panic!("Expected recursive type"),
    }
}

#[test]
fn test_dependent_length() {
    let ty = AdvancedTypeAnalyzer::dependent_length(Type::Int, 5);
    match ty {
        Type::Dependent(_, constraint) => {
            assert_eq!(constraint, DependentConstraint::Length(5));
        }
        _ => panic!("Expected dependent type"),
    }
}

#[test]
fn test_type_constructor() {
    let mut analyzer = AdvancedTypeAnalyzer::new();
    analyzer.define_type_constructor("Functor".to_string(), higher_kinded::functor());
    assert!(analyzer.has_type_constructor("Functor"));
}

#[test]
fn unguarded_recursion_is_not_productive() {
    let analyzer = AdvancedTypeAnalyzer::new();
    let bad = Type::Recursive("T".to_string(), Box::new(Type::Class("T".to_string())));
    assert!(!analyzer.is_productive(&bad));
    let union_bad = Type::Recursive(
        "T".to_string(),
        Box::new(Type::Union(vec![Type::Class("T".to_string()), Type::Class("T".to_string())])),
    );
    assert!(!analyzer.is_productive(&union_bad));
    assert!(analyzer.is_productive(&Type::Int));
}

#[test]
fn defining_a_self_recursive_body_gives_never() {
    let mut analyzer = AdvancedTypeAnalyzer::new();
    let body = Type::Recursive("X".to_string(), Box::new(Type::Int));
    assert_eq!(analyzer.define_recursive("X".to_string(), body), Type::Never);
    let ok = analyzer.define_recursive("Y".to_string(), Type::Int);
    assert_eq!(ok, Type::Recursive("Y".to_string(), Box::new(Type::Int)));
}

#[test]
fn unfold_replaces_the_recursive_name() {
    let mut analyzer = AdvancedTypeAnalyzer::new();
    let list = recursive::linked_list(Type::Int);
    let unfolded = analyzer.unfold(&list);
    let expected = Type::Union(vec![Type::NoneType, Type::Tuple(vec![Type::Int, list.clone()])]);
    assert_eq!(unfolded, expected);
    let other = recursive::linked_list(Type::Str);
    let expected_str = Type::Union(vec![Type::NoneType, Type::Tuple(vec![Type::Str, other.clone()])]);
    assert_eq!(analyzer.unfold(&other), expected_str);
    assert_eq!(analyzer.unfold(&list), expected);
    assert_eq!(analyzer.unfold(&Type::Bool), Type::Bool);
}

#[test]
fn apply_constructor_errors() {
    let mut analyzer = AdvancedTypeAnalyzer::new();
    assert_eq!(
        analyzer.apply_constructor("Functor", &[]),
        Err("Unknown type constructor: Functor".to_string())
    );
    analyzer.define_type_constructor("Functor".to_string(), higher_kinded::functor());
    assert_eq!(
        analyzer.apply_constructor("Functor", &[]),
        Err("Type constructor Functor expects 1 arguments, got 0".to_string())
    );
    assert_eq!(
        analyzer.apply_constructor("Functor", &[Type::Int]),
        Err("Kind mismatch: parameter F has kind Arrow(Star, Star), but argument has wrong kind".to_string())
    );
    let ok = analyzer.apply_constructor("Functor", &[Type::Generic("List".to_string(), vec![])]);
    assert_eq!(ok, Ok(Type::HigherKinded("Functor".to_string(), higher_kinded::functor())));
}

#[test]
fn star_kind_rejects_higher_kinded_arguments() {
    let mut analyzer = AdvancedTypeAnalyzer::new();
    analyzer.define_type_constructor(
        "Box".to_string(),
        vec![TypeParam { name: "T".to_string(), kind: TypeKind::Star }],
    );
    assert!(analyzer.apply_constructor("Box", &[Type::Int]).is_ok());
    let hk = Type::HigherKinded("F".to_string(), vec![]);
    assert_eq!(
        analyzer.apply_constructor("Box", &[hk]),
        Err("Kind mismatch: parameter T has kind Star, but argument has wrong kind".to_string())
    );
}

#[test]
fn conditional_types() {
    let analyzer = AdvancedTypeAnalyzer::new();
    let cond = TypeCondition::Extends(Type::Int, Type::Any);
    assert_eq!(analyzer.eval_conditional(&cond, &Type::Str, &Type::Bool), Type::Str);
    let cond = TypeCondition::Equal(Type::Int, Type::Str);
    assert_eq!(analyzer.eval_conditional(&cond, &Type::Str, &Type::Bool), Type::Bool);
    let cond = TypeCondition::HasProperty(Type::Class("A".to_string()), "x".to_string());
    assert_eq!(analyzer.eval_conditional(&cond, &Type::Str, &Type::Bool), Type::Str);
    let cond = TypeCondition::Custom("anything".to_string());
    assert_eq!(analyzer.eval_conditional(&cond, &Type::Str, &Type::Bool), Type::Bool);
}

#[test]
fn dependent_range_type() {
    let ty = AdvancedTypeAnalyzer::dependent_range(Type::Str, 1, 3);
    assert_eq!(
        ty,
        Type::Dependent(Box::new(Type::List(Box::new(Type::Str))), DependentConstraint::LengthRange(1, 3))
    );
}

#[test]
fn binary_tree_shape() {
    let t = recursive::binary_tree(Type::Int);
    let tree = Type::Class("Tree".to_string());
    assert_eq!(
        t,
        Type::Recursive(
            "Tree".to_string(),
            Box::new(Type::Union(vec![
                Type::Tuple(vec![Type::Int]),
                Type::Tuple(vec![tree.clone(), Type::Int, tree]),
            ]))
        )
    );
}

#[test]
fn monad_and_applicative_parameters() {
    assert_eq!(higher_kinded::monad()[0].name, "M");
    assert_eq!(higher_kinded::applicative()[0].name, "F");
}
