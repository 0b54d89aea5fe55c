use typthon::constraints::{Constraint, ConstraintSolver, GenericType, TypeParameter};
use typthon::context::TypeContext;
use typthon::errors::ErrorKind;
use typthon::types::Type;
use typthon::variance::Variance;

#[test]
fn test_subtype_constraint() {
    let mut solver = ConstraintSolver::new();
    solver.add_constraint(Constraint::Subtype(Type::Int, Type::Any));
    assert!(solver.solve().is_ok());
}

#[test]
fn test_numeric_constraint() {
    let mut solver = ConstraintSolver::new();
    solver.add_constraint(Constraint::Numeric(Type::Int));
    assert!(solver.solve().is_ok());

    let mut solver = ConstraintSolver::new();
    solver.add_constraint(Constraint::Numeric(Type::Str));
    assert!(solver.solve().is_err());
}

#[test]
fn test_hashable_constraint() {
    let mut solver = ConstraintSolver::new();
    solver.add_constraint(Constraint::Hashable(Type::Int));
    assert!(solver.solve().is_ok());

    let mut solver = ConstraintSolver::new();
    solver.add_constraint(Constraint::Hashable(Type::List(Box::new(Type::Int))));
    assert!(solver.solve().is_err());
}

#[test]
fn variables_get_bounds() {
    let mut solver = ConstraintSolver::new();
    solver.add_constraint(Constraint::Subtype(Type::Var(1), Type::Int));
    solver.add_constraint(Constraint::Equal(Type::Str, Type::Var(2)));
    solver.add_constraint(Constraint::Bounded(Type::Var(3), Type::Float));
    assert!(solver.solve().is_ok());
    assert_eq!(solver.get_bound(1), Some(&Type::Int));
    assert_eq!(solver.get_bound(2), Some(&Type::Str));
    assert_eq!(solver.get_bound(3), Some(&Type::Float));
    assert_eq!(solver.get_bound(4), None);
    assert!(solver.errors().is_empty());
}

#[test]
fn add_bound_keeps_the_first() {
    let mut solver = ConstraintSolver::new();
    solver.add_bound(5, Type::Int);
    solver.add_bound(5, Type::Str);
    assert_eq!(solver.get_bound(5), Some(&Type::Int));
}

#[test]
fn conflicting_bounds_fail() {
    let mut solver = ConstraintSolver::new();
    solver.add_bound(1, Type::Int);
    solver.add_constraint(Constraint::Bounded(Type::Var(1), Type::Str));
    let errors = solver.solve().unwrap_err();
    assert_eq!(errors.len(), 1);
    match &errors[0].kind {
        ErrorKind::TypeMismatch { expected, found } => {
            assert_eq!(expected, "int");
            assert_eq!(found, "str");
        }
        _ => panic!("expected a mismatch"),
    }
}

#[test]
fn callable_constraints() {
    let f = Type::Function(vec![Type::Any], Box::new(Type::Int));
    let mut solver = ConstraintSolver::new();
    solver.add_constraint(Constraint::Callable(f.clone(), vec![Type::Int], Type::Any));
    assert!(solver.solve().is_ok());

    let mut solver = ConstraintSolver::new();
    solver.add_constraint(Constraint::Callable(f.clone(), vec![], Type::Any));
    let errors = solver.solve().unwrap_err();
    assert!(matches!(errors[0].kind, ErrorKind::InvalidArgCount { expected: 0, found: 1 }));

    let mut solver = ConstraintSolver::new();
    solver.add_constraint(Constraint::Callable(f, vec![Type::Int], Type::Str));
    let errors = solver.solve().unwrap_err();
    match &errors[0].kind {
        ErrorKind::TypeMismatch { expected, found } => {
            assert_eq!(expected, "str");
            assert_eq!(found, "int");
        }
        _ => panic!("expected a mismatch"),
    }
}

#[test]
fn deferred_constraints_stay_pending() {
    let mut solver = ConstraintSolver::new();
    solver.add_constraint(Constraint::Numeric(Type::Var(1)));
    solver.add_constraint(Constraint::Comparable(Type::List(Box::new(Type::Int))));
    solver.add_constraint(Constraint::Callable(Type::Int, vec![], Type::Int));
    assert!(solver.solve().is_ok());
    let mut solver = ConstraintSolver::new();
    solver.add_constraint(Constraint::Numeric(Type::Union(vec![Type::Int, Type::Str])));
    let errors = solver.solve().unwrap_err();
    match &errors[0].kind {
        ErrorKind::TypeMismatch { expected, found } => {
            assert_eq!(expected, "numeric type");
            assert_eq!(found, "str");
        }
        _ => panic!("expected a mismatch"),
    }
}

#[test]
fn mismatch_of_non_variables() {
    let mut solver = ConstraintSolver::new();
    solver.add_constraint(Constraint::Subtype(Type::Str, Type::Int));
    solver.add_constraint(Constraint::Equal(Type::Int, Type::Bool));
    let errors = solver.solve().unwrap_err();
    assert_eq!(errors.len(), 2);
    assert!(solver.errors().is_empty());
}

#[test]
fn type_parameters() {
    let p = TypeParameter::new("T".to_string())
        .with_bound(Type::Union(vec![Type::Int, Type::Str]))
        .with_constraint(Type::Any)
        .with_variance(Variance::Covariant);
    assert_eq!(p.variance, Variance::Covariant);
    assert!(p.validate(&Type::Int).is_ok());
    assert_eq!(p.validate(&Type::Float), Err("Type float does not satisfy bound int | str".to_string()));
    let q = TypeParameter::new("U".to_string()).with_constraint(Type::Int);
    assert_eq!(q.validate(&Type::Str), Err("Type str does not satisfy constraint int".to_string()));
}

#[test]
fn generic_instantiation() {
    let def = Type::List(Box::new(Type::Union(vec![Type::Int, Type::Never, Type::Int])));
    let g = GenericType::new("Box".to_string(), vec![TypeParameter::new("T".to_string())], def);
    assert_eq!(g.instantiate(&[Type::Str]), Ok(Type::List(Box::new(Type::Int))));
    assert_eq!(
        g.instantiate(&[]),
        Err("Wrong number of type arguments: expected 1, got 0".to_string())
    );
    let bounded = GenericType::new(
        "B".to_string(),
        vec![TypeParameter::new("T".to_string()).with_bound(Type::Int)],
        Type::Int,
    );
    assert_eq!(bounded.instantiate(&[Type::Str]), Err("Type str does not satisfy bound int".to_string()));
}

#[test]
fn instantiation_replaces_parameters() {
    let g = GenericType::new(
        "Box".to_string(),
        vec![TypeParameter::new("T".to_string())],
        Type::List(Box::new(Type::Class("T".to_string()))),
    );
    assert_eq!(g.instantiate(&[Type::Int]), Ok(Type::List(Box::new(Type::Int))));
    let pair = GenericType::new(
        "Pair".to_string(),
        vec![TypeParameter::new("K".to_string()), TypeParameter::new("V".to_string())],
        Type::Dict(Box::new(Type::Class("K".to_string())), Box::new(Type::Class("V".to_string()))),
    );
    assert_eq!(
        pair.instantiate(&[Type::Str, Type::Int]),
        Ok(Type::Dict(Box::new(Type::Str), Box::new(Type::Int)))
    );
}

#[test]
fn test_has_attribute_without_context_waits() {
    let mut solver = ConstraintSolver::new();
    solver.add_constraint(Constraint::HasAttribute(Type::Str, "nothing".to_string(), Type::Any));
    assert!(solver.solve().is_ok());
}

#[test]
fn test_has_attribute_found() {
    let mut solver = ConstraintSolver::with_context(TypeContext::new());
    let upper = Type::Function(vec![], Box::new(Type::Str));
    solver.add_constraint(Constraint::HasAttribute(Type::Str, "upper".to_string(), upper));
    assert!(solver.solve().is_ok());
}

#[test]
fn test_has_attribute_wrong_type() {
    let mut solver = ConstraintSolver::with_context(TypeContext::new());
    solver.add_constraint(Constraint::HasAttribute(Type::Str, "upper".to_string(), Type::Int));
    let errors = solver.solve().unwrap_err();
    assert_eq!(errors.len(), 1);
    match &errors[0].kind {
        ErrorKind::TypeMismatch { expected, .. } => assert_eq!(expected, "int"),
        _ => panic!("expected a type mismatch"),
    }
    assert!(errors[0].suggestions.is_empty());
}

#[test]
fn test_has_attribute_missing_suggests() {
    let mut solver = ConstraintSolver::with_context(TypeContext::new());
    solver.add_constraint(Constraint::HasAttribute(Type::Str, "uper".to_string(), Type::Any));
    let errors = solver.solve().unwrap_err();
    assert_eq!(errors.len(), 1);
    match &errors[0].kind {
        ErrorKind::InvalidAttribute { ty, attr } => {
            assert_eq!(ty, "str");
            assert_eq!(attr, "uper");
        },
        _ => panic!("expected a missing attribute"),
    }
    assert_eq!(errors[0].suggestions, vec!["Did you mean 'upper'?".to_string()]);
}

#[test]
fn test_has_attribute_missing_on_plain_type() {
    let mut solver = ConstraintSolver::with_context(TypeContext::new());
    solver.add_constraint(Constraint::HasAttribute(Type::Int, "real".to_string(), Type::Any));
    let errors = solver.solve().unwrap_err();
    assert_eq!(errors.len(), 1);
    assert!(errors[0].suggestions.is_empty());
}
