use typthon::inference::InferenceEngine;
use typthon::types::Type;

fn list(t: Type) -> Type {
    Type::List(Box::new(t))
}

#[test]
fn variable_is_bound_to_a_type() {
    let mut engine = InferenceEngine::new();
    engine.add_constraint(Type::Var(0), Type::Int);
    assert!(engine.solve().is_ok());
    assert_eq!(engine.get_solution(Type::Var(0)), Type::Int);
    assert_eq!(engine.get_solution(Type::Var(1)), Type::Var(1));
}

#[test]
fn variable_on_the_right_is_bound_too() {
    let mut engine = InferenceEngine::new();
    engine.add_constraint(Type::Str, Type::Var(3));
    assert!(engine.solve().is_ok());
    assert_eq!(engine.get_solution(Type::Var(3)), Type::Str);
}

#[test]
fn unification_goes_inside_lists_and_dicts() {
    let mut engine = InferenceEngine::new();
    engine.add_constraint(list(Type::Var(0)), list(Type::Str));
    engine.add_constraint(
        Type::Dict(Box::new(Type::Var(1)), Box::new(Type::Var(2))),
        Type::Dict(Box::new(Type::Int), Box::new(Type::Bool)),
    );
    assert!(engine.solve().is_ok());
    assert_eq!(engine.get_solution(Type::Var(0)), Type::Str);
    assert_eq!(engine.get_solution(Type::Var(1)), Type::Int);
    assert_eq!(engine.get_solution(Type::Var(2)), Type::Bool);
    assert_eq!(engine.get_solution(list(Type::Var(0))), list(Type::Str));
}

#[test]
fn functions_unify_parameters_and_result() {
    let mut engine = InferenceEngine::new();
    engine.add_constraint(
        Type::Function(vec![Type::Var(0), Type::Var(1)], Box::new(Type::Var(2))),
        Type::Function(vec![Type::Int, Type::Str], Box::new(Type::Bool)),
    );
    assert!(engine.solve().is_ok());
    assert_eq!(engine.get_solution(Type::Var(0)), Type::Int);
    assert_eq!(engine.get_solution(Type::Var(1)), Type::Str);
    assert_eq!(engine.get_solution(Type::Var(2)), Type::Bool);
}

#[test]
fn chains_of_variables_are_resolved() {
    let mut engine = InferenceEngine::new();
    engine.add_constraint(Type::Var(1), Type::Int);
    engine.add_constraint(Type::Var(0), Type::Var(1));
    assert!(engine.solve().is_ok());
    assert_eq!(engine.get_solution(Type::Var(0)), Type::Int);
    assert_eq!(engine.get_solution(Type::Tuple(vec![Type::Var(0), Type::Var(1)])),
        Type::Tuple(vec![Type::Int, Type::Int]));
}

#[test]
fn occurs_check_refuses_infinite_types() {
    let mut engine = InferenceEngine::new();
    engine.add_constraint(Type::Var(0), list(Type::Var(0)));
    assert_eq!(engine.solve(), Err("Infinite type: T0 = list[T0]".to_string()));
}

#[test]
fn occurs_check_looks_into_unions() {
    let mut engine = InferenceEngine::new();
    engine.add_constraint(Type::Var(7), Type::Union(vec![Type::Int, Type::Var(7)]));
    assert_eq!(engine.solve(), Err("Infinite type: T7 = int | T7".to_string()));
}

#[test]
fn different_types_do_not_unify() {
    let mut engine = InferenceEngine::new();
    engine.add_constraint(Type::Int, Type::Str);
    assert_eq!(engine.solve(), Err("Cannot unify int with str".to_string()));
}

#[test]
fn tuples_of_different_lengths_do_not_unify() {
    let mut engine = InferenceEngine::new();
    engine.add_constraint(
        Type::Tuple(vec![Type::Int, Type::Str]),
        Type::Tuple(vec![Type::Int]),
    );
    assert_eq!(engine.solve(), Err("Cannot unify (int, str) with (int)".to_string()));
}

#[test]
fn latest_equation_is_solved_first() {
    let mut engine = InferenceEngine::new();
    engine.add_constraint(Type::Var(0), Type::Int);
    engine.add_constraint(Type::Var(0), Type::Str);
    assert_eq!(engine.solve(), Err("Cannot unify str with int".to_string()));
    assert_eq!(engine.get_solution(Type::Var(0)), Type::Str);
}

#[test]
fn equal_types_need_no_binding() {
    let mut engine = InferenceEngine::default();
    engine.add_constraint(list(Type::Int), list(Type::Int));
    assert!(engine.solve().is_ok());
    assert_eq!(engine.get_solution(Type::Var(0)), Type::Var(0));
}

#[test]
fn solving_twice_keeps_the_solution() {
    let mut engine = InferenceEngine::new();
    engine.add_constraint(Type::Var(0), Type::Float);
    assert!(engine.solve().is_ok());
    assert!(engine.solve().is_ok());
    let once = engine.get_solution(Type::Var(0));
    assert_eq!(engine.get_solution(once.clone()), once);
}

#[test]
fn failed_solve_keeps_earlier_bindings_and_reports_the_pair() {
    let mut e1 = InferenceEngine::new();
    e1.add_constraint(Type::Var(0), Type::Int);
    e1.add_constraint(Type::Var(0), Type::Str);
    assert_eq!(e1.solve(), Err("Cannot unify str with int".to_string()));
    assert_eq!(e1.get_solution(Type::Var(0)), Type::Str);
    let mut e2 = InferenceEngine::new();
    e2.add_constraint(Type::Var(0), Type::List(Box::new(Type::Var(0))));
    assert_eq!(e2.solve(), Err("Infinite type: T0 = list[T0]".to_string()));
}
