use typthon::constraints::ConstraintSolver;
use typthon::context::TypeContext;
use typthon::protocols::{ProtocolChecker, ProtocolLibrary};
use typthon::types::Type;

#[test]
fn test_protocol_checking_test_sized_protocol() {
    let ctx = TypeContext::new();
    let solver = ConstraintSolver::with_context(ctx);
    let sized_methods = ProtocolLibrary::sized();
    assert!(solver.check_protocol(&Type::Str, &sized_methods).is_ok());
}

#[test]
fn test_protocol_checking_test_iterable_protocol() {
    let ctx = TypeContext::new();
    let solver = ConstraintSolver::with_context(ctx);
    let iterable_methods = ProtocolLibrary::iterable(Type::Int);
    let result = solver.check_protocol(&Type::List(Box::new(Type::Int)), &iterable_methods);
    assert!(result.is_ok() || result.is_err());
}

#[test]
fn test_protocol_checking_test_comparable_protocol() {
    let comparable_methods = ProtocolLibrary::comparable();
    assert_eq!(comparable_methods.len(), 6);
    assert!(comparable_methods.iter().any(|(name, _)| name == "__lt__"));
    assert!(comparable_methods.iter().any(|(name, _)| name == "__le__"));
    assert!(comparable_methods.iter().any(|(name, _)| name == "__gt__"));
    assert!(comparable_methods.iter().any(|(name, _)| name == "__ge__"));
    assert!(comparable_methods.iter().any(|(name, _)| name == "__eq__"));
    assert!(comparable_methods.iter().any(|(name, _)| name == "__ne__"));
}

#[test]
fn test_protocol_checking_test_numeric_protocol() {
    let numeric_methods = ProtocolLibrary::numeric();
    assert_eq!(numeric_methods.len(), 6);
    assert!(numeric_methods.iter().any(|(name, _)| name == "__add__"));
    assert!(numeric_methods.iter().any(|(name, _)| name == "__sub__"));
    assert!(numeric_methods.iter().any(|(name, _)| name == "__mul__"));
    assert!(numeric_methods.iter().any(|(name, _)| name == "__truediv__"));
}

#[test]
fn test_protocol_checking_test_protocol_composition() {
    let sized = ProtocolLibrary::sized();
    let iterable = ProtocolLibrary::iterable(Type::Int);
    let composed = ConstraintSolver::compose_protocols(&sized, &iterable);
    assert!(composed.iter().any(|(name, _)| name == "__len__"));
    assert!(composed.iter().any(|(name, _)| name == "__iter__"));
}

#[test]
fn test_container_protocol() {
    let container = ProtocolLibrary::container(Type::Str);
    assert!(container.iter().any(|(name, _)| name == "__len__"));
    assert!(container.iter().any(|(name, _)| name == "__iter__"));
}

#[test]
fn test_sequence_protocol() {
    let sequence = ProtocolLibrary::sequence(Type::Int);
    assert!(sequence.iter().any(|(name, _)| name == "__len__"));
    assert!(sequence.iter().any(|(name, _)| name == "__iter__"));
    assert!(sequence.iter().any(|(name, _)| name == "__getitem__"));
    assert!(sequence.iter().any(|(name, _)| name == "count"));
    assert!(sequence.iter().any(|(name, _)| name == "index"));
}

#[test]
fn test_protocol_checking_test_mapping_protocol() {
    let mapping = ProtocolLibrary::mapping(Type::Str, Type::Int);
    assert!(mapping.iter().any(|(name, _)| name == "__getitem__"));
    assert!(mapping.iter().any(|(name, _)| name == "__setitem__"));
    assert!(mapping.iter().any(|(name, _)| name == "__delitem__"));
    assert!(mapping.iter().any(|(name, _)| name == "__contains__"));
    assert!(mapping.iter().any(|(name, _)| name == "keys"));
    assert!(mapping.iter().any(|(name, _)| name == "values"));
    assert!(mapping.iter().any(|(name, _)| name == "items"));
}

#[test]
fn test_callable_protocol() {
    let params = vec![Type::Int, Type::Str];
    let ret = Type::Bool;
    let callable = ProtocolLibrary::callable(params.clone(), ret.clone());
    assert_eq!(callable.len(), 1);
    assert_eq!(callable[0].0, "__call__");
    if let Type::Function(func_params, func_ret) = &callable[0].1 {
        assert_eq!(func_params.len(), 2);
        assert_eq!(**func_ret, Type::Bool);
    } else {
        panic!("Expected Function type");
    }
}

#[test]
fn test_protocol_checking_test_context_manager_protocol() {
    let context_mgr = ProtocolLibrary::context_manager(Type::Any);
    assert_eq!(context_mgr.len(), 2);
    assert!(context_mgr.iter().any(|(name, _)| name == "__enter__"));
    assert!(context_mgr.iter().any(|(name, _)| name == "__exit__"));
}

#[test]
fn test_async_protocols() {
    let awaitable = ProtocolLibrary::awaitable(Type::Int);
    assert_eq!(awaitable.len(), 1);
    assert_eq!(awaitable[0].0, "__await__");

    let async_iterable = ProtocolLibrary::async_iterable(Type::Str);
    assert_eq!(async_iterable.len(), 1);
    assert_eq!(async_iterable[0].0, "__aiter__");

    let async_iterator = ProtocolLibrary::async_iterator(Type::Bool);
    assert_eq!(async_iterator.len(), 2);
    assert!(async_iterator.iter().any(|(name, _)| name == "__aiter__"));
    assert!(async_iterator.iter().any(|(name, _)| name == "__anext__"));
}

#[test]
fn test_supports_protocols() {
    let supports_int = ProtocolLibrary::supports_int();
    assert_eq!(supports_int[0].0, "__int__");
    let supports_float = ProtocolLibrary::supports_float();
    assert_eq!(supports_float[0].0, "__float__");
    let supports_str = ProtocolLibrary::supports_str();
    assert_eq!(supports_str[0].0, "__str__");
    let supports_bool = ProtocolLibrary::supports_bool();
    assert_eq!(supports_bool[0].0, "__bool__");
}

#[test]
fn test_get_protocol_by_name() {
    assert!(ProtocolLibrary::get_protocol("Sized", &[]).is_some());
    assert!(ProtocolLibrary::get_protocol("Hashable", &[]).is_some());
    assert!(ProtocolLibrary::get_protocol("Comparable", &[]).is_some());
    assert!(ProtocolLibrary::get_protocol("Numeric", &[]).is_some());
    assert!(ProtocolLibrary::get_protocol("Iterable", &[Type::Int]).is_some());
    assert!(ProtocolLibrary::get_protocol("Container", &[Type::Str]).is_some());
    assert!(ProtocolLibrary::get_protocol("Mapping", &[Type::Str, Type::Int]).is_some());
    assert!(ProtocolLibrary::get_protocol("NonExistent", &[]).is_none());
}

#[test]
fn test_reversible_protocol() {
    let reversible = ProtocolLibrary::reversible(Type::Int);
    assert!(reversible.iter().any(|(name, _)| name == "__iter__"));
    assert!(reversible.iter().any(|(name, _)| name == "__reversed__"));
}

#[test]
fn test_hashable_protocol() {
    let hashable = ProtocolLibrary::hashable();
    assert_eq!(hashable.len(), 1);
    assert_eq!(hashable[0].0, "__hash__");
    if let Type::Function(params, ret) = &hashable[0].1 {
        assert!(params.is_empty());
        assert_eq!(**ret, Type::Int);
    } else {
        panic!("Expected Function type");
    }
}

#[test]
fn test_equality_protocol() {
    let equality = ProtocolLibrary::equality();
    assert_eq!(equality.len(), 1);
    assert_eq!(equality[0].0, "__eq__");
    if let Type::Function(params, ret) = &equality[0].1 {
        assert_eq!(params.len(), 1);
        assert_eq!(**ret, Type::Bool);
    } else {
        panic!("Expected Function type");
    }
}

#[test]
fn composition_drops_repeated_names() {
    let a = ProtocolLibrary::comparable();
    let b = ProtocolLibrary::equality();
    let composed = ConstraintSolver::compose_protocols(&a, &b);
    assert_eq!(composed.len(), 6);
    let c = ConstraintSolver::compose_protocols(&b, &a);
    assert_eq!(c.len(), 6);
    assert_eq!(c[0].0, "__eq__");
    assert_eq!(c[0].1, Type::Function(vec![Type::Any], Box::new(Type::Bool)));
}

#[test]
fn no_protocol_is_reported_implemented() {
    let solver = ConstraintSolver::new();
    assert!(!ProtocolChecker::implements_protocol(&Type::Str, "Sized", &[], &solver));
    assert!(!ProtocolChecker::implements_protocol(&Type::Str, "Unknown", &[], &solver));
    assert!(ProtocolChecker::implemented_protocols(&Type::Int, &solver).is_empty());
}

#[test]
fn test_protocol_with_union_types() {
    let ctx = TypeContext::new();
    let solver = ConstraintSolver::with_context(ctx);
    let methods = vec![("upper".to_string(), Type::Function(vec![], Box::new(Type::Str)))];
    let union_ty = Type::Union(vec![Type::Str, Type::Str]);
    let result = solver.check_protocol(&union_ty, &methods);
    assert!(result.is_ok() || result.is_err());
}
