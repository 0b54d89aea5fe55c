use typthon::protocols::ProtocolLibrary;
use typthon::types::Type;

#[test]
fn protocols_test_sized_protocol() {
    let methods = ProtocolLibrary::sized();
    assert_eq!(methods.len(), 1);
    assert_eq!(methods[0].0, "__len__");
}

#[test]
fn protocols_test_iterable_protocol() {
    let methods = ProtocolLibrary::iterable(Type::Int);
    assert_eq!(methods.len(), 1);
    assert_eq!(methods[0].0, "__iter__");
}

#[test]
fn protocols_test_comparable_protocol() {
    let methods = ProtocolLibrary::comparable();
    assert_eq!(methods.len(), 6);
    assert!(methods.iter().any(|(name, _)| name == "__lt__"));
}

#[test]
fn protocols_test_numeric_protocol() {
    let methods = ProtocolLibrary::numeric();
    assert_eq!(methods.len(), 6);
    assert!(methods.iter().any(|(name, _)| name == "__add__"));
}

#[test]
fn protocols_test_protocol_composition() {
    let container = ProtocolLibrary::container(Type::Int);
    assert!(container.iter().any(|(name, _)| name == "__len__"));
    assert!(container.iter().any(|(name, _)| name == "__iter__"));
}

#[test]
fn test_get_protocol() {
    assert!(ProtocolLibrary::get_protocol("Sized", &[]).is_some());
    assert!(ProtocolLibrary::get_protocol("Iterable", &[Type::Int]).is_some());
    assert!(ProtocolLibrary::get_protocol("NonExistent", &[]).is_none());
}

#[test]
fn protocols_test_mapping_protocol() {
    let methods = ProtocolLibrary::mapping(Type::Str, Type::Int);
    assert!(methods.iter().any(|(name, _)| name == "__getitem__"));
    assert!(methods.iter().any(|(name, _)| name == "keys"));
    assert!(methods.iter().any(|(name, _)| name == "values"));
}

#[test]
fn protocols_test_context_manager_protocol() {
    let methods = ProtocolLibrary::context_manager(Type::Any);
    assert_eq!(methods.len(), 2);
    assert!(methods.iter().any(|(name, _)| name == "__enter__"));
    assert!(methods.iter().any(|(name, _)| name == "__exit__"));
}

#[test]
fn get_protocol_needs_enough_arguments() {
    assert!(ProtocolLibrary::get_protocol("Iterable", &[]).is_none());
    assert!(ProtocolLibrary::get_protocol("Mapping", &[Type::Str]).is_none());
    assert!(ProtocolLibrary::get_protocol("Callable", &[Type::Int]).is_none());
    let callable = ProtocolLibrary::get_protocol("Callable", &[Type::Int, Type::Str, Type::Bool]).unwrap();
    assert_eq!(callable.len(), 1);
    assert_eq!(callable[0].0, "__call__");
    assert_eq!(callable[0].1, Type::Function(vec![Type::Int, Type::Str], Box::new(Type::Bool)));
}

#[test]
fn container_keeps_order_of_parts() {
    let container = ProtocolLibrary::container(Type::Int);
    assert_eq!(container.len(), 2);
    assert_eq!(container[0].0, "__len__");
    assert_eq!(container[1].0, "__iter__");
    assert_eq!(
        container[1].1,
        Type::Function(vec![], Box::new(Type::Generic("Iterator".to_string(), vec![Type::Int])))
    );
}

#[test]
fn iterator_returns_self_and_elements() {
    let it = ProtocolLibrary::iterator(Type::Str);
    assert_eq!(it.len(), 2);
    assert_eq!(it[0].1, Type::Function(vec![], Box::new(Type::Class("Self".to_string()))));
    assert_eq!(it[1].1, Type::Function(vec![], Box::new(Type::Str)));
}

#[test]
fn supports_repr_and_bytes() {
    let r = ProtocolLibrary::supports_repr();
    assert_eq!(r[0].0, "__repr__");
    assert_eq!(r[0].1, Type::Function(vec![], Box::new(Type::Str)));
    let b = ProtocolLibrary::supports_bytes();
    assert_eq!(b[0].0, "__bytes__");
    assert_eq!(b[0].1, Type::Function(vec![], Box::new(Type::Bytes)));
}
