use typthon::intern::{get_id, get_type, intern, intern_many, TypeInterner};
use typthon::types::Type;

#[test]
fn test_intern_primitives() {
    let mut interner = TypeInterner::new();
    let id1 = intern(&mut interner, Type::Int);
    let id2 = intern(&mut interner, Type::Int);
    assert_eq!(id1, id2, "Same type should get same ID");

    let ty = get_type(&interner, id1).unwrap();
    assert_eq!(ty, Type::Int);
}

#[test]
fn test_intern_many() {
    let mut interner = TypeInterner::new();
    let types = vec![Type::Int, Type::Str, Type::Bool];
    let ids = intern_many(&mut interner, &types);
    assert_eq!(ids.len(), 3);
    for (ty, id) in types.iter().zip(ids.iter()) {
        assert_eq!(get_type(&interner, *id), Some(ty.clone()));
    }
}

#[test]
fn test_complex_types() {
    let mut interner = TypeInterner::new();
    let list_int = Type::List(Box::new(Type::Int));
    let id = intern(&mut interner, list_int.clone());
    assert_eq!(get_type(&interner, id), Some(list_int));
}

#[test]
fn primitives_are_preinterned_in_order() {
    let mut interner = TypeInterner::new();
    assert_eq!(interner.len(), 8);
    assert_eq!(get_id(&interner, &Type::Any), Some(0));
    assert_eq!(get_id(&interner, &Type::Bytes), Some(7));
    assert_eq!(intern(&mut interner, Type::Int), 4);
    assert_eq!(interner.len(), 8);
    let id = intern(&mut interner, Type::List(Box::new(Type::Str)));
    assert_eq!(id, 8);
    assert_eq!(interner.len(), 9);
    assert!(interner.contains(&Type::List(Box::new(Type::Str))));
    assert_eq!(get_id(&interner, &Type::Class("A".to_string())), None);
    assert_eq!(get_type(&interner, 99), None);
    interner.clear();
    assert_eq!(interner.len(), 0);
}
