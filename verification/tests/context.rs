use typthon::context::{ClassSchema, TypeContext};
use typthon::types::Type;

#[test]
fn builtin_methods_are_attributes() {
    let ctx = TypeContext::new();
    assert_eq!(
        ctx.has_attribute(&Type::Str, "upper"),
        Some(Type::Function(vec![], Box::new(Type::Str)))
    );
    assert_eq!(
        ctx.has_attribute(&Type::List(Box::new(Type::Int)), "append"),
        Some(Type::Function(vec![Type::Any], Box::new(Type::NoneType)))
    );
    assert_eq!(ctx.has_attribute(&Type::Int, "upper"), None);
    assert_eq!(ctx.has_attribute(&Type::Str, "nope"), None);
}

#[test]
fn union_needs_the_attribute_in_every_member() {
    let ctx = TypeContext::new();
    let both = Type::Union(vec![Type::List(Box::new(Type::Int)), Type::SetOf(Box::new(Type::Int))]);
    assert_eq!(
        ctx.has_attribute(&both, "clear"),
        Some(Type::Function(vec![], Box::new(Type::NoneType)))
    );
    assert_eq!(ctx.has_attribute(&both, "append"), None);
    let inter = Type::Intersection(vec![Type::Int, Type::Str]);
    assert_eq!(
        ctx.has_attribute(&inter, "lower"),
        Some(Type::Function(vec![], Box::new(Type::Str)))
    );
}

#[test]
fn classes_inherit_from_bases() {
    let mut ctx = TypeContext::new();
    let mut base = ClassSchema::new("Base".to_string());
    base.add_property("size".to_string(), Type::Int);
    ctx.register_class(base);
    let derived = ClassSchema::new("Derived".to_string()).with_bases(vec!["Base".to_string()]);
    ctx.register_class(derived);
    assert_eq!(ctx.has_attribute(&Type::Class("Derived".to_string()), "size"), Some(Type::Int));
    let attrs = ctx.get_attributes(&Type::Class("Derived".to_string()));
    assert_eq!(attrs, vec!["size".to_string()]);
    assert!(ctx.get_class("Derived").is_some());
    assert!(ctx.get_class("Missing").is_none());
}

#[test]
fn fresh_variables_count_up() {
    let mut ctx = TypeContext::new();
    assert_eq!(ctx.fresh_var(), Type::Var(0));
    assert_eq!(ctx.fresh_var(), Type::Var(1));
    ctx.set_type("x".to_string(), Type::Int);
    assert_eq!(ctx.get_type("x"), Some(Type::Int));
    assert_eq!(ctx.get_type("y"), None);
    let mut names = ctx.get_attributes(&Type::Str);
    names.sort();
    assert_eq!(names.len(), 9);
    assert_eq!(names[0], "endswith");
}
