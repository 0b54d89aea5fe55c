use typthon::errors::{find_similar_names, levenshtein_distance, ErrorCollector, ErrorKind, SourceLocation, TypeError};
use typthon::types::{CompareOp, Effect, EffectSet, Predicate, PredicateExpr, Type};

fn loc() -> SourceLocation {
    SourceLocation::new(3, 4, 3, 9)
}

#[test]
fn subtyping_basics() {
    assert!(Type::Int.is_subtype(&Type::Any));
    assert!(Type::Never.is_subtype(&Type::Str));
    assert!(Type::Int.is_subtype(&Type::Union(vec![Type::Str, Type::Int])));
    assert!(!Type::Float.is_subtype(&Type::Union(vec![Type::Str, Type::Int])));
    assert!(Type::List(Box::new(Type::Never)).is_subtype(&Type::List(Box::new(Type::Int))));
    let f = Type::Function(vec![Type::Any], Box::new(Type::Int));
    let g = Type::Function(vec![Type::Int], Box::new(Type::Any));
    assert!(f.is_subtype(&g));
    assert!(!g.is_subtype(&f));
}

#[test]
fn union_normalization() {
    assert_eq!(Type::union(vec![]), Type::Never);
    assert_eq!(Type::union(vec![Type::Int]), Type::Int);
    assert_eq!(Type::union(vec![Type::Int, Type::Any]), Type::Any);
    assert_eq!(
        Type::union(vec![Type::Int, Type::Union(vec![Type::Str, Type::Never]), Type::Int]),
        Type::Union(vec![Type::Int, Type::Str])
    );
}

#[test]
fn intersection_normalization() {
    assert_eq!(Type::intersection(vec![]), Type::Any);
    assert_eq!(Type::intersection(vec![Type::Any, Type::Int]), Type::Int);
    assert_eq!(
        Type::intersection(vec![Type::Int, Type::Str]),
        Type::Intersection(vec![Type::Int, Type::Str])
    );
    let same = vec![Type::Int; 10];
    assert_eq!(Type::intersection(same), Type::Int);
    let mut mixed = vec![Type::Int; 9];
    mixed.push(Type::Str);
    assert_eq!(Type::intersection(mixed), Type::Never);
}

#[test]
fn type_text() {
    let t = Type::Dict(Box::new(Type::Str), Box::new(Type::List(Box::new(Type::Var(3)))));
    assert_eq!(t.to_string(), "dict[str, list[T3]]");
    let f = Type::Function(vec![Type::Int, Type::Bool], Box::new(Type::NoneType));
    assert_eq!(f.to_string(), "(int, bool) -> None");
    assert_eq!(Type::Union(vec![Type::Int, Type::Str]).to_string(), "int | str");
    let e = Type::Int.with_effect(Effect::IO);
    assert_eq!(e.to_string(), "int ! {IO}");
}

#[test]
fn effect_sets() {
    let a = EffectSet::single(Effect::IO);
    let b = EffectSet::single(Effect::Network).union(EffectSet::pure());
    let u = a.union(b);
    assert!(u.contains(&Effect::IO));
    assert!(u.contains(&Effect::Network));
    assert!(!u.is_pure());
    assert!(EffectSet::pure().is_pure());
    assert!(EffectSet::empty().is_pure());
    assert!(EffectSet::single(Effect::IO).is_subset(&u));
    assert!(!u.is_subset(&EffectSet::single(Effect::IO)));
    assert_eq!(EffectSet::single(Effect::Custom("db".to_string())).to_string(), "{Custom(\"db\")}");
}

#[test]
fn predicates() {
    let pos = Predicate::Compare { op: CompareOp::Gt, left: PredicateExpr::Value, right: PredicateExpr::Literal(0) };
    let small = Predicate::Compare { op: CompareOp::Lt, left: PredicateExpr::Value, right: PredicateExpr::Literal(10) };
    let both = pos.clone().and(small.clone());
    assert!(both.implies(&pos));
    assert!(pos.implies(&Predicate::True));
    assert!(!Predicate::True.implies(&pos));
    assert!(pos.implies(&pos.clone().or(small)));
}

#[test]
fn error_texts() {
    let e = TypeError::type_mismatch(Type::Int, Type::Float, loc());
    assert_eq!(e.suggestions, vec!["Use int() to convert float to int".to_string()]);
    assert_eq!(
        e.to_string(),
        "3:4: Type mismatch: expected int, found float\n  hint: Use int() to convert float to int\n"
    );
    let n = TypeError::type_mismatch(Type::Int, Type::Any, loc());
    assert_eq!(n.suggestions, vec!["Note: Any is a supertype of int".to_string()]);
    let u = TypeError::undefined_variable("x".to_string(), loc(), vec!["y".to_string()]).with_file("m.py".to_string());
    assert_eq!(u.to_string(), "m.py:3:4: Undefined variable: x\n  hint: Did you mean 'y'?\n");
    let c = TypeError::invalid_arg_count(2, 3, loc());
    assert_eq!(c.kind.to_string(), "Invalid argument count: expected 2, found 3");
}

#[test]
fn collector_keeps_at_most_its_maximum() {
    let mut c = ErrorCollector::with_max(2);
    for _ in 0..5 {
        c.add(TypeError::new(ErrorKind::NonCallable { ty: "int".to_string() }, loc()));
    }
    assert_eq!(c.error_count(), 2);
    assert!(c.has_errors());
    c.clear();
    assert!(!c.has_errors());
}

#[test]
fn edit_distances_and_suggestions() {
    assert_eq!(levenshtein_distance("kitten", "sitting"), 3);
    assert_eq!(levenshtein_distance("", "abc"), 3);
    assert_eq!(levenshtein_distance("same", "same"), 0);
    let cands = vec!["count".to_string(), "cont".to_string(), "mount".to_string(), "zzz".to_string()];
    assert_eq!(find_similar_names("count", &cands, 2), vec!["cont".to_string(), "mount".to_string()]);
}

#[test]
fn union_is_subtype_of_larger_union() {
    let small = Type::Union(vec![Type::Int, Type::Str]);
    let big = Type::Union(vec![Type::Int, Type::Str, Type::Bool]);
    assert!(small.is_subtype(&big));
    assert!(!big.is_subtype(&small));
}

#[test]
fn error_debug_text_matches_derived_debug() {
    let errs = vec![
        TypeError::new(
            ErrorKind::TypeMismatch { expected: "int".to_string(), found: "s\"tr".to_string() },
            loc(),
        )
        .with_suggestions(vec!["Use int()".to_string()]),
        TypeError::new(ErrorKind::InvalidArgCount { expected: 2, found: 3 }, loc()).with_file("a.py".to_string()),
        TypeError::new(ErrorKind::CircularDependency { chain: vec!["a".to_string(), "b".to_string()] }, loc()),
    ];
    assert_eq!(typthon::debug::type_errors_debug_text(&errs), format!("{:?}", errs));
    assert_eq!(typthon::debug::type_errors_debug_text(&vec![]), "[]");
}
