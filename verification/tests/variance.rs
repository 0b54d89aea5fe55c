use typthon::types::Type;
use typthon::variance::{Variance, VarianceAnalyzer};

#[test]
fn test_variance_composition() {
    assert_eq!(Variance::Covariant.compose(Variance::Covariant), Variance::Covariant);
    assert_eq!(Variance::Contravariant.compose(Variance::Contravariant), Variance::Covariant);
    assert_eq!(Variance::Covariant.compose(Variance::Contravariant), Variance::Contravariant);
}

#[test]
fn test_variance_flip() {
    assert_eq!(Variance::Covariant.flip(), Variance::Contravariant);
    assert_eq!(Variance::Contravariant.flip(), Variance::Covariant);
    assert_eq!(Variance::Invariant.flip(), Variance::Invariant);
}

#[test]
fn test_builtin_variances() {
    let analyzer = VarianceAnalyzer::new();
    assert_eq!(analyzer.builtin_variance("Tuple"), Some(Variance::Covariant));
    assert_eq!(analyzer.builtin_variance("List"), Some(Variance::Invariant));
}

#[test]
fn composition_laws_on_values() {
    let all = [Variance::Covariant, Variance::Contravariant, Variance::Invariant, Variance::Bivariant];
    for a in all {
        assert_eq!(a.flip().flip(), a);
        assert_eq!(Variance::Bivariant.compose(a), a);
        assert_eq!(Variance::Invariant.compose(a), Variance::Invariant);
        for b in all {
            assert_eq!(a.compose(b), b.compose(a));
        }
    }
}

#[test]
fn subtyping_generics_by_variance() {
    let mut analyzer = VarianceAnalyzer::new();
    assert!(analyzer.check_subtype_with_variance("Tuple", &[Type::Int], "Tuple", &[Type::Any]));
    assert!(!analyzer.check_subtype_with_variance("List", &[Type::Int], "List", &[Type::Any]));
    assert!(analyzer.check_subtype_with_variance("List", &[Type::Int], "List", &[Type::Int]));
    assert!(!analyzer.check_subtype_with_variance("List", &[Type::Int], "Tuple", &[Type::Int]));
    assert!(!analyzer.check_subtype_with_variance("Tuple", &[Type::Int], "Tuple", &[]));
    assert_eq!(analyzer.infer_variance("FrozenSet", 0), Variance::Covariant);
    assert_eq!(analyzer.infer_variance("Custom", 2), Variance::Invariant);
}

#[test]
fn variance_annotations() {
    let analyzer = VarianceAnalyzer::new();
    assert!(analyzer.validate_variance_annotation("Box", Variance::Invariant, Variance::Covariant).is_ok());
    assert_eq!(
        analyzer.validate_variance_annotation("Box", Variance::Covariant, Variance::Contravariant),
        Err("Type parameter of Box declared as Covariant but used as Contravariant".to_string())
    );
}

#[test]
fn computed_variances() {
    let mut analyzer = VarianceAnalyzer::new();
    let f = Type::Function(vec![Type::Var(1)], Box::new(Type::Int));
    assert_eq!(analyzer.compute_variance(&f, 1, Variance::Covariant), Variance::Covariant);
    assert_eq!(analyzer.compute_variance(&Type::Var(1), 1, Variance::Contravariant), Variance::Contravariant);
    let l = Type::List(Box::new(Type::Var(1)));
    assert_eq!(analyzer.compute_variance(&l, 1, Variance::Covariant), Variance::Invariant);
    assert!(!analyzer.is_variance_safe(&l, 1));
    assert!(analyzer.is_variance_safe(&Type::Tuple(vec![Type::Var(1)]), 1));
    assert_eq!(analyzer.compute_variance(&Type::Var(2), 1, Variance::Contravariant), Variance::Covariant);
}
