use typthon::errors::{find_similar_names, levenshtein_distance};
use typthon::location::LineIndex;
use typthon::types::{CompareOp, Predicate, PredicateExpr, Type};
use typthon::variance::{Variance, VarianceAnalyzer};

fn cmp(n: i64) -> Predicate {
    Predicate::Compare { op: CompareOp::Gt, left: PredicateExpr::Value, right: PredicateExpr::Literal(n) }
}

#[test]
fn conjunction_chains_flatten_either_way() {
    let left = cmp(1).and(cmp(2)).and(cmp(3));
    let right = cmp(1).and(cmp(2).and(cmp(3)));
    let flat = Predicate::And(vec![cmp(1), cmp(2), cmp(3)]);
    assert!(left == flat);
    assert!(right == flat);
    let joined = Predicate::And(vec![cmp(1)]).and(Predicate::And(vec![cmp(2), cmp(3)]));
    assert!(joined == flat);
}

#[test]
fn edit_distance_is_symmetric_and_zero_only_on_equal_strings() {
    assert_eq!(levenshtein_distance("kitten", "sitting"), levenshtein_distance("sitting", "kitten"));
    assert_eq!(levenshtein_distance("same", "same"), 0);
    assert!(levenshtein_distance("same", "some") > 0);
    assert!(levenshtein_distance("a", "abcd") >= 3);
}

#[test]
fn suggestions_come_nearest_first_in_candidate_order() {
    let cands = vec!["abx".to_string(), "ab".to_string(), "abc".to_string(), "zzz".to_string(), "abd".to_string()];
    let r = find_similar_names("abc", &cands, 2);
    assert_eq!(r, vec!["abx".to_string(), "ab".to_string(), "abd".to_string()]);
}

#[test]
fn union_members_do_not_subsume_each_other() {
    let u = Type::union(vec![Type::Int, Type::Union(vec![Type::Str, Type::Never]), Type::Int]);
    assert_eq!(u, Type::Union(vec![Type::Int, Type::Str]));
    assert_eq!(Type::union(vec![Type::Never]), Type::Never);
    assert_eq!(Type::union(vec![Type::Any, Type::Int]), Type::Any);
}

#[test]
fn position_line_counts_newlines_before_offset() {
    let text = "ab\ncd\n\nefg";
    let index = LineIndex::new(text);
    for offset in 0..=text.len() {
        let (line, col) = index.offset_to_position(offset);
        let before = &text[..offset];
        assert_eq!(line, before.matches('\n').count() + 1);
        let start = before.rfind('\n').map(|i| i + 1).unwrap_or(0);
        assert_eq!(col, offset - start);
    }
}

#[test]
fn invariance_does_not_depend_on_the_position() {
    let mut analyzer = VarianceAnalyzer::new();
    let cases = vec![
        Type::Var(0),
        Type::List(Box::new(Type::Var(0))),
        Type::Function(vec![Type::Var(0)], Box::new(Type::Int)),
        Type::Function(vec![Type::List(Box::new(Type::Var(0)))], Box::new(Type::Var(0))),
        Type::Tuple(vec![Type::Var(0), Type::Dict(Box::new(Type::Str), Box::new(Type::Var(0)))]),
    ];
    for t in cases {
        let co = analyzer.compute_variance(&t, 0, Variance::Covariant);
        let contra = analyzer.compute_variance(&t, 0, Variance::Contravariant);
        assert_eq!(co == Variance::Invariant, contra == Variance::Invariant);
    }
}
