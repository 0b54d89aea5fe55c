//! Copies of types, effects and predicates that keep their models.
use vstd::prelude::*;
use crate::types::{
    Effect, EffectSet, effects_view, PredicateExpr, Predicate, preds_view, DependentConstraint,
    TypeKind, TypeParam, tparams_view, TypeCondition, Type, tviews,
};

verus! {

impl Clone for TypeKind {
    fn clone(&self) -> (r: Self)
        ensures
            r == *self,
        decreases self,
    {
        match self {
            TypeKind::Star => TypeKind::Star,
            TypeKind::Arrow(a, b) => TypeKind::Arrow(Box::new((**a).clone()), Box::new((**b).clone())),
        }
    }
}

impl Clone for Effect {
    fn clone(&self) -> (r: Self)
        ensures
            r@ == self@,
    {
        match self {
            Effect::Pure => Effect::Pure,
            Effect::IO => Effect::IO,
            Effect::Network => Effect::Network,
            Effect::Mutation => Effect::Mutation,
            Effect::Exception => Effect::Exception,
            Effect::Async => Effect::Async,
            Effect::Random => Effect::Random,
            Effect::Time => Effect::Time,
            Effect::Custom(s) => Effect::Custom(s.clone()),
        }
    }
}

/// Copies a list of effects.
pub fn clone_effects(v: &Vec<Effect>) -> (r: Vec<Effect>)
    ensures
        effects_view(r@) == effects_view(v@),
{
    let mut r: Vec<Effect> = Vec::new();
    let mut i: usize = 0;
    while i < v.len()
        invariant
            0 <= i <= v.len(),
            r.len() == i,
            forall|j: int| 0 <= j < i ==> r@[j]@ == v@[j]@,
        decreases v.len() - i,
    {
        r.push(v[i].clone());
        i += 1;
    }
    assert(effects_view(r@) =~= effects_view(v@));
    r
}

impl Clone for EffectSet {
    fn clone(&self) -> (r: Self)
        ensures
            r@ == self@,
    {
        EffectSet { effects: clone_effects(&self.effects) }
    }
}

impl Clone for PredicateExpr {
    fn clone(&self) -> (r: Self)
        ensures
            r@ == self@,
        decreases self,
    {
        match self {
            PredicateExpr::Value => PredicateExpr::Value,
            PredicateExpr::Literal(n) => PredicateExpr::Literal(*n),
            PredicateExpr::Property(s) => PredicateExpr::Property(s.clone()),
            PredicateExpr::BinOp(l, op, r) => PredicateExpr::BinOp(
                Box::new((**l).clone()),
                *op,
                Box::new((**r).clone()),
            ),
        }
    }
}

impl Clone for Predicate {
    fn clone(&self) -> (r: Self)
        ensures
            r@ == self@,
        decreases self,
    {
        match self {
            Predicate::True => Predicate::True,
            Predicate::Compare { op, left, right } => Predicate::Compare {
                op: *op,
                left: left.clone(),
                right: right.clone(),
            },
            Predicate::And(v) => Predicate::And(clone_preds(v)),
            Predicate::Or(v) => Predicate::Or(clone_preds(v)),
            Predicate::Not(b) => Predicate::Not(Box::new((**b).clone())),
            Predicate::Custom(s) => Predicate::Custom(s.clone()),
        }
    }
}

/// Copies a list of predicates.
pub fn clone_preds(v: &Vec<Predicate>) -> (r: Vec<Predicate>)
    ensures
        preds_view(r@) == preds_view(v@),
    decreases v,
{
    let mut r: Vec<Predicate> = Vec::new();
    let mut i: usize = 0;
    while i < v.len()
        invariant
            0 <= i <= v.len(),
            r.len() == i,
            forall|j: int| 0 <= j < i ==> r@[j]@ == v@[j]@,
        decreases v.len() - i,
    {
        assert(decreases_to!(v => v@[i as int]));
        r.push(v[i].clone());
        i += 1;
    }
    assert(preds_view(r@) =~= preds_view(v@));
    r
}

impl Clone for DependentConstraint {
    fn clone(&self) -> (r: Self)
        ensures
            r@ == self@,
    {
        match self {
            DependentConstraint::Length(n) => DependentConstraint::Length(*n),
            DependentConstraint::LengthRange(a, b) => DependentConstraint::LengthRange(*a, *b),
            DependentConstraint::ValueEq(s) => DependentConstraint::ValueEq(s.clone()),
            DependentConstraint::Custom(s) => DependentConstraint::Custom(s.clone()),
        }
    }
}

impl Clone for TypeParam {
    fn clone(&self) -> (r: Self)
        ensures
            r@ == self@,
    {
        TypeParam { name: self.name.clone(), kind: self.kind.clone() }
    }
}

/// Copies a list of type parameters.
pub fn clone_tparams(v: &Vec<TypeParam>) -> (r: Vec<TypeParam>)
    ensures
        tparams_view(r@) == tparams_view(v@),
{
    let mut r: Vec<TypeParam> = Vec::new();
    let mut i: usize = 0;
    while i < v.len()
        invariant
            0 <= i <= v.len(),
            r.len() == i,
            forall|j: int| 0 <= j < i ==> r@[j]@ == v@[j]@,
        decreases v.len() - i,
    {
        r.push(v[i].clone());
        i += 1;
    }
    assert(tparams_view(r@) =~= tparams_view(v@));
    r
}

impl Clone for TypeCondition {
    fn clone(&self) -> (r: Self)
        ensures
            r@ == self@,
        decreases self,
    {
        match self {
            TypeCondition::Extends(a, b) => TypeCondition::Extends(a.clone(), b.clone()),
            TypeCondition::Equal(a, b) => TypeCondition::Equal(a.clone(), b.clone()),
            TypeCondition::HasProperty(a, p) => TypeCondition::HasProperty(a.clone(), p.clone()),
            TypeCondition::Custom(s) => TypeCondition::Custom(s.clone()),
        }
    }
}

impl Clone for Type {
    fn clone(&self) -> (r: Self)
        ensures
            r@ == self@,
        decreases self,
    {
        match self {
            Type::Any => Type::Any,
            Type::Never => Type::Never,
            Type::NoneType => Type::NoneType,
            Type::Bool => Type::Bool,
            Type::Int => Type::Int,
            Type::Float => Type::Float,
            Type::Str => Type::Str,
            Type::Bytes => Type::Bytes,
            Type::List(b) => Type::List(Box::new((**b).clone())),
            Type::Tuple(v) => Type::Tuple(clone_types(v)),
            Type::Dict(k, v) => Type::Dict(Box::new((**k).clone()), Box::new((**v).clone())),
            Type::SetOf(b) => Type::SetOf(Box::new((**b).clone())),
            Type::Function(ps, r) => Type::Function(clone_types(ps), Box::new((**r).clone())),
            Type::Union(v) => Type::Union(clone_types(v)),
            Type::Intersection(v) => Type::Intersection(clone_types(v)),
            Type::Generic(n, v) => Type::Generic(n.clone(), clone_types(v)),
            Type::Class(n) => Type::Class(n.clone()),
            Type::Var(id) => Type::Var(*id),
            Type::Effect(b, e) => Type::Effect(Box::new((**b).clone()), e.clone()),
            Type::Refinement(b, p) => Type::Refinement(Box::new((**b).clone()), p.clone()),
            Type::Dependent(b, c) => Type::Dependent(Box::new((**b).clone()), c.clone()),
            Type::Nominal(n, b) => Type::Nominal(n.clone(), Box::new((**b).clone())),
            Type::Conditional { condition, then_type, else_type } => Type::Conditional {
                condition: Box::new((**condition).clone()),
                then_type: Box::new((**then_type).clone()),
                else_type: Box::new((**else_type).clone()),
            },
            Type::Recursive(n, b) => Type::Recursive(n.clone(), Box::new((**b).clone())),
            Type::HigherKinded(n, ps) => Type::HigherKinded(n.clone(), clone_tparams(ps)),
        }
    }
}

/// Copies a list of types.
pub fn clone_types(v: &Vec<Type>) -> (r: Vec<Type>)
    ensures
        tviews(r@) == tviews(v@),
    decreases v,
{
    let mut r: Vec<Type> = Vec::new();
    let mut i: usize = 0;
    while i < v.len()
        invariant
            0 <= i <= v.len(),
            r.len() == i,
            forall|j: int| 0 <= j < i ==> r@[j]@ == v@[j]@,
        decreases v.len() - i,
    {
        assert(decreases_to!(v => v@[i as int]));
        r.push(v[i].clone());
        i += 1;
    }
    assert(tviews(r@) =~= tviews(v@));
    r
}

} // verus!
