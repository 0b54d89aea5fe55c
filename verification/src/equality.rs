//! Equality of types, effects and predicates, decided on their models.
use vstd::prelude::*;
use vstd::std_specs::cmp::PartialEqSpecImpl;
use crate::types::{Effect, EffectSet, effects_view, PredicateExpr, Predicate, preds_view, DependentConstraint, TypeKind, TypeParam, tparams_view, TypeCondition, Type, tviews};

verus! {

/// The model of a type has the same variant as the type.
pub proof fn lemma_view_tag(t: Type)
    ensures
        (t@ is Any) <==> (t is Any),
        (t@ is Never) <==> (t is Never),
        (t@ is NoneType) <==> (t is NoneType),
        (t@ is Bool) <==> (t is Bool),
        (t@ is Int) <==> (t is Int),
        (t@ is Float) <==> (t is Float),
        (t@ is Str) <==> (t is Str),
        (t@ is Bytes) <==> (t is Bytes),
        (t@ is List) <==> (t is List),
        (t@ is Tuple) <==> (t is Tuple),
        (t@ is Dict) <==> (t is Dict),
        (t@ is SetOf) <==> (t is SetOf),
        (t@ is Function) <==> (t is Function),
        (t@ is Union) <==> (t is Union),
        (t@ is Intersection) <==> (t is Intersection),
        (t@ is Generic) <==> (t is Generic),
        (t@ is Class) <==> (t is Class),
        (t@ is Var) <==> (t is Var),
        (t@ is Effect) <==> (t is Effect),
        (t@ is Refinement) <==> (t is Refinement),
        (t@ is Dependent) <==> (t is Dependent),
        (t@ is Nominal) <==> (t is Nominal),
        (t@ is Conditional) <==> (t is Conditional),
        (t@ is Recursive) <==> (t is Recursive),
        (t@ is HigherKinded) <==> (t is HigherKinded),
{
}

/// Structural equality of kinds.
pub fn kind_eq(a: &TypeKind, b: &TypeKind) -> (r: bool)
    ensures
        r == (*a == *b),
    decreases a,
{
    match (a, b) {
        (TypeKind::Star, TypeKind::Star) => true,
        (TypeKind::Arrow(a1, a2), TypeKind::Arrow(b1, b2)) => kind_eq(a1, b1) && kind_eq(a2, b2),
        _ => false,
    }
}

/// Equality of effects by their models.
pub fn effect_eq(a: &Effect, b: &Effect) -> (r: bool)
    ensures
        r == (a@ == b@),
{
    match (a, b) {
        (Effect::Pure, Effect::Pure) => true,
        (Effect::IO, Effect::IO) => true,
        (Effect::Network, Effect::Network) => true,
        (Effect::Mutation, Effect::Mutation) => true,
        (Effect::Exception, Effect::Exception) => true,
        (Effect::Async, Effect::Async) => true,
        (Effect::Random, Effect::Random) => true,
        (Effect::Time, Effect::Time) => true,
        (Effect::Custom(x), Effect::Custom(y)) => *x == *y,
        _ => false,
    }
}

/// Equality of effect lists by their models.
pub fn effects_eq(a: &Vec<Effect>, b: &Vec<Effect>) -> (r: bool)
    ensures
        r == (effects_view(a@) == effects_view(b@)),
{
    if a.len() != b.len() {
        assert(effects_view(a@).len() != effects_view(b@).len());
        return false;
    }
    let mut i: usize = 0;
    while i < a.len()
        invariant
            a.len() == b.len(),
            0 <= i <= a.len(),
            forall|j: int| 0 <= j < i ==> a@[j]@ == b@[j]@,
        decreases a.len() - i,
    {
        if !effect_eq(&a[i], &b[i]) {
            assert(effects_view(a@)[i as int] != effects_view(b@)[i as int]);
            return false;
        }
        i += 1;
    }
    assert(effects_view(a@) =~= effects_view(b@));
    true
}

/// Equality of predicate expressions by their models.
pub fn pexpr_eq(a: &PredicateExpr, b: &PredicateExpr) -> (r: bool)
    ensures
        r == (a@ == b@),
    decreases a,
{
    match (a, b) {
        (PredicateExpr::Value, PredicateExpr::Value) => true,
        (PredicateExpr::Literal(x), PredicateExpr::Literal(y)) => *x == *y,
        (PredicateExpr::Property(x), PredicateExpr::Property(y)) => *x == *y,
        (PredicateExpr::BinOp(l1, o1, r1), PredicateExpr::BinOp(l2, o2, r2)) => {
            *o1 == *o2 && pexpr_eq(l1, l2) && pexpr_eq(r1, r2)
        },
        _ => false,
    }
}

/// Equality of predicates by their models.
pub fn pred_eq(a: &Predicate, b: &Predicate) -> (r: bool)
    ensures
        r == (a@ == b@),
    decreases a,
{
    match (a, b) {
        (Predicate::True, Predicate::True) => true,
        (
            Predicate::Compare { op: o1, left: l1, right: r1 },
            Predicate::Compare { op: o2, left: l2, right: r2 },
        ) => *o1 == *o2 && pexpr_eq(l1, l2) && pexpr_eq(r1, r2),
        (Predicate::And(x), Predicate::And(y)) => preds_eq(x, y),
        (Predicate::Or(x), Predicate::Or(y)) => preds_eq(x, y),
        (Predicate::Not(x), Predicate::Not(y)) => pred_eq(x, y),
        (Predicate::Custom(x), Predicate::Custom(y)) => *x == *y,
        _ => false,
    }
}

/// Equality of predicate lists by their models.
pub fn preds_eq(a: &Vec<Predicate>, b: &Vec<Predicate>) -> (r: bool)
    ensures
        r == (preds_view(a@) == preds_view(b@)),
    decreases a,
{
    if a.len() != b.len() {
        assert(preds_view(a@).len() != preds_view(b@).len());
        return false;
    }
    let mut i: usize = 0;
    while i < a.len()
        invariant
            a.len() == b.len(),
            0 <= i <= a.len(),
            forall|j: int| 0 <= j < i ==> a@[j]@ == b@[j]@,
        decreases a.len() - i,
    {
        assert(decreases_to!(a => a@[i as int]));
        if !pred_eq(&a[i], &b[i]) {
            assert(preds_view(a@)[i as int] != preds_view(b@)[i as int]);
            return false;
        }
        i += 1;
    }
    assert(preds_view(a@) =~= preds_view(b@));
    true
}

/// Equality of dependent constraints by their models.
pub fn dep_eq(a: &DependentConstraint, b: &DependentConstraint) -> (r: bool)
    ensures
        r == (a@ == b@),
{
    match (a, b) {
        (DependentConstraint::Length(x), DependentConstraint::Length(y)) => *x == *y,
        (DependentConstraint::LengthRange(x1, x2), DependentConstraint::LengthRange(y1, y2)) => {
            *x1 == *y1 && *x2 == *y2
        },
        (DependentConstraint::ValueEq(x), DependentConstraint::ValueEq(y)) => *x == *y,
        (DependentConstraint::Custom(x), DependentConstraint::Custom(y)) => *x == *y,
        _ => false,
    }
}

/// Equality of type parameters by their models.
pub fn tparam_eq(a: &TypeParam, b: &TypeParam) -> (r: bool)
    ensures
        r == (a@ == b@),
{
    a.name == b.name && kind_eq(&a.kind, &b.kind)
}

/// Equality of type parameter lists by their models.
pub fn tparams_eq(a: &Vec<TypeParam>, b: &Vec<TypeParam>) -> (r: bool)
    ensures
        r == (tparams_view(a@) == tparams_view(b@)),
{
    if a.len() != b.len() {
        assert(tparams_view(a@).len() != tparams_view(b@).len());
        return false;
    }
    let mut i: usize = 0;
    while i < a.len()
        invariant
            a.len() == b.len(),
            0 <= i <= a.len(),
            forall|j: int| 0 <= j < i ==> a@[j]@ == b@[j]@,
        decreases a.len() - i,
    {
        if !tparam_eq(&a[i], &b[i]) {
            assert(tparams_view(a@)[i as int] != tparams_view(b@)[i as int]);
            return false;
        }
        i += 1;
    }
    assert(tparams_view(a@) =~= tparams_view(b@));
    true
}

/// Equality of type conditions by their models.
pub fn cond_eq(a: &TypeCondition, b: &TypeCondition) -> (r: bool)
    ensures
        r == (a@ == b@),
    decreases a,
{
    match (a, b) {
        (TypeCondition::Extends(a1, a2), TypeCondition::Extends(b1, b2)) => type_eq(a1, b1)
            && type_eq(a2, b2),
        (TypeCondition::Equal(a1, a2), TypeCondition::Equal(b1, b2)) => type_eq(a1, b1) && type_eq(
            a2,
            b2,
        ),
        (TypeCondition::HasProperty(a1, p1), TypeCondition::HasProperty(b1, p2)) => type_eq(a1, b1)
            && *p1 == *p2,
        (TypeCondition::Custom(x), TypeCondition::Custom(y)) => *x == *y,
        _ => false,
    }
}

/// Equality of types by their models.
pub fn type_eq(a: &Type, b: &Type) -> (r: bool)
    ensures
        r == (a@ == b@),
    decreases a,
{
    proof {
        lemma_view_tag(*a);
        lemma_view_tag(*b);
    }
    match (a, b) {
        (Type::Any, Type::Any) => true,
        (Type::Never, Type::Never) => true,
        (Type::NoneType, Type::NoneType) => true,
        (Type::Bool, Type::Bool) => true,
        (Type::Int, Type::Int) => true,
        (Type::Float, Type::Float) => true,
        (Type::Str, Type::Str) => true,
        (Type::Bytes, Type::Bytes) => true,
        (Type::List(x), Type::List(y)) => type_eq(x, y),
        (Type::Tuple(x), Type::Tuple(y)) => types_eq(x, y),
        (Type::Dict(k1, v1), Type::Dict(k2, v2)) => type_eq(k1, k2) && type_eq(v1, v2),
        (Type::SetOf(x), Type::SetOf(y)) => type_eq(x, y),
        (Type::Function(p1, r1), Type::Function(p2, r2)) => types_eq(p1, p2) && type_eq(r1, r2),
        (Type::Union(x), Type::Union(y)) => types_eq(x, y),
        (Type::Intersection(x), Type::Intersection(y)) => types_eq(x, y),
        (Type::Generic(n1, x), Type::Generic(n2, y)) => *n1 == *n2 && types_eq(x, y),
        (Type::Class(x), Type::Class(y)) => *x == *y,
        (Type::Var(x), Type::Var(y)) => *x == *y,
        (Type::Effect(t1, e1), Type::Effect(t2, e2)) => type_eq(t1, t2) && effects_eq(
            &e1.effects,
            &e2.effects,
        ),
        (Type::Refinement(t1, p1), Type::Refinement(t2, p2)) => type_eq(t1, t2) && pred_eq(p1, p2),
        (Type::Dependent(t1, c1), Type::Dependent(t2, c2)) => type_eq(t1, t2) && dep_eq(c1, c2),
        (Type::Nominal(n1, t1), Type::Nominal(n2, t2)) => *n1 == *n2 && type_eq(t1, t2),
        (
            Type::Conditional { condition: c1, then_type: t1, else_type: e1 },
            Type::Conditional { condition: c2, then_type: t2, else_type: e2 },
        ) => cond_eq(c1, c2) && type_eq(t1, t2) && type_eq(e1, e2),
        (Type::Recursive(n1, t1), Type::Recursive(n2, t2)) => *n1 == *n2 && type_eq(t1, t2),
        (Type::HigherKinded(n1, p1), Type::HigherKinded(n2, p2)) => *n1 == *n2 && tparams_eq(
            p1,
            p2,
        ),
        _ => false,
    }
}

/// Equality of type lists by their models.
pub fn types_eq(a: &Vec<Type>, b: &Vec<Type>) -> (r: bool)
    ensures
        r == (tviews(a@) == tviews(b@)),
    decreases a,
{
    if a.len() != b.len() {
        assert(tviews(a@).len() != tviews(b@).len());
        return false;
    }
    let mut i: usize = 0;
    while i < a.len()
        invariant
            a.len() == b.len(),
            0 <= i <= a.len(),
            forall|j: int| 0 <= j < i ==> a@[j]@ == b@[j]@,
        decreases a.len() - i,
    {
        assert(decreases_to!(a => a@[i as int]));
        if !type_eq(&a[i], &b[i]) {
            assert(tviews(a@)[i as int] != tviews(b@)[i as int]);
            return false;
        }
        i += 1;
    }
    assert(tviews(a@) =~= tviews(b@));
    true
}


impl PartialEq for Type {
    fn eq(&self, other: &Self) -> (r: bool) {
        type_eq(self, other)
    }
}

impl Eq for Type {}

impl PartialEqSpecImpl for Type {
    open spec fn obeys_eq_spec() -> bool {
        true
    }

    open spec fn eq_spec(&self, other: &Type) -> bool {
        self@ == other@
    }
}

impl PartialEq for Effect {
    fn eq(&self, other: &Self) -> (r: bool) {
        effect_eq(self, other)
    }
}

impl Eq for Effect {}

impl PartialEqSpecImpl for Effect {
    open spec fn obeys_eq_spec() -> bool {
        true
    }

    open spec fn eq_spec(&self, other: &Effect) -> bool {
        self@ == other@
    }
}

impl PartialEq for PredicateExpr {
    fn eq(&self, other: &Self) -> (r: bool) {
        pexpr_eq(self, other)
    }
}

impl Eq for PredicateExpr {}

impl PartialEqSpecImpl for PredicateExpr {
    open spec fn obeys_eq_spec() -> bool {
        true
    }

    open spec fn eq_spec(&self, other: &PredicateExpr) -> bool {
        self@ == other@
    }
}

impl PartialEq for Predicate {
    fn eq(&self, other: &Self) -> (r: bool) {
        pred_eq(self, other)
    }
}

impl Eq for Predicate {}

impl PartialEqSpecImpl for Predicate {
    open spec fn obeys_eq_spec() -> bool {
        true
    }

    open spec fn eq_spec(&self, other: &Predicate) -> bool {
        self@ == other@
    }
}

impl PartialEq for DependentConstraint {
    fn eq(&self, other: &Self) -> (r: bool) {
        dep_eq(self, other)
    }
}

impl Eq for DependentConstraint {}

impl PartialEqSpecImpl for DependentConstraint {
    open spec fn obeys_eq_spec() -> bool {
        true
    }

    open spec fn eq_spec(&self, other: &DependentConstraint) -> bool {
        self@ == other@
    }
}

impl PartialEq for TypeParam {
    fn eq(&self, other: &Self) -> (r: bool) {
        tparam_eq(self, other)
    }
}

impl Eq for TypeParam {}

impl PartialEqSpecImpl for TypeParam {
    open spec fn obeys_eq_spec() -> bool {
        true
    }

    open spec fn eq_spec(&self, other: &TypeParam) -> bool {
        self@ == other@
    }
}

impl PartialEq for TypeCondition {
    fn eq(&self, other: &Self) -> (r: bool) {
        cond_eq(self, other)
    }
}

impl Eq for TypeCondition {}

impl PartialEqSpecImpl for TypeCondition {
    open spec fn obeys_eq_spec() -> bool {
        true
    }

    open spec fn eq_spec(&self, other: &TypeCondition) -> bool {
        self@ == other@
    }
}

impl PartialEq for TypeKind {
    fn eq(&self, other: &Self) -> (r: bool) {
        kind_eq(self, other)
    }
}

impl Eq for TypeKind {}

impl PartialEqSpecImpl for TypeKind {
    open spec fn obeys_eq_spec() -> bool {
        true
    }

    open spec fn eq_spec(&self, other: &TypeKind) -> bool {
        *self == *other
    }
}

impl PartialEq for EffectSet {
    fn eq(&self, other: &Self) -> (r: bool) {
        effects_eq(&self.effects, &other.effects)
    }
}

impl Eq for EffectSet {}

impl PartialEqSpecImpl for EffectSet {
    open spec fn obeys_eq_spec() -> bool {
        true
    }

    open spec fn eq_spec(&self, other: &EffectSet) -> bool {
        self@ == other@
    }
}

} // verus!
