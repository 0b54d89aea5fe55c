//! The type language: types, effects, predicates and their mathematical models.
use vstd::prelude::*;

verus! {

/// A side effect that a computation may perform.
#[derive(Debug)]
pub enum Effect {
    Pure,
    IO,
    Network,
    Mutation,
    Exception,
    Async,
    Random,
    Time,
    Custom(String),
}

/// Model of an [`Effect`].
pub enum SEffect {
    Pure,
    IO,
    Network,
    Mutation,
    Exception,
    Async,
    Random,
    Time,
    Custom(Seq<char>),
}

impl View for Effect {
    type V = SEffect;

    open spec fn view(&self) -> SEffect {
        match self {
            Effect::Pure => SEffect::Pure,
            Effect::IO => SEffect::IO,
            Effect::Network => SEffect::Network,
            Effect::Mutation => SEffect::Mutation,
            Effect::Exception => SEffect::Exception,
            Effect::Async => SEffect::Async,
            Effect::Random => SEffect::Random,
            Effect::Time => SEffect::Time,
            Effect::Custom(s) => SEffect::Custom(s@),
        }
    }
}

/// A set of effects, kept as a list without repetitions.
#[derive(Debug)]
pub struct EffectSet {
    pub effects: Vec<Effect>,
}

pub open spec fn effects_view(v: Seq<Effect>) -> Seq<SEffect> {
    v.map_values(|e: Effect| e@)
}

impl View for EffectSet {
    type V = Seq<SEffect>;

    open spec fn view(&self) -> Seq<SEffect> {
        effects_view(self.effects@)
    }
}

/// Comparison operator of a refinement predicate.
#[derive(Debug, Clone, Copy, PartialEq, Eq, Structural)]
pub enum CompareOp {
    Eq,
    Ne,
    Lt,
    Le,
    Gt,
    Ge,
}

/// Arithmetic operator of a predicate expression.
#[derive(Debug, Clone, Copy, PartialEq, Eq, Structural)]
pub enum BinOp {
    Add,
    Sub,
    Mul,
    Div,
    Mod,
}

/// Expression inside a refinement predicate.
#[derive(Debug)]
pub enum PredicateExpr {
    Value,
    Literal(i64),
    Property(String),
    BinOp(Box<PredicateExpr>, BinOp, Box<PredicateExpr>),
}

/// Model of a [`PredicateExpr`].
pub enum SPredExpr {
    Value,
    Literal(i64),
    Property(Seq<char>),
    BinOp(Box<SPredExpr>, BinOp, Box<SPredExpr>),
}

pub open spec fn pexpr_view(e: PredicateExpr) -> SPredExpr
    decreases e,
{
    match e {
        PredicateExpr::Value => SPredExpr::Value,
        PredicateExpr::Literal(n) => SPredExpr::Literal(n),
        PredicateExpr::Property(s) => SPredExpr::Property(s@),
        PredicateExpr::BinOp(l, op, r) => SPredExpr::BinOp(
            Box::new(pexpr_view(*l)),
            op,
            Box::new(pexpr_view(*r)),
        ),
    }
}

impl View for PredicateExpr {
    type V = SPredExpr;

    open spec fn view(&self) -> SPredExpr {
        pexpr_view(*self)
    }
}

/// Value-level predicate of a refinement type.
#[derive(Debug)]
pub enum Predicate {
    True,
    Compare { op: CompareOp, left: PredicateExpr, right: PredicateExpr },
    And(Vec<Predicate>),
    Or(Vec<Predicate>),
    Not(Box<Predicate>),
    Custom(String),
}

/// Model of a [`Predicate`].
pub enum SPredicate {
    True,
    Compare(CompareOp, SPredExpr, SPredExpr),
    And(Seq<SPredicate>),
    Or(Seq<SPredicate>),
    Not(Box<SPredicate>),
    Custom(Seq<char>),
}

pub open spec fn pred_view(p: Predicate) -> SPredicate
    decreases p,
{
    match p {
        Predicate::True => SPredicate::True,
        Predicate::Compare { op, left, right } => SPredicate::Compare(op, left@, right@),
        Predicate::And(v) => SPredicate::And(preds_view(v@)),
        Predicate::Or(v) => SPredicate::Or(preds_view(v@)),
        Predicate::Not(b) => SPredicate::Not(Box::new(pred_view(*b))),
        Predicate::Custom(s) => SPredicate::Custom(s@),
    }
}

pub open spec fn preds_view(s: Seq<Predicate>) -> Seq<SPredicate>
    decreases s,
{
    Seq::new(
        s.len(),
        |i: int|
            if 0 <= i < s.len() {
                pred_view(s[i])
            } else {
                SPredicate::True
            },
    )
}

impl View for Predicate {
    type V = SPredicate;

    open spec fn view(&self) -> SPredicate {
        pred_view(*self)
    }
}

/// Constraint of a dependent type.
#[derive(Debug)]
pub enum DependentConstraint {
    Length(usize),
    LengthRange(usize, usize),
    ValueEq(String),
    Custom(String),
}

/// Model of a [`DependentConstraint`].
pub enum SDep {
    Length(usize),
    LengthRange(usize, usize),
    ValueEq(Seq<char>),
    Custom(Seq<char>),
}

impl View for DependentConstraint {
    type V = SDep;

    open spec fn view(&self) -> SDep {
        match self {
            DependentConstraint::Length(n) => SDep::Length(*n),
            DependentConstraint::LengthRange(a, b) => SDep::LengthRange(*a, *b),
            DependentConstraint::ValueEq(s) => SDep::ValueEq(s@),
            DependentConstraint::Custom(s) => SDep::Custom(s@),
        }
    }
}

/// Kind of a type (for higher-kinded types).
#[derive(Debug)]
pub enum TypeKind {
    Star,
    Arrow(Box<TypeKind>, Box<TypeKind>),
}

/// Parameter of a higher-kinded type.
#[derive(Debug)]
pub struct TypeParam {
    pub name: String,
    pub kind: TypeKind,
}

/// Model of a [`TypeParam`].
pub struct STypeParam {
    pub name: Seq<char>,
    pub kind: TypeKind,
}

impl View for TypeParam {
    type V = STypeParam;

    open spec fn view(&self) -> STypeParam {
        STypeParam { name: self.name@, kind: self.kind }
    }
}

pub open spec fn tparams_view(v: Seq<TypeParam>) -> Seq<STypeParam> {
    v.map_values(|p: TypeParam| p@)
}

/// Type-level condition of a conditional type.
#[derive(Debug)]
pub enum TypeCondition {
    Extends(Type, Type),
    Equal(Type, Type),
    HasProperty(Type, String),
    Custom(String),
}

/// Model of a [`TypeCondition`].
pub enum SCond {
    Extends(SType, SType),
    Equal(SType, SType),
    HasProperty(SType, Seq<char>),
    Custom(Seq<char>),
}

/// A type of the gradual type system.
#[derive(Debug)]
pub enum Type {
    Any,
    Never,
    NoneType,
    Bool,
    Int,
    Float,
    Str,
    Bytes,
    List(Box<Type>),
    Tuple(Vec<Type>),
    Dict(Box<Type>, Box<Type>),
    SetOf(Box<Type>),
    Function(Vec<Type>, Box<Type>),
    Union(Vec<Type>),
    Intersection(Vec<Type>),
    Generic(String, Vec<Type>),
    Class(String),
    Var(u64),
    Effect(Box<Type>, EffectSet),
    Refinement(Box<Type>, Predicate),
    Dependent(Box<Type>, DependentConstraint),
    Nominal(String, Box<Type>),
    Conditional { condition: Box<TypeCondition>, then_type: Box<Type>, else_type: Box<Type> },
    Recursive(String, Box<Type>),
    HigherKinded(String, Vec<TypeParam>),
}

/// Model of a [`Type`]: names become character sequences, lists become sequences.
pub enum SType {
    Any,
    Never,
    NoneType,
    Bool,
    Int,
    Float,
    Str,
    Bytes,
    List(Box<SType>),
    Tuple(Seq<SType>),
    Dict(Box<SType>, Box<SType>),
    SetOf(Box<SType>),
    Function(Seq<SType>, Box<SType>),
    Union(Seq<SType>),
    Intersection(Seq<SType>),
    Generic(Seq<char>, Seq<SType>),
    Class(Seq<char>),
    Var(u64),
    Effect(Box<SType>, Seq<SEffect>),
    Refinement(Box<SType>, SPredicate),
    Dependent(Box<SType>, SDep),
    Nominal(Seq<char>, Box<SType>),
    Conditional(Box<SCond>, Box<SType>, Box<SType>),
    Recursive(Seq<char>, Box<SType>),
    HigherKinded(Seq<char>, Seq<STypeParam>),
}

pub open spec fn tview(t: Type) -> SType
    decreases t,
{
    match t {
        Type::Any => SType::Any,
        Type::Never => SType::Never,
        Type::NoneType => SType::NoneType,
        Type::Bool => SType::Bool,
        Type::Int => SType::Int,
        Type::Float => SType::Float,
        Type::Str => SType::Str,
        Type::Bytes => SType::Bytes,
        Type::List(b) => SType::List(Box::new(tview(*b))),
        Type::Tuple(v) => SType::Tuple(tviews(v@)),
        Type::Dict(k, v) => SType::Dict(Box::new(tview(*k)), Box::new(tview(*v))),
        Type::SetOf(b) => SType::SetOf(Box::new(tview(*b))),
        Type::Function(ps, r) => SType::Function(tviews(ps@), Box::new(tview(*r))),
        Type::Union(v) => SType::Union(tviews(v@)),
        Type::Intersection(v) => SType::Intersection(tviews(v@)),
        Type::Generic(n, v) => SType::Generic(n@, tviews(v@)),
        Type::Class(n) => SType::Class(n@),
        Type::Var(id) => SType::Var(id),
        Type::Effect(b, e) => SType::Effect(Box::new(tview(*b)), e@),
        Type::Refinement(b, p) => SType::Refinement(Box::new(tview(*b)), p@),
        Type::Dependent(b, c) => SType::Dependent(Box::new(tview(*b)), c@),
        Type::Nominal(n, b) => SType::Nominal(n@, Box::new(tview(*b))),
        Type::Conditional { condition, then_type, else_type } => SType::Conditional(
            Box::new(cview(*condition)),
            Box::new(tview(*then_type)),
            Box::new(tview(*else_type)),
        ),
        Type::Recursive(n, b) => SType::Recursive(n@, Box::new(tview(*b))),
        Type::HigherKinded(n, ps) => SType::HigherKinded(n@, tparams_view(ps@)),
    }
}

pub open spec fn tviews(s: Seq<Type>) -> Seq<SType>
    decreases s,
{
    Seq::new(
        s.len(),
        |i: int|
            if 0 <= i < s.len() {
                tview(s[i])
            } else {
                SType::Any
            },
    )
}

pub open spec fn cview(c: TypeCondition) -> SCond
    decreases c,
{
    match c {
        TypeCondition::Extends(a, b) => SCond::Extends(tview(a), tview(b)),
        TypeCondition::Equal(a, b) => SCond::Equal(tview(a), tview(b)),
        TypeCondition::HasProperty(a, p) => SCond::HasProperty(tview(a), p@),
        TypeCondition::Custom(s) => SCond::Custom(s@),
    }
}

impl View for Type {
    type V = SType;

    open spec fn view(&self) -> SType {
        tview(*self)
    }
}

impl View for TypeCondition {
    type V = SCond;

    open spec fn view(&self) -> SCond {
        cview(*self)
    }
}

/// The views of a list of types, element by element.
pub proof fn lemma_tviews_index(s: Seq<Type>, i: int)
    requires
        0 <= i < s.len(),
    ensures
        tviews(s).len() == s.len(),
        #[trigger] tviews(s)[i] == s[i]@,
{
}

/// Size of a type model: the number of type nodes it holds.
pub open spec fn size(t: SType) -> nat
    decreases t,
{
    match t {
        SType::List(b) => 1 + size(*b),
        SType::SetOf(b) => 1 + size(*b),
        SType::Dict(k, v) => 1 + size(*k) + size(*v),
        SType::Tuple(s) => 1 + sizes(s),
        SType::Union(s) => 1 + sizes(s),
        SType::Intersection(s) => 1 + sizes(s),
        SType::Generic(_, s) => 1 + sizes(s),
        SType::Function(s, r) => 1 + sizes(s) + size(*r),
        SType::Effect(b, _) => 1 + size(*b),
        SType::Refinement(b, _) => 1 + size(*b),
        SType::Dependent(b, _) => 1 + size(*b),
        SType::Nominal(_, b) => 1 + size(*b),
        SType::Recursive(_, b) => 1 + size(*b),
        SType::Conditional(_, a, b) => 1 + size(*a) + size(*b),
        _ => 1,
    }
}

pub open spec fn sizes(s: Seq<SType>) -> nat
    decreases s,
{
    if s.len() == 0 {
        0
    } else {
        size(s[0]) + sizes(s.subrange(1, s.len() as int))
    }
}

/// Every type model has size at least one.
pub proof fn lemma_size_positive(t: SType)
    ensures
        size(t) >= 1,
{
}

pub proof fn lemma_size_elem(s: Seq<SType>, i: int)
    requires
        0 <= i < s.len(),
    ensures
        size(s[i]) <= sizes(s),
    decreases s.len(),
{
    if i > 0 {
        lemma_size_elem(s.subrange(1, s.len() as int), i - 1);
    }
}

/// Every element of a list held by a type is smaller than the type.
pub open spec fn children_smaller(t: SType) -> bool {
    match t {
        SType::Tuple(ts) => forall|i: int| 0 <= i < ts.len() ==> size(#[trigger] ts[i]) < size(t),
        SType::Union(ts) => forall|i: int| 0 <= i < ts.len() ==> size(#[trigger] ts[i]) < size(t),
        SType::Intersection(ts) => forall|i: int|
            0 <= i < ts.len() ==> size(#[trigger] ts[i]) < size(t),
        SType::Generic(_, ts) => forall|i: int| 0 <= i < ts.len() ==> size(#[trigger] ts[i]) < size(t),
        SType::Function(ts, _) => forall|i: int|
            0 <= i < ts.len() ==> size(#[trigger] ts[i]) < size(t),
        _ => true,
    }
}

pub proof fn lemma_children_smaller(t: SType)
    ensures
        children_smaller(t),
{
    match t {
        SType::Tuple(ts) => {
            assert forall|i: int| 0 <= i < ts.len() implies size(#[trigger] ts[i]) < size(t) by {
                lemma_size_elem(ts, i);
            }
        },
        SType::Union(ts) => {
            assert forall|i: int| 0 <= i < ts.len() implies size(#[trigger] ts[i]) < size(t) by {
                lemma_size_elem(ts, i);
            }
        },
        SType::Intersection(ts) => {
            assert forall|i: int| 0 <= i < ts.len() implies size(#[trigger] ts[i]) < size(t) by {
                lemma_size_elem(ts, i);
            }
        },
        SType::Generic(_, ts) => {
            assert forall|i: int| 0 <= i < ts.len() implies size(#[trigger] ts[i]) < size(t) by {
                lemma_size_elem(ts, i);
            }
        },
        SType::Function(ts, _) => {
            assert forall|i: int| 0 <= i < ts.len() implies size(#[trigger] ts[i]) < size(t) by {
                lemma_size_elem(ts, i);
            }
        },
        _ => {},
    }
}

} // verus!
