//! Type constraints and their solver; generic type parameters and definitions.
use vstd::prelude::*;
use std::collections::HashMap;
use crate::types::{Type, SType, tviews, lemma_tviews_index, size, sizes, lemma_size_positive,
    lemma_children_smaller};
use crate::equality::lemma_view_tag;
use crate::subtype::{subtype, union_of, intersection_of};
use crate::display::type_str;
use crate::errors::{TypeError, STypeError, SErrorKind, SourceLocation, ErrorKind, errors_view,
    mismatch_suggestions};
use crate::variance::Variance;
use crate::context::{TypeContext, SContext, has_attr, attr_class, class_attr_names};
use crate::errors::{strings_view, similar_names, did_you_mean_all, did_you_mean_list, close_names, unmeasurable};
use crate::checker::lists_names;

verus! {

/// A method of a protocol: its name and its type.
pub type Method = (String, Type);

/// The model of a method list.
pub open spec fn methods_view(v: Seq<Method>) -> Seq<(Seq<char>, SType)> {
    v.map_values(|m: Method| (m.0@, m.1@))
}

/// Whether a method list has a method of the given name.
pub open spec fn has_name(ms: Seq<(Seq<char>, SType)>, n: Seq<char>) -> bool {
    exists|i: int| 0 <= i < ms.len() && (#[trigger] ms[i]).0 == n
}

/// The methods of `b` whose names do not occur in `a`, in order.
pub open spec fn new_methods(a: Seq<(Seq<char>, SType)>, b: Seq<(Seq<char>, SType)>) -> Seq<
    (Seq<char>, SType),
>
    decreases b.len(),
{
    if b.len() == 0 {
        Seq::empty()
    } else if has_name(a, b.last().0) {
        new_methods(a, b.drop_last())
    } else {
        new_methods(a, b.drop_last()).push(b.last())
    }
}

/// The composition of two protocols: the methods of the first, then those of the second
/// that the first does not name.
pub open spec fn compose_methods(a: Seq<(Seq<char>, SType)>, b: Seq<(Seq<char>, SType)>) -> Seq<
    (Seq<char>, SType),
> {
    a + new_methods(a, b)
}

proof fn lemma_new_methods_names(a: Seq<(Seq<char>, SType)>, b: Seq<(Seq<char>, SType)>, n: Seq<char>)
    ensures
        has_name(new_methods(a, b), n) <==> (has_name(b, n) && !has_name(a, n)),
    decreases b.len(),
{
    if b.len() > 0 {
        let p = b.drop_last();
        lemma_new_methods_names(a, p, n);
        let rest = new_methods(a, p);
        if has_name(b, n) {
            let i = choose|i: int| 0 <= i < b.len() && (#[trigger] b[i]).0 == n;
            if i < b.len() - 1 {
                assert(p[i].0 == n);
            }
        }
        if has_name(p, n) {
            let i = choose|i: int| 0 <= i < p.len() && (#[trigger] p[i]).0 == n;
            assert(b[i].0 == n);
        }
        if !has_name(a, b.last().0) {
            let r = rest.push(b.last());
            assert(r[rest.len() as int] == b.last());
            if has_name(r, n) {
                let i = choose|i: int| 0 <= i < r.len() && (#[trigger] r[i]).0 == n;
                if i < rest.len() {
                    assert(rest[i].0 == n);
                }
            }
            if has_name(rest, n) {
                let i = choose|i: int| 0 <= i < rest.len() && (#[trigger] rest[i]).0 == n;
                assert(r[i].0 == n);
            }
        }
    }
}

/// A composed protocol names exactly the methods that one of its parts names.
pub proof fn lemma_compose_names(a: Seq<(Seq<char>, SType)>, b: Seq<(Seq<char>, SType)>, n: Seq<char>)
    ensures
        has_name(compose_methods(a, b), n) <==> (has_name(a, n) || has_name(b, n)),
{
    lemma_new_methods_names(a, b, n);
    let nm = new_methods(a, b);
    let c = a + nm;
    if has_name(c, n) {
        let i = choose|i: int| 0 <= i < c.len() && (#[trigger] c[i]).0 == n;
        if i >= a.len() {
            assert(nm[i - a.len()].0 == n);
        }
    }
    if has_name(a, n) {
        let i = choose|i: int| 0 <= i < a.len() && (#[trigger] a[i]).0 == n;
        assert(c[i].0 == n);
    }
    if has_name(nm, n) {
        let i = choose|i: int| 0 <= i < nm.len() && (#[trigger] nm[i]).0 == n;
        assert(c[a.len() + i].0 == n);
    }
}

/// Copies a method list.
pub fn clone_methods(v: &[Method]) -> (r: Vec<Method>)
    ensures
        methods_view(r@) == methods_view(v@),
{
    let mut r: Vec<Method> = Vec::new();
    let mut i: usize = 0;
    while i < v.len()
        invariant
            0 <= i <= v.len(),
            methods_view(r@) == methods_view(v@.take(i as int)),
        decreases v.len() - i,
    {
        let ghost before = r@;
        r.push((v[i].0.clone(), v[i].1.clone()));
        assert(methods_view(r@) =~= methods_view(before).push((v@[i as int].0@, v@[i as int].1@)));
        assert(v@.take(i + 1) =~= v@.take(i as int).push(v@[i as int]));
        assert(methods_view(v@.take(i + 1)) =~= methods_view(v@.take(i as int)).push(
            (v@[i as int].0@, v@[i as int].1@),
        ));
        i += 1;
    }
    assert(v@.take(v.len() as int) =~= v@);
    r
}

/// A constraint on types.
#[derive(Debug)]
pub enum Constraint {
    /// T must be a subtype of U.
    Subtype(Type, Type),
    /// T must equal U.
    Equal(Type, Type),
    /// T must have an attribute with the given name and type.
    HasAttribute(Type, String, Type),
    /// T must be callable with the given signature.
    Callable(Type, Vec<Type>, Type),
    /// T must offer the given methods.
    Protocol(Type, Vec<Method>),
    /// T must be below an upper bound.
    Bounded(Type, Type),
    /// T must be numeric.
    Numeric(Type),
    /// T must be comparable.
    Comparable(Type),
    /// T must be hashable.
    Hashable(Type),
}

/// Model of a [`Constraint`].
pub enum SConstraint {
    Subtype(SType, SType),
    Equal(SType, SType),
    HasAttribute(SType, Seq<char>, SType),
    Callable(SType, Seq<SType>, SType),
    Protocol(SType, Seq<(Seq<char>, SType)>),
    Bounded(SType, SType),
    Numeric(SType),
    Comparable(SType),
    Hashable(SType),
}

impl View for Constraint {
    type V = SConstraint;

    open spec fn view(&self) -> SConstraint {
        match self {
            Constraint::Subtype(a, b) => SConstraint::Subtype(a@, b@),
            Constraint::Equal(a, b) => SConstraint::Equal(a@, b@),
            Constraint::HasAttribute(t, n, a) => SConstraint::HasAttribute(t@, n@, a@),
            Constraint::Callable(t, ps, r) => SConstraint::Callable(t@, tviews(ps@), r@),
            Constraint::Protocol(t, ms) => SConstraint::Protocol(t@, methods_view(ms@)),
            Constraint::Bounded(v, b) => SConstraint::Bounded(v@, b@),
            Constraint::Numeric(t) => SConstraint::Numeric(t@),
            Constraint::Comparable(t) => SConstraint::Comparable(t@),
            Constraint::Hashable(t) => SConstraint::Hashable(t@),
        }
    }
}

impl Clone for Constraint {
    fn clone(&self) -> (r: Self)
        ensures
            r@ == self@,
    {
        match self {
            Constraint::Subtype(a, b) => Constraint::Subtype(a.clone(), b.clone()),
            Constraint::Equal(a, b) => Constraint::Equal(a.clone(), b.clone()),
            Constraint::HasAttribute(t, n, a) => Constraint::HasAttribute(
                t.clone(),
                n.clone(),
                a.clone(),
            ),
            Constraint::Callable(t, ps, r) => Constraint::Callable(
                t.clone(),
                crate::clone::clone_types(ps),
                r.clone(),
            ),
            Constraint::Protocol(t, ms) => Constraint::Protocol(t.clone(), clone_methods(ms)),
            Constraint::Bounded(v, b) => Constraint::Bounded(v.clone(), b.clone()),
            Constraint::Numeric(t) => Constraint::Numeric(t.clone()),
            Constraint::Comparable(t) => Constraint::Comparable(t.clone()),
            Constraint::Hashable(t) => Constraint::Hashable(t.clone()),
        }
    }
}

pub open spec fn constraints_view(v: Seq<Constraint>) -> Seq<SConstraint> {
    v.map_values(|c: Constraint| c@)
}

/// What solving one constraint gives: it holds, it must wait for more information, it
/// is violated, or the type lacks the attribute asked for (`NoAttr` holds the type, the
/// attribute and the names of the attributes the type offers).
pub enum Outcome {
    Solved,
    Deferred,
    Failed(STypeError),
    NoAttr(SType, Seq<char>, Set<Seq<char>>),
}

/// An error of the solver as the model records it: known exactly, or a missing
/// attribute whose suggestions depend on the order in which the context lists the
/// attribute names.
pub enum SSolveError {
    Exact(STypeError),
    NoAttr(SType, Seq<char>, Set<Seq<char>>),
}

/// The error for a missing attribute `attr` of `t`, where `t` offers the attribute
/// names `names`: the names in some order, and "did you mean" suggestions for the first
/// three close ones among them, nearest first (none when a name cannot be measured).
pub open spec fn no_attr_ok(e: STypeError, t: SType, attr: Seq<char>, names: Set<Seq<char>>) -> bool {
    &&& e.kind == SErrorKind::InvalidAttribute(type_str(t), attr)
    &&& e.location == origin()
    &&& e.file == Seq::<char>::empty()
    &&& exists|cs: Seq<Seq<char>>|
        #[trigger] lists_names(cs, names) && (e.suggestions == did_you_mean_all(similar_names(attr, cs, 2))
            || (e.suggestions == Seq::<Seq<char>>::empty() && unmeasurable(attr, cs)))
}

/// An error handed out agrees with the model's record of it.
pub open spec fn error_fits(e: STypeError, m: SSolveError) -> bool {
    match m {
        SSolveError::Exact(x) => e == x,
        SSolveError::NoAttr(t, a, names) => no_attr_ok(e, t, a, names),
    }
}

/// Errors handed out agree, one by one, with the model's records.
pub open spec fn errors_fit(es: Seq<STypeError>, ms: Seq<SSolveError>) -> bool {
    es.len() == ms.len() && forall|i: int| 0 <= i < es.len() ==> error_fits(#[trigger] es[i], ms[i])
}

/// The error a record stands for when it is known exactly; for a missing attribute,
/// the error without suggestions.
pub open spec fn exact_of(m: SSolveError) -> STypeError {
    match m {
        SSolveError::Exact(x) => x,
        SSolveError::NoAttr(t, a, _) => STypeError {
            kind: SErrorKind::InvalidAttribute(type_str(t), a),
            location: origin(),
            file: Seq::empty(),
            suggestions: Seq::empty(),
        },
    }
}

pub open spec fn exact_errors(ms: Seq<SSolveError>) -> Seq<STypeError> {
    ms.map_values(|m: SSolveError| exact_of(m))
}

/// Every record is known exactly.
pub open spec fn all_exact(ms: Seq<SSolveError>) -> bool {
    forall|i: int| 0 <= i < ms.len() ==> (#[trigger] ms[i]) is Exact
}

/// A check's result agrees with the model's outcome.
pub open spec fn outcome_fits(r: Result<bool, TypeError>, o: Outcome) -> bool {
    match o {
        Outcome::NoAttr(t, a, names) => r matches Err(e) && no_attr_ok(e@, t, a, names),
        _ => outcome_of(r) == o,
    }
}

/// The names of the attributes a value of type `t` offers.
pub open spec fn attr_names(cls: Map<Seq<char>, crate::context::SClass>, t: SType) -> Set<Seq<char>> {
    if attr_class(t) is Some {
        class_attr_names(cls, attr_class(t)->0, cls.len())
    } else {
        Set::empty()
    }
}

/// Solving "`t` has the attribute `attr` of type `a`": without a context it waits; with
/// one, an attribute whose type is below or above `a` holds, another is a mismatch, and a
/// missing one is an error.
pub open spec fn attribute_outcome(ctx: Option<SContext>, t: SType, attr: Seq<char>, a: SType) -> Outcome {
    match ctx {
        None => Outcome::Deferred,
        Some(c) => match has_attr(c.classes, t, attr, c.classes.len()) {
            Some(actual) => if subtype(actual, a) || subtype(a, actual) {
                Outcome::Solved
            } else {
                Outcome::Failed(expected_error(type_str(a), actual))
            },
            None => Outcome::NoAttr(t, attr, attr_names(c.classes, t)),
        },
    }
}

/// The model of a solver check's result.
pub open spec fn outcome_of(r: Result<bool, TypeError>) -> Outcome {
    match r {
        Ok(true) => Outcome::Solved,
        Ok(false) => Outcome::Deferred,
        Err(e) => Outcome::Failed(e@),
    }
}

/// The location that solver errors carry.
pub open spec fn origin() -> SourceLocation {
    SourceLocation { line: 0, col: 0, end_line: 0, end_col: 0 }
}

/// The error of `TypeError::type_mismatch(expected, found, origin)`.
pub open spec fn mismatch_error(expected: SType, found: SType) -> STypeError {
    STypeError {
        kind: SErrorKind::TypeMismatch(type_str(expected), type_str(found)),
        location: origin(),
        file: Seq::empty(),
        suggestions: mismatch_suggestions(expected, found),
    }
}

/// A mismatch between a described kind of type and a found type, without suggestions.
pub open spec fn expected_error(what: Seq<char>, found: SType) -> STypeError {
    STypeError {
        kind: SErrorKind::TypeMismatch(what, type_str(found)),
        location: origin(),
        file: Seq::empty(),
        suggestions: Seq::empty(),
    }
}

/// A wrong number of arguments.
pub open spec fn arg_count_error(expected: usize, found: usize) -> STypeError {
    STypeError {
        kind: SErrorKind::InvalidArgCount(expected, found),
        location: origin(),
        file: Seq::empty(),
        suggestions: Seq::empty(),
    }
}

/// Solving `sub <: sup`: a variable that is not known to be below `sup` gets `sup` as
/// its bound.
pub open spec fn subtype_step(sub: SType, sup: SType, b: Map<u64, SType>) -> (Outcome, Map<u64, SType>) {
    if subtype(sub, sup) {
        (Outcome::Solved, b)
    } else {
        match sub {
            SType::Var(id) => if b.contains_key(id) && subtype(b[id], sup) {
                (Outcome::Solved, b)
            } else {
                (Outcome::Solved, b.insert(id, sup))
            },
            _ => (Outcome::Failed(mismatch_error(sup, sub)), b),
        }
    }
}

/// Solving `x == y`: a variable on either side is bound to the other side.
pub open spec fn equal_step(x: SType, y: SType, b: Map<u64, SType>) -> (Outcome, Map<u64, SType>) {
    if x == y {
        (Outcome::Solved, b)
    } else {
        match x {
            SType::Var(id) => (Outcome::Solved, b.insert(id, y)),
            _ => match y {
                SType::Var(id) => (Outcome::Solved, b.insert(id, x)),
                _ => (Outcome::Failed(mismatch_error(x, y)), b),
            },
        }
    }
}

/// The first index from `i` on at which an expected parameter is not below the actual one.
pub open spec fn first_param_mismatch(expected: Seq<SType>, actual: Seq<SType>, i: nat) -> Option<
    int,
>
    decreases expected.len() - i,
{
    if i >= expected.len() {
        None
    } else if !subtype(expected[i as int], actual[i as int]) {
        Some(i as int)
    } else {
        first_param_mismatch(expected, actual, i + 1)
    }
}

proof fn lemma_first_param_mismatch(expected: Seq<SType>, actual: Seq<SType>, i: nat)
    requires
        expected.len() == actual.len(),
    ensures
        first_param_mismatch(expected, actual, i) is None <==> forall|j: int|
            i <= j < expected.len() ==> subtype(#[trigger] expected[j], actual[j]),
        first_param_mismatch(expected, actual, i) matches Some(k) ==> i <= k < expected.len() && !subtype(
            expected[k],
            actual[k],
        ) && forall|j: int| i <= j < k ==> subtype(#[trigger] expected[j], actual[j]),
    decreases expected.len() - i,
{
    if i < expected.len() {
        lemma_first_param_mismatch(expected, actual, i + 1);
    }
}

/// A function type is callable with arguments exactly when it takes as many parameters,
/// each argument is a subtype of its parameter and the function's result is a subtype of
/// the result wanted; when the arity matches and some argument is not accepted, the
/// failure is a type mismatch for the first such argument and its parameter.
pub proof fn lemma_callable(fps: Seq<SType>, fr: SType, params: Seq<SType>, ret: SType)
    ensures
        callable_outcome(SType::Function(fps, Box::new(fr)), params, ret) is Solved <==> fps.len() == params.len()
            && (forall|i: int| 0 <= i < params.len() ==> subtype(#[trigger] params[i], fps[i])) && subtype(fr, ret),
        forall|k: int|
            #![trigger params[k]]
            fps.len() == params.len() && 0 <= k < params.len() && !subtype(params[k], fps[k]) && (forall|j: int|
                0 <= j < k ==> subtype(#[trigger] params[j], fps[j])) ==> callable_outcome(
                SType::Function(fps, Box::new(fr)),
                params,
                ret,
            ) == Outcome::Failed(mismatch_error(params[k], fps[k])),
{
    if fps.len() == params.len() {
        lemma_first_param_mismatch(params, fps, 0);
        assert forall|k: int|
            #![trigger params[k]]
            0 <= k < params.len() && !subtype(params[k], fps[k]) && (forall|j: int|
                0 <= j < k ==> subtype(#[trigger] params[j], fps[j])) implies callable_outcome(
            SType::Function(fps, Box::new(fr)),
            params,
            ret,
        ) == Outcome::Failed(mismatch_error(params[k], fps[k])) by {
            match first_param_mismatch(params, fps, 0) {
                Some(m) => {
                    if m < k {
                        assert(subtype(params[m], fps[m]));
                    } else if m > k {
                        assert(subtype(params[k], fps[k]));
                    }
                },
                None => {
                    assert(subtype(params[k], fps[k]));
                },
            }
        }
    }
}

/// Solving "`ty` is callable with `params` and returns `ret`".
pub open spec fn callable_outcome(ty: SType, params: Seq<SType>, ret: SType) -> Outcome {
    match ty {
        SType::Function(fps, fr) => if fps.len() != params.len() {
            Outcome::Failed(arg_count_error(params.len() as usize, fps.len() as usize))
        } else {
            match first_param_mismatch(params, fps, 0) {
                Some(i) => Outcome::Failed(mismatch_error(params[i], fps[i])),
                None => if !subtype(*fr, ret) {
                    Outcome::Failed(mismatch_error(ret, *fr))
                } else {
                    Outcome::Solved
                },
            }
        },
        _ => Outcome::Deferred,
    }
}

/// Solving "`v` is below `bound`": a variable gets the bound unless it has one, which
/// must then be comparable with the new one.
pub open spec fn bounded_step(v: SType, bound: SType, b: Map<u64, SType>) -> (Outcome, Map<u64, SType>) {
    match v {
        SType::Var(id) => if b.contains_key(id) {
            if !subtype(b[id], bound) && !subtype(bound, b[id]) {
                (Outcome::Failed(mismatch_error(b[id], bound)), b)
            } else {
                (Outcome::Solved, b)
            }
        } else {
            (Outcome::Solved, b.insert(id, bound))
        },
        _ => subtype_step(v, bound, b),
    }
}

/// Solving "`t` is numeric": `int` and `float` are, a variable waits, a union is numeric
/// unless one of its members is not.
pub open spec fn numeric_outcome(t: SType) -> Outcome
    decreases size(t), 1nat,
{
    match t {
        SType::Int => Outcome::Solved,
        SType::Float => Outcome::Solved,
        SType::Var(_) => Outcome::Deferred,
        SType::Union(ts) => numeric_all(ts),
        _ => Outcome::Failed(expected_error("numeric type"@, t)),
    }
}

/// The first failure among the members of a union, or success.
pub open spec fn numeric_all(ts: Seq<SType>) -> Outcome
    decreases sizes(ts) + 1, 0nat,
{
    if ts.len() == 0 {
        Outcome::Solved
    } else {
        proof {
            lemma_size_positive(ts[0]);
        }
        match numeric_outcome(ts[0]) {
            Outcome::Failed(e) => Outcome::Failed(e),
            _ => numeric_all(ts.subrange(1, ts.len() as int)),
        }
    }
}

/// Solving "`t` is comparable": the primitive ordered types are, anything else waits.
pub open spec fn comparable_outcome(t: SType) -> Outcome {
    match t {
        SType::Int => Outcome::Solved,
        SType::Float => Outcome::Solved,
        SType::Str => Outcome::Solved,
        SType::Bool => Outcome::Solved,
        _ => Outcome::Deferred,
    }
}

/// Solving "`t` is hashable": immutable primitives are, a tuple is unless a member is
/// not, mutable containers are not, anything else waits.
pub open spec fn hashable_outcome(t: SType) -> Outcome
    decreases size(t), 1nat,
{
    match t {
        SType::Int => Outcome::Solved,
        SType::Float => Outcome::Solved,
        SType::Str => Outcome::Solved,
        SType::Bool => Outcome::Solved,
        SType::Bytes => Outcome::Solved,
        SType::NoneType => Outcome::Solved,
        SType::Tuple(ts) => hashable_all(ts),
        SType::List(_) => Outcome::Failed(expected_error("hashable type"@, t)),
        SType::Dict(_, _) => Outcome::Failed(expected_error("hashable type"@, t)),
        SType::SetOf(_) => Outcome::Failed(expected_error("hashable type"@, t)),
        _ => Outcome::Deferred,
    }
}

/// The first failure among the members of a tuple, or success.
pub open spec fn hashable_all(ts: Seq<SType>) -> Outcome
    decreases sizes(ts) + 1, 0nat,
{
    if ts.len() == 0 {
        Outcome::Solved
    } else {
        proof {
            lemma_size_positive(ts[0]);
        }
        match hashable_outcome(ts[0]) {
            Outcome::Failed(e) => Outcome::Failed(e),
            _ => hashable_all(ts.subrange(1, ts.len() as int)),
        }
    }
}

/// Solving one constraint against the current bounds, in the given context.
pub open spec fn step(c: SConstraint, b: Map<u64, SType>, ctx: Option<SContext>) -> (Outcome, Map<u64, SType>) {
    match c {
        SConstraint::Subtype(x, y) => subtype_step(x, y, b),
        SConstraint::Equal(x, y) => equal_step(x, y, b),
        SConstraint::HasAttribute(t, n, a) => (attribute_outcome(ctx, t, n, a), b),
        SConstraint::Callable(t, ps, r) => (callable_outcome(t, ps, r), b),
        SConstraint::Protocol(_, _) => (Outcome::Deferred, b),
        SConstraint::Bounded(v, bd) => bounded_step(v, bd, b),
        SConstraint::Numeric(t) => (numeric_outcome(t), b),
        SConstraint::Comparable(t) => (comparable_outcome(t), b),
        SConstraint::Hashable(t) => (hashable_outcome(t), b),
    }
}

/// The state of a solver: the constraints still pending, the bounds of type variables,
/// the errors found.
#[verifier::ext_equal]
pub struct SolverState {
    pub pending: Seq<SConstraint>,
    pub bounds: Map<u64, SType>,
    pub errors: Seq<SSolveError>,
}

/// One pass over `cs`, in order, from `st`: solved constraints are dropped, deferred ones
/// are kept pending, violated ones give an error. Also says whether one was solved.
pub open spec fn pass(cs: Seq<SConstraint>, st: SolverState, ctx: Option<SContext>) -> (SolverState, bool)
    decreases cs.len(),
{
    if cs.len() == 0 {
        (st, false)
    } else {
        let (s, changed) = pass(cs.drop_last(), st, ctx);
        let (o, b) = step(cs.last(), s.bounds, ctx);
        match o {
            Outcome::Solved => (SolverState { pending: s.pending, bounds: b, errors: s.errors }, true),
            Outcome::Deferred => (
                SolverState { pending: s.pending.push(cs.last()), bounds: b, errors: s.errors },
                changed,
            ),
            Outcome::Failed(e) => (
                SolverState { pending: s.pending, bounds: b, errors: s.errors.push(SSolveError::Exact(e)) },
                changed,
            ),
            Outcome::NoAttr(t, a, names) => (
                SolverState { pending: s.pending, bounds: b, errors: s.errors.push(SSolveError::NoAttr(t, a, names)) },
                changed,
            ),
        }
    }
}

/// The most passes that `solve` makes.
pub const MAX_ITERATIONS: usize = 100;

/// Passes over the pending constraints while the last pass solved one, at most
/// `MAX_ITERATIONS` in all.
pub open spec fn run(st: SolverState, changed: bool, iterations: nat, ctx: Option<SContext>) -> SolverState
    decreases MAX_ITERATIONS - iterations,
{
    if changed && iterations < MAX_ITERATIONS {
        let (s, ch) = pass(st.pending, SolverState { pending: Seq::empty(), ..st }, ctx);
        run(s, ch, iterations + 1, ctx)
    } else {
        st
    }
}

/// Whether a method list names the given method.
fn names_method(ms: &[Method], name: &String) -> (r: bool)
    ensures
        r == has_name(methods_view(ms@), name@),
{
    let ghost mv = methods_view(ms@);
    let mut i: usize = 0;
    while i < ms.len()
        invariant
            0 <= i <= ms.len(),
            mv == methods_view(ms@),
            mv.len() == ms.len(),
            forall|j: int| 0 <= j < i ==> (#[trigger] mv[j]).0 != name@,
        decreases ms.len() - i,
    {
        if ms[i].0 == *name {
            assert(mv[i as int].0 == name@);
            return true;
        }
        i += 1;
    }
    false
}

/// The error that a check returns for a mismatch.
fn mismatch(expected: &Type, found: &Type) -> (r: TypeError)
    ensures
        r@ == mismatch_error(expected@, found@),
{
    TypeError::type_mismatch(expected.clone(), found.clone(), SourceLocation::new(0, 0, 0, 0))
}

/// The error that a check returns when a type is not of the described kind.
fn not_of_kind(what: &str, found: &Type) -> (r: TypeError)
    ensures
        r@ == expected_error(what@, found@),
{
    let e = TypeError::new(
        ErrorKind::TypeMismatch { expected: String::from_str(what), found: found.to_string() },
        SourceLocation::new(0, 0, 0, 0),
    );
    assert(crate::errors::strings_view(e.suggestions@) =~= Seq::<Seq<char>>::empty());
    e
}

/// Solves constraints over types, recording bounds of type variables; with a context,
/// attribute constraints are checked against the classes it knows.
pub struct ConstraintSolver {
    constraints: Vec<Constraint>,
    bounds: HashMap<u64, Type>,
    errors: Vec<TypeError>,
    ctx: Option<TypeContext>,
    records: Ghost<Seq<SSolveError>>,
}

impl ConstraintSolver {
    /// The bounds of the type variables, by variable.
    pub closed spec fn bounds_view(&self) -> Map<u64, SType> {
        self.bounds@.map_values(|t: Type| t@)
    }

    /// The model of the solver.
    pub closed spec fn state(&self) -> SolverState {
        SolverState {
            pending: constraints_view(self.constraints@),
            bounds: self.bounds_view(),
            errors: self.records@,
        }
    }

    /// The context the solver checks attributes against, if any.
    pub closed spec fn context(&self) -> Option<SContext> {
        match self.ctx {
            Some(c) => Some(c@),
            None => None,
        }
    }

    /// The errors held agree with the model's records; without a context every record
    /// is known exactly.
    pub closed spec fn wf(&self) -> bool {
        &&& errors_fit(errors_view(self.errors@), self.records@)
        &&& (self.ctx is None ==> all_exact(self.records@))
    }

    /// A solver with no constraints, no bounds, no errors and no context.
    pub fn new() -> (r: Self)
        ensures
            r.wf(),
            r.context() is None,
            r.state() == (SolverState {
                pending: Seq::empty(),
                bounds: Map::empty(),
                errors: Seq::empty(),
            }),
    {
        let r = ConstraintSolver {
            constraints: Vec::new(),
            bounds: HashMap::new(),
            errors: Vec::new(),
            ctx: None,
            records: Ghost(Seq::empty()),
        };
        assert(r.state().pending =~= Seq::<SConstraint>::empty());
        assert(r.state().bounds =~= Map::<u64, SType>::empty());
        assert(errors_view(r.errors@) =~= Seq::<STypeError>::empty());
        r
    }

    /// A solver with no constraints, no bounds and no errors, that checks attributes
    /// against `ctx`.
    pub fn with_context(ctx: TypeContext) -> (r: Self)
        ensures
            r.wf(),
            r.context() == Some(ctx@),
            r.state() == (SolverState {
                pending: Seq::empty(),
                bounds: Map::empty(),
                errors: Seq::empty(),
            }),
    {
        let mut r = ConstraintSolver::new();
        r.ctx = Some(ctx);
        r
    }

    /// Adds a constraint to be solved.
    pub fn add_constraint(&mut self, constraint: Constraint)
        ensures
            final(self).state() == (SolverState {
                pending: old(self).state().pending.push(constraint@),
                ..old(self).state()
            }),
            final(self).context() == old(self).context(),
            final(self).wf() == old(self).wf(),
    {
        let ghost c = constraint@;
        self.constraints.push(constraint);
        assert(constraints_view(self.constraints@) =~= constraints_view(old(self).constraints@).push(c));
    }

    /// Gives a type variable an upper bound, unless it already has one.
    pub fn add_bound(&mut self, var: u64, bound: Type)
        ensures
            final(self).state() == (SolverState {
                bounds: if old(self).state().bounds.contains_key(var) {
                    old(self).state().bounds
                } else {
                    old(self).state().bounds.insert(var, bound@)
                },
                ..old(self).state()
            }),
            final(self).context() == old(self).context(),
            final(self).wf() == old(self).wf(),
    {
        broadcast use vstd::std_specs::hash::group_hash_axioms;
        if !self.bounds.contains_key(&var) {
            let ghost bv = bound@;
            self.bounds.insert(var, bound);
            assert(self.bounds_view() =~= old(self).bounds_view().insert(var, bv));
        }
    }

    /// The bound of a type variable, if it has one.
    pub fn get_bound(&self, var: u64) -> (r: Option<&Type>)
        ensures
            r matches Some(t) ==> self.state().bounds.contains_key(var) && t@
                == self.state().bounds[var],
            r is None ==> !self.state().bounds.contains_key(var),
    {
        broadcast use vstd::std_specs::hash::group_hash_axioms;
        self.bounds.get(&var)
    }

    /// The errors found by a solve that has not handed them out yet.
    pub fn errors(&self) -> (r: &[TypeError])
        requires
            self.wf(),
        ensures
            errors_fit(errors_view(r@), self.state().errors),
    {
        self.errors.as_slice()
    }

    /// The composition of two protocols: the methods of `a`, then those of `b` that `a`
    /// does not name.
    pub fn compose_protocols(a: &[Method], b: &[Method]) -> (r: Vec<Method>)
        ensures
            methods_view(r@) == compose_methods(methods_view(a@), methods_view(b@)),
    {
        let ghost av = methods_view(a@);
        let ghost bv = methods_view(b@);
        let mut r = clone_methods(a);
        let mut i: usize = 0;
        while i < b.len()
            invariant
                0 <= i <= b.len(),
                av == methods_view(a@),
                bv == methods_view(b@),
                bv.len() == b.len(),
                methods_view(r@) == av + new_methods(av, bv.take(i as int)),
            decreases b.len() - i,
        {
            assert(bv.take(i + 1).drop_last() =~= bv.take(i as int));
            assert(bv.take(i + 1).last() == bv[i as int]);
            if !names_method(a, &b[i].0) {
                let ghost before = r@;
                r.push((b[i].0.clone(), b[i].1.clone()));
                assert(methods_view(r@) =~= methods_view(before).push(bv[i as int]));
            }
            i += 1;
        }
        assert(bv.take(b.len() as int) =~= bv);
        r
    }

    /// Protocol checking: a protocol constraint is always deferred.
    pub fn check_protocol(&self, ty: &Type, methods: &[Method]) -> (r: Result<bool, TypeError>)
        ensures
            r matches Ok(false),
    {
        Ok(false)
    }

    fn check_subtype(&mut self, sub: &Type, sup: &Type) -> (r: Result<bool, TypeError>)
        ensures
            (outcome_of(r), final(self).state().bounds) == subtype_step(
                sub@,
                sup@,
                old(self).state().bounds,
            ),
            final(self).state().pending == old(self).state().pending,
            final(self).state().errors == old(self).state().errors,
            final(self).ctx == old(self).ctx,
            final(self).errors == old(self).errors,
            final(self).records == old(self).records,
    {
        broadcast use vstd::std_specs::hash::group_hash_axioms;
        proof {
            lemma_view_tag(*sub);
        }
        if sub.is_subtype(sup) {
            Ok(true)
        } else {
            if let Type::Var(id) = sub {
                if let Some(bound) = self.bounds.get(id) {
                    if bound.is_subtype(sup) {
                        return Ok(true);
                    }
                }
                let ghost sv = sup@;
                self.bounds.insert(*id, sup.clone());
                assert(self.bounds_view() =~= old(self).bounds_view().insert(*id, sv));
                Ok(true)
            } else {
                Err(mismatch(sup, sub))
            }
        }
    }

    fn check_equal(&mut self, a: &Type, b: &Type) -> (r: Result<bool, TypeError>)
        ensures
            (outcome_of(r), final(self).state().bounds) == equal_step(
                a@,
                b@,
                old(self).state().bounds,
            ),
            final(self).state().pending == old(self).state().pending,
            final(self).state().errors == old(self).state().errors,
            final(self).ctx == old(self).ctx,
            final(self).errors == old(self).errors,
            final(self).records == old(self).records,
    {
        broadcast use vstd::std_specs::hash::group_hash_axioms;
        proof {
            lemma_view_tag(*a);
            lemma_view_tag(*b);
        }
        if crate::equality::type_eq(a, b) {
            Ok(true)
        } else if let Type::Var(id) = a {
            let ghost bv = b@;
            self.bounds.insert(*id, b.clone());
            assert(self.bounds_view() =~= old(self).bounds_view().insert(*id, bv));
            Ok(true)
        } else if let Type::Var(id) = b {
            let ghost av = a@;
            self.bounds.insert(*id, a.clone());
            assert(self.bounds_view() =~= old(self).bounds_view().insert(*id, av));
            Ok(true)
        } else {
            Err(mismatch(a, b))
        }
    }

    fn check_callable(&self, ty: &Type, params: &Vec<Type>, ret: &Type) -> (r: Result<bool, TypeError>)
        ensures
            outcome_of(r) == callable_outcome(ty@, tviews(params@), ret@),
    {
        proof {
            lemma_view_tag(*ty);
        }
        if let Type::Function(fn_params, fn_ret) = ty {
            assert(tviews(params@).len() == params.len());
            assert(tviews(fn_params@).len() == fn_params.len());
            if fn_params.len() != params.len() {
                let e = TypeError::invalid_arg_count(
                    params.len(),
                    fn_params.len(),
                    SourceLocation::new(0, 0, 0, 0),
                );
                assert(e@.suggestions =~= Seq::<Seq<char>>::empty());
                return Err(e);
            }
            let ghost pv = tviews(params@);
            let ghost fv = tviews(fn_params@);
            let mut i: usize = 0;
            while i < params.len()
                invariant
                    0 <= i <= params.len(),
                    params.len() == fn_params.len(),
                    pv == tviews(params@),
                    fv == tviews(fn_params@),
                    ty@ == SType::Function(fv, Box::new(fn_ret@)),
                    first_param_mismatch(pv, fv, 0) == first_param_mismatch(pv, fv, i as nat),
                decreases params.len() - i,
            {
                proof {
                    lemma_tviews_index(params@, i as int);
                    lemma_tviews_index(fn_params@, i as int);
                }
                if !params[i].is_subtype(&fn_params[i]) {
                    assert(first_param_mismatch(pv, fv, i as nat) == Some(i as int));
                    return Err(mismatch(&params[i], &fn_params[i]));
                }
                assert(first_param_mismatch(pv, fv, i as nat) == first_param_mismatch(pv, fv, (i + 1) as nat));
                i += 1;
            }
            if !fn_ret.is_subtype(ret) {
                return Err(mismatch(ret, fn_ret));
            }
            Ok(true)
        } else {
            Ok(false)
        }
    }

    fn check_bounded(&mut self, var: &Type, bound: &Type) -> (r: Result<bool, TypeError>)
        ensures
            (outcome_of(r), final(self).state().bounds) == bounded_step(
                var@,
                bound@,
                old(self).state().bounds,
            ),
            final(self).state().pending == old(self).state().pending,
            final(self).state().errors == old(self).state().errors,
            final(self).ctx == old(self).ctx,
            final(self).errors == old(self).errors,
            final(self).records == old(self).records,
    {
        broadcast use vstd::std_specs::hash::group_hash_axioms;
        proof {
            lemma_view_tag(*var);
        }
        if let Type::Var(id) = var {
            if let Some(existing_bound) = self.bounds.get(id) {
                if !existing_bound.is_subtype(bound) && !bound.is_subtype(existing_bound) {
                    return Err(mismatch(existing_bound, bound));
                }
            } else {
                let ghost bv = bound@;
                self.bounds.insert(*id, bound.clone());
                assert(self.bounds_view() =~= old(self).bounds_view().insert(*id, bv));
            }
            Ok(true)
        } else {
            self.check_subtype(var, bound)
        }
    }

    fn check_numeric(&self, ty: &Type) -> (r: Result<bool, TypeError>)
        ensures
            outcome_of(r) == numeric_outcome(ty@),
        decreases ty,
    {
        proof {
            lemma_view_tag(*ty);
        }
        match ty {
            Type::Int => Ok(true),
            Type::Float => Ok(true),
            Type::Var(_) => Ok(false),
            Type::Union(types) => self.check_numeric_all(types),
            _ => Err(not_of_kind("numeric type", ty)),
        }
    }

    fn check_comparable(&self, ty: &Type) -> (r: Result<bool, TypeError>)
        ensures
            outcome_of(r) == comparable_outcome(ty@),
    {
        proof {
            lemma_view_tag(*ty);
        }
        match ty {
            Type::Int | Type::Float | Type::Str | Type::Bool => Ok(true),
            _ => Ok(false),
        }
    }

    fn check_hashable(&self, ty: &Type) -> (r: Result<bool, TypeError>)
        ensures
            outcome_of(r) == hashable_outcome(ty@),
        decreases ty,
    {
        proof {
            lemma_view_tag(*ty);
        }
        match ty {
            Type::Int | Type::Float | Type::Str | Type::Bool | Type::Bytes | Type::NoneType => Ok(
                true,
            ),
            Type::Tuple(elems) => self.check_hashable_all(elems),
            Type::List(_) | Type::Dict(_, _) | Type::SetOf(_) => Err(not_of_kind("hashable type", ty)),
            _ => Ok(false),
        }
    }

    fn check_numeric_all(&self, types: &Vec<Type>) -> (r: Result<bool, TypeError>)
        ensures
            outcome_of(r) == numeric_all(tviews(types@)),
        decreases types,
    {
        let ghost tv = tviews(types@);
        assert(tv.subrange(0, tv.len() as int) =~= tv);
        let mut i: usize = 0;
        while i < types.len()
            invariant
                0 <= i <= types.len(),
                tv == tviews(types@),
                tv.len() == types.len(),
                numeric_all(tv) == numeric_all(tv.subrange(i as int, tv.len() as int)),
            decreases types.len() - i,
        {
            proof {
                lemma_tviews_index(types@, i as int);
                lemma_suffix(tv, i as int);
            }
            assert(decreases_to!(types => types@[i as int]));
            let r = self.check_numeric(&types[i]);
            if let Err(e) = r {
                return Err(e);
            }
            i += 1;
        }
        assert(tv.subrange(i as int, tv.len() as int).len() == 0);
        Ok(true)
    }

    fn check_hashable_all(&self, elems: &Vec<Type>) -> (r: Result<bool, TypeError>)
        ensures
            outcome_of(r) == hashable_all(tviews(elems@)),
        decreases elems,
    {
        let ghost tv = tviews(elems@);
        assert(tv.subrange(0, tv.len() as int) =~= tv);
        let mut i: usize = 0;
        while i < elems.len()
            invariant
                0 <= i <= elems.len(),
                tv == tviews(elems@),
                tv.len() == elems.len(),
                hashable_all(tv) == hashable_all(tv.subrange(i as int, tv.len() as int)),
            decreases elems.len() - i,
        {
            proof {
                lemma_tviews_index(elems@, i as int);
                lemma_suffix(tv, i as int);
            }
            assert(decreases_to!(elems => elems@[i as int]));
            let r = self.check_hashable(&elems[i]);
            if let Err(e) = r {
                return Err(e);
            }
            i += 1;
        }
        assert(tv.subrange(i as int, tv.len() as int).len() == 0);
        Ok(true)
    }

    /// Checks "`ty` has the attribute `attr` of type `expected`" against the context.
    fn check_has_attribute(&self, ty: &Type, attr: &String, expected: &Type) -> (r: Result<bool, TypeError>)
        ensures
            outcome_fits(r, attribute_outcome(self.context(), ty@, attr@, expected@)),
    {
        match &self.ctx {
            None => Ok(false),
            Some(ctx) => match ctx.has_attribute(ty, attr.as_str()) {
                Some(actual) => {
                    if actual.is_subtype(expected) || expected.is_subtype(&actual) {
                        Ok(true)
                    } else {
                        let what = expected.to_string();
                        Err(not_of_kind(what.as_str(), &actual))
                    }
                },
                None => {
                    let available = ctx.get_attributes(ty);
                    let ghost names = attr_names(ctx@.classes, ty@);
                    let similar = close_names(attr.as_str(), &available);
                    let kind = ErrorKind::InvalidAttribute { ty: ty.to_string(), attr: attr.clone() };
                    let e = TypeError::new(kind, SourceLocation::new(0, 0, 0, 0));
                    let e = if similar.len() > 0 {
                        e.with_suggestions(did_you_mean_list(&similar))
                    } else {
                        e
                    };
                    proof {
                        assert(strings_view(similar@).len() == 0 ==> did_you_mean_all(strings_view(similar@))
                            =~= Seq::<Seq<char>>::empty());
                        assert(strings_view(e.suggestions@) == did_you_mean_all(strings_view(similar@)));
                        let cs = strings_view(available@);
                        assert(lists_names(cs, names));
                        if strings_view(similar@) == similar_names(attr@, cs, 2) {
                            assert(e@.suggestions == did_you_mean_all(similar_names(attr@, cs, 2)));
                        } else {
                            assert(e@.suggestions =~= Seq::<Seq<char>>::empty());
                        }
                    }
                    Err(e)
                },
            },
        }
    }

    fn solve_constraint(&mut self, constraint: &Constraint) -> (r: Result<bool, TypeError>)
        ensures
            ({
                let (o, b) = step(constraint@, old(self).state().bounds, old(self).context());
                &&& outcome_fits(r, o)
                &&& final(self).state().bounds == b
                &&& (old(self).context() is None ==> outcome_of(r) == o)
            }),
            final(self).state().pending == old(self).state().pending,
            final(self).state().errors == old(self).state().errors,
            final(self).context() == old(self).context(),
            final(self).wf() == old(self).wf(),
    {
        match constraint {
            Constraint::Subtype(sub, sup) => self.check_subtype(sub, sup),
            Constraint::Equal(a, b) => self.check_equal(a, b),
            Constraint::HasAttribute(ty, attr, expected) => self.check_has_attribute(ty, attr, expected),
            Constraint::Callable(ty, params, ret) => self.check_callable(ty, params, ret),
            Constraint::Protocol(ty, methods) => self.check_protocol(ty, methods.as_slice()),
            Constraint::Bounded(var, bound) => self.check_bounded(var, bound),
            Constraint::Numeric(ty) => self.check_numeric(ty),
            Constraint::Comparable(ty) => self.check_comparable(ty),
            Constraint::Hashable(ty) => self.check_hashable(ty),
        }
    }

    /// Solves the constraints: passes over the pending constraints while a pass solves
    /// one, at most `MAX_ITERATIONS` times; violated constraints are dropped and their
    /// errors handed out.
    pub fn solve(&mut self) -> (r: Result<(), Vec<TypeError>>)
        requires
            old(self).wf(),
        ensures
            final(self).wf(),
            final(self).context() == old(self).context(),
            ({
                let fin = run(old(self).state(), true, 0, old(self).context());
                &&& final(self).state().pending == fin.pending
                &&& final(self).state().bounds == fin.bounds
                &&& final(self).state().errors.len() == 0
                &&& (r is Ok <==> fin.errors.len() == 0)
                &&& (r matches Err(es) ==> errors_fit(errors_view(es@), fin.errors))
                &&& (old(self).context() is None ==> (r matches Err(es) ==> errors_view(es@)
                    == exact_errors(fin.errors)))
            }),
    {
        let ghost start = self.state();
        let ghost ctxm = self.context();
        let mut changed = true;
        let mut iterations: usize = 0;
        while changed && iterations < MAX_ITERATIONS
            invariant
                iterations <= MAX_ITERATIONS,
                self.wf(),
                self.context() == ctxm,
                run(self.state(), changed, iterations as nat, ctxm) == run(start, true, 0, ctxm),
            decreases MAX_ITERATIONS - iterations,
        {
            let ghost before = self.state();
            changed = false;
            iterations += 1;
            let mut constraints: Vec<Constraint> = Vec::new();
            std::mem::swap(&mut constraints, &mut self.constraints);
            let ghost cs = constraints_view(constraints@);
            let ghost st0 = SolverState { pending: Seq::empty(), ..before };
            assert(cs == before.pending);
            assert(self.state() =~= st0);
            assert(cs.take(0) =~= Seq::<SConstraint>::empty());
            let mut i: usize = 0;
            while i < constraints.len()
                invariant
                    0 <= i <= constraints.len(),
                    cs == constraints_view(constraints@),
                    cs.len() == constraints.len(),
                    self.wf(),
                    self.context() == ctxm,
                    (self.state(), changed) == pass(cs.take(i as int), st0, ctxm),
                decreases constraints.len() - i,
            {
                assert(cs.take(i + 1).drop_last() =~= cs.take(i as int));
                assert(cs.take(i + 1).last() == cs[i as int]);
                let ghost mid = self.state();
                let ghost o = step(cs[i as int], mid.bounds, ctxm).0;
                let outcome = self.solve_constraint(&constraints[i]);
                match outcome {
                    Ok(true) => {
                        changed = true;
                    },
                    Ok(false) => {
                        let c = constraints[i].clone();
                        self.constraints.push(c);
                        assert(constraints_view(self.constraints@) =~= mid.pending.push(cs[i as int]));
                    },
                    Err(e) => {
                        let ghost ev = e@;
                        let ghost rec = match o {
                            Outcome::NoAttr(t, a, names) => SSolveError::NoAttr(t, a, names),
                            _ => SSolveError::Exact(ev),
                        };
                        let ghost before_errs = errors_view(self.errors@);
                        self.errors.push(e);
                        self.records = Ghost(self.records@.push(rec));
                        proof {
                            assert(errors_view(self.errors@) =~= before_errs.push(ev));
                            assert(error_fits(ev, rec));
                            assert forall|j: int| 0 <= j < errors_view(self.errors@).len() implies error_fits(
                                #[trigger] errors_view(self.errors@)[j],
                                self.records@[j],
                            ) by {
                                if j < before_errs.len() {
                                    assert(errors_view(self.errors@)[j] == before_errs[j]);
                                }
                            }
                            if self.ctx is None {
                                assert forall|j: int| 0 <= j < self.records@.len() implies (#[trigger] self.records@[j]) is Exact by {
                                    if j < mid.errors.len() {
                                        assert(self.records@[j] == mid.errors[j]);
                                    }
                                }
                            }
                        }
                    },
                }
                i += 1;
            }
            assert(cs.take(constraints.len() as int) =~= cs);
        }
        if self.errors.len() == 0 {
            assert(self.state().errors.len() == 0);
            Ok(())
        } else {
            let mut errs: Vec<TypeError> = Vec::new();
            std::mem::swap(&mut errs, &mut self.errors);
            let ghost fin_errors = self.records@;
            self.records = Ghost(Seq::empty());
            proof {
                assert(errors_view(self.errors@) =~= Seq::<STypeError>::empty());
                if ctxm is None {
                    assert(errors_view(errs@) =~= exact_errors(fin_errors)) by {
                        assert forall|j: int| 0 <= j < errs@.len() implies errors_view(errs@)[j] == exact_errors(fin_errors)[j] by {
                            assert(error_fits(errors_view(errs@)[j], fin_errors[j]));
                        }
                    }
                }
            }
            Err(errs)
        }
    }
}

/// One step through a suffix of a list.
proof fn lemma_suffix(s: Seq<SType>, i: int)
    requires
        0 <= i < s.len(),
    ensures
        s.subrange(i, s.len() as int).len() > 0,
        s.subrange(i, s.len() as int)[0] == s[i],
        s.subrange(i, s.len() as int).subrange(1, s.len() - i) =~= s.subrange(i + 1, s.len() as int),
{
}

/// A generic type parameter with an upper bound and constraints.
#[derive(Debug)]
pub struct TypeParameter {
    pub name: String,
    pub bound: Option<Type>,
    pub constraints: Vec<Type>,
    pub variance: Variance,
}

/// Model of a [`TypeParameter`].
pub struct STypeParameter {
    pub name: Seq<char>,
    pub bound: Option<SType>,
    pub constraints: Seq<SType>,
    pub variance: Variance,
}

impl View for TypeParameter {
    type V = STypeParameter;

    open spec fn view(&self) -> STypeParameter {
        STypeParameter {
            name: self.name@,
            bound: match self.bound {
                Some(b) => Some(b@),
                None => None,
            },
            constraints: tviews(self.constraints@),
            variance: self.variance,
        }
    }
}

impl Clone for TypeParameter {
    fn clone(&self) -> (r: Self)
        ensures
            r@ == self@,
    {
        TypeParameter {
            name: self.name.clone(),
            bound: match &self.bound {
                Some(b) => Some(b.clone()),
                None => None,
            },
            constraints: crate::clone::clone_types(&self.constraints),
            variance: self.variance,
        }
    }
}

/// The first index from `i` on of a constraint that `t` is not below.
pub open spec fn first_unmet(t: SType, cs: Seq<SType>, i: nat) -> Option<int>
    decreases cs.len() - i,
{
    if i >= cs.len() {
        None
    } else if !subtype(t, cs[i as int]) {
        Some(i as int)
    } else {
        first_unmet(t, cs, i + 1)
    }
}

/// The result of validating `t` against a parameter: the bound is checked first, then
/// the constraints in order.
pub open spec fn validate_spec(p: STypeParameter, t: SType) -> Result<(), Seq<char>> {
    if p.bound is Some && !subtype(t, p.bound->0) {
        Err("Type "@ + type_str(t) + " does not satisfy bound "@ + type_str(p.bound->0))
    } else {
        match first_unmet(t, p.constraints, 0) {
            Some(i) => Err(
                "Type "@ + type_str(t) + " does not satisfy constraint "@ + type_str(
                    p.constraints[i],
                ),
            ),
            None => Ok(()),
        }
    }
}

/// `first_unmet` finds nothing exactly when `t` is below every constraint from `i` on.
proof fn lemma_first_unmet(t: SType, cs: Seq<SType>, i: nat)
    ensures
        first_unmet(t, cs, i) is None <==> forall|j: int| i <= j < cs.len() ==> subtype(t, #[trigger] cs[j]),
    decreases cs.len() - i,
{
    if i < cs.len() {
        lemma_first_unmet(t, cs, i + 1);
    }
}

/// Validation succeeds exactly when `t` is below the bound, if there is one, and below
/// every constraint.
pub proof fn lemma_validate_ok(p: STypeParameter, t: SType)
    ensures
        validate_spec(p, t) is Ok <==> (p.bound is None || subtype(t, p.bound->0)) && forall|j: int|
            0 <= j < p.constraints.len() ==> subtype(t, #[trigger] p.constraints[j]),
{
    lemma_first_unmet(t, p.constraints, 0);
}

/// The message of a failed validation.
fn unmet_message(ty: &Type, what: &str, other: &Type) -> (r: String)
    ensures
        r@ == "Type "@ + type_str(ty@) + what@ + type_str(other@),
{
    let mut s = String::from_str("Type ");
    let a = ty.to_string();
    s.append(a.as_str());
    s.append(what);
    let b = other.to_string();
    s.append(b.as_str());
    s
}

impl TypeParameter {
    /// An invariant parameter without bound or constraints.
    pub fn new(name: String) -> (r: Self)
        ensures
            r@ == (STypeParameter {
                name: name@,
                bound: None,
                constraints: Seq::empty(),
                variance: Variance::Invariant,
            }),
    {
        let r = TypeParameter { name, bound: None, constraints: Vec::new(), variance: Variance::Invariant };
        assert(tviews(r.constraints@) =~= Seq::<SType>::empty());
        r
    }

    /// The parameter with an upper bound.
    pub fn with_bound(self, bound: Type) -> (r: Self)
        ensures
            r@ == (STypeParameter { bound: Some(bound@), ..self@ }),
    {
        let mut p = self;
        p.bound = Some(bound);
        p
    }

    /// The parameter with one more constraint.
    pub fn with_constraint(self, constraint: Type) -> (r: Self)
        ensures
            r@ == (STypeParameter { constraints: self@.constraints.push(constraint@), ..self@ }),
    {
        let mut p = self;
        let ghost before = p.constraints@;
        let ghost cv = constraint@;
        p.constraints.push(constraint);
        assert(tviews(p.constraints@) =~= tviews(before).push(cv));
        p
    }

    /// The parameter with a variance.
    pub fn with_variance(self, variance: Variance) -> (r: Self)
        ensures
            r@ == (STypeParameter { variance, ..self@ }),
    {
        let mut p = self;
        p.variance = variance;
        p
    }

    /// Checks a type against the bound, then against each constraint.
    pub fn validate(&self, ty: &Type) -> (r: Result<(), String>)
        ensures
            r is Ok <==> validate_spec(self@, ty@) is Ok,
            r matches Err(msg) ==> validate_spec(self@, ty@) == Err::<(), Seq<char>>(msg@),
    {
        if let Some(bound) = &self.bound {
            if !ty.is_subtype(bound) {
                return Err(unmet_message(ty, " does not satisfy bound ", bound));
            }
        }
        let ghost cs = tviews(self.constraints@);
        let mut i: usize = 0;
        while i < self.constraints.len()
            invariant
                0 <= i <= self.constraints.len(),
                cs == tviews(self.constraints@),
                self@.bound is Some ==> subtype(ty@, self@.bound->0),
                first_unmet(ty@, cs, 0) == first_unmet(ty@, cs, i as nat),
            decreases self.constraints.len() - i,
        {
            proof {
                lemma_tviews_index(self.constraints@, i as int);
            }
            if !ty.is_subtype(&self.constraints[i]) {
                assert(first_unmet(ty@, cs, i as nat) == Some(i as int));
                return Err(unmet_message(ty, " does not satisfy constraint ", &self.constraints[i]));
            }
            assert(first_unmet(ty@, cs, i as nat) == first_unmet(ty@, cs, (i + 1) as nat));
            i += 1;
        }
        Ok(())
    }
}

/// A generic type definition with type parameters.
#[derive(Debug)]
pub struct GenericType {
    pub name: String,
    pub params: Vec<TypeParameter>,
    pub definition: Type,
}

pub open spec fn tparameters_view(v: Seq<TypeParameter>) -> Seq<STypeParameter> {
    v.map_values(|p: TypeParameter| p@)
}

/// The position of the first parameter named `n`, from `i` on.
pub open spec fn param_pos(params: Seq<STypeParameter>, n: Seq<char>, i: nat) -> Option<int>
    decreases params.len() - i,
{
    if i >= params.len() {
        None
    } else if params[i as int].name == n {
        Some(i as int)
    } else {
        param_pos(params, n, i + 1)
    }
}

/// The definition rebuilt for an instantiation: a class named like a parameter becomes
/// the argument at that parameter's position, occurrences of the generic itself are
/// rebuilt with their arguments rebuilt, unions and intersections are normalized, and
/// everything else is kept.
pub open spec fn subst(t: SType, name: Seq<char>, params: Seq<STypeParameter>, args: Seq<SType>) -> SType
    decreases size(t), 1nat,
{
    match t {
        SType::Class(n) => match param_pos(params, n, 0) {
            Some(k) => if k < args.len() {
                args[k]
            } else {
                t
            },
            None => t,
        },
        SType::Generic(n, ts) => if n == name {
            SType::Generic(n, subst_each(ts, name, params, args))
        } else {
            t
        },
        SType::List(b) => SType::List(Box::new(subst(*b, name, params, args))),
        SType::SetOf(b) => SType::SetOf(Box::new(subst(*b, name, params, args))),
        SType::Dict(k, v) => SType::Dict(Box::new(subst(*k, name, params, args)), Box::new(subst(*v, name, params, args))),
        SType::Tuple(ts) => SType::Tuple(subst_each(ts, name, params, args)),
        SType::Function(ps, r) => SType::Function(subst_each(ps, name, params, args), Box::new(subst(*r, name, params, args))),
        SType::Union(ts) => union_of(subst_each(ts, name, params, args)),
        SType::Intersection(ts) => intersection_of(subst_each(ts, name, params, args)),
        _ => t,
    }
}

/// The rebuilt members of a list.
pub open spec fn subst_each(ts: Seq<SType>, name: Seq<char>, params: Seq<STypeParameter>, args: Seq<SType>) -> Seq<SType>
    decreases sizes(ts) + 1, 0nat,
    via subst_each_decreases
{
    Seq::new(
        ts.len(),
        |i: int|
            if 0 <= i < ts.len() {
                subst(ts[i], name, params, args)
            } else {
                SType::Any
            },
    )
}

#[via_fn]
proof fn subst_each_decreases(ts: Seq<SType>, name: Seq<char>, params: Seq<STypeParameter>, args: Seq<SType>) {
    assert forall|i: int| 0 <= i < ts.len() implies size(ts[i]) <= sizes(ts) by {
        crate::types::lemma_size_elem(ts, i);
    }
}

/// The first parameter from `i` on that rejects its argument, with its message.
pub open spec fn first_invalid(params: Seq<STypeParameter>, args: Seq<SType>, i: nat) -> Option<
    Seq<char>,
>
    decreases params.len() - i,
{
    if i >= params.len() {
        None
    } else {
        match validate_spec(params[i as int], args[i as int]) {
            Err(m) => Some(m),
            Ok(_) => first_invalid(params, args, i + 1),
        }
    }
}

/// `first_invalid` finds nothing exactly when every parameter from `i` on accepts its
/// argument.
proof fn lemma_first_invalid(params: Seq<STypeParameter>, args: Seq<SType>, i: nat)
    ensures
        first_invalid(params, args, i) is None <==> forall|j: int| i <= j < params.len() ==> (#[trigger] validate_spec(
            params[j],
            args[j],
        )) is Ok,
    decreases params.len() - i,
{
    if i < params.len() {
        lemma_first_invalid(params, args, i + 1);
    }
}

/// Instantiation fails exactly when the number of arguments is wrong or some parameter
/// rejects its argument.
pub proof fn lemma_instantiate_fails(name: Seq<char>, params: Seq<STypeParameter>, definition: SType, args: Seq<SType>)
    ensures
        instantiate_spec(name, params, definition, args) is Err <==> args.len() != params.len() || exists|j: int|
            0 <= j < params.len() && (#[trigger] validate_spec(params[j], args[j])) is Err,
{
    lemma_first_invalid(params, args, 0);
}

/// The model of `GenericType::instantiate`.
pub open spec fn instantiate_spec(
    name: Seq<char>,
    params: Seq<STypeParameter>,
    definition: SType,
    args: Seq<SType>,
) -> Result<SType, Seq<char>> {
    if args.len() != params.len() {
        Err(
            "Wrong number of type arguments: expected "@ + crate::display::decimal(params.len())
                + ", got "@ + crate::display::decimal(args.len()),
        )
    } else {
        match first_invalid(params, args, 0) {
            Some(m) => Err(m),
            None => Ok(subst(definition, name, params, args)),
        }
    }
}

impl GenericType {
    pub fn new(name: String, params: Vec<TypeParameter>, definition: Type) -> (r: Self)
        ensures
            r.name@ == name@,
            tparameters_view(r.params@) == tparameters_view(params@),
            r.definition@ == definition@,
    {
        GenericType { name, params, definition }
    }

    /// Instantiates the generic with type arguments: their number must match, each must
    /// satisfy its parameter, and each parameter in the definition is replaced by its
    /// argument.
    pub fn instantiate(&self, args: &[Type]) -> (r: Result<Type, String>)
        ensures
            r is Ok <==> instantiate_spec(
                self.name@,
                tparameters_view(self.params@),
                self.definition@,
                tviews(args@),
            ) is Ok,
            r matches Ok(t) ==> instantiate_spec(
                self.name@,
                tparameters_view(self.params@),
                self.definition@,
                tviews(args@),
            ) == Ok::<SType, Seq<char>>(t@),
            r matches Err(m) ==> instantiate_spec(
                self.name@,
                tparameters_view(self.params@),
                self.definition@,
                tviews(args@),
            ) == Err::<SType, Seq<char>>(m@),
    {
        let ghost pv = tparameters_view(self.params@);
        let ghost av = tviews(args@);
        assert(av.len() == args.len());
        if args.len() != self.params.len() {
            let mut s = String::from_str("Wrong number of type arguments: expected ");
            crate::display::write_u64(&mut s, self.params.len() as u64);
            s.append(", got ");
            crate::display::write_u64(&mut s, args.len() as u64);
            return Err(s);
        }
        let mut i: usize = 0;
        while i < args.len()
            invariant
                0 <= i <= args.len(),
                args.len() == self.params.len(),
                pv == tparameters_view(self.params@),
                av == tviews(args@),
                first_invalid(pv, av, 0) == first_invalid(pv, av, i as nat),
            decreases args.len() - i,
        {
            proof {
                lemma_tviews_index(args@, i as int);
            }
            match self.params[i].validate(&args[i]) {
                Err(m) => {
                    return Err(m);
                },
                Ok(()) => {},
            }
            i += 1;
        }
        Ok(self.substitute(&self.definition, args))
    }

    /// The argument at the position of the first parameter named `n`, if any.
    fn param_arg(&self, n: &String, args: &[Type]) -> (r: Option<Type>)
        ensures
            crate::context::opt_view(r) == match param_pos(tparameters_view(self.params@), n@, 0) {
                Some(k) => if k < args@.len() {
                    Some(tviews(args@)[k])
                } else {
                    None
                },
                None => None,
            },
    {
        let ghost pv = tparameters_view(self.params@);
        let mut i: usize = 0;
        while i < self.params.len()
            invariant
                0 <= i <= self.params.len(),
                pv == tparameters_view(self.params@),
                pv.len() == self.params.len(),
                param_pos(pv, n@, 0) == param_pos(pv, n@, i as nat),
            decreases self.params.len() - i,
        {
            assert(pv[i as int].name == self.params@[i as int].name@);
            if self.params[i].name == *n {
                if i < args.len() {
                    proof {
                        lemma_tviews_index(args@, i as int);
                    }
                    return Some(args[i].clone());
                }
                return None;
            }
            i += 1;
        }
        None
    }

    fn substitute(&self, ty: &Type, args: &[Type]) -> (r: Type)
        ensures
            r@ == subst(ty@, self.name@, tparameters_view(self.params@), tviews(args@)),
        decreases ty,
    {
        proof {
            lemma_view_tag(*ty);
            lemma_children_smaller(ty@);
        }
        match ty {
            Type::Class(n) => match self.param_arg(n, args) {
                Some(t) => t,
                None => ty.clone(),
            },
            Type::Generic(name, inner_args) => {
                if *name == self.name {
                    Type::Generic(name.clone(), self.substitute_each(inner_args, args))
                } else {
                    ty.clone()
                }
            },
            Type::List(inner) => Type::List(Box::new(self.substitute(inner, args))),
            Type::SetOf(inner) => Type::SetOf(Box::new(self.substitute(inner, args))),
            Type::Dict(k, v) => Type::Dict(
                Box::new(self.substitute(k, args)),
                Box::new(self.substitute(v, args)),
            ),
            Type::Tuple(elems) => Type::Tuple(self.substitute_each(elems, args)),
            Type::Function(params, ret) => Type::Function(
                self.substitute_each(params, args),
                Box::new(self.substitute(ret, args)),
            ),
            Type::Union(types) => Type::union(self.substitute_each(types, args)),
            Type::Intersection(types) => Type::intersection(self.substitute_each(types, args)),
            _ => ty.clone(),
        }
    }

    fn substitute_each(&self, ts: &Vec<Type>, args: &[Type]) -> (r: Vec<Type>)
        ensures
            tviews(r@) == subst_each(tviews(ts@), self.name@, tparameters_view(self.params@), tviews(args@)),
        decreases ts,
    {
        let ghost tv = tviews(ts@);
        let mut out: Vec<Type> = Vec::new();
        let mut i: usize = 0;
        while i < ts.len()
            invariant
                0 <= i <= ts.len(),
                tv == tviews(ts@),
                out.len() == i,
                forall|j: int| 0 <= j < i ==> (#[trigger] out@[j])@ == subst(tv[j], self.name@, tparameters_view(self.params@), tviews(args@)),
            decreases ts.len() - i,
        {
            proof {
                lemma_tviews_index(ts@, i as int);
            }
            assert(decreases_to!(ts => ts@[i as int]));
            out.push(self.substitute(&ts[i], args));
            i += 1;
        }
        assert(tviews(out@) =~= subst_each(tv, self.name@, tparameters_view(self.params@), tviews(args@)));
        out
    }
}

} // verus!
