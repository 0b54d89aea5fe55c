//! Type inference by unification of type equations.
use vstd::prelude::*;
use std::collections::HashMap;
use crate::types::{Type, SType, tviews, lemma_tviews_index, size, sizes, lemma_size_positive,
    lemma_children_smaller, lemma_size_elem};
use crate::equality::{type_eq, lemma_view_tag};
use crate::display::{type_str, decimal, write_u64, write_type};

verus! {

/// Whether `t` mentions the variable `v` where substitution looks: through lists, sets,
/// dicts, tuples and functions.
pub open spec fn mentions(t: SType, v: u64) -> bool
    decreases size(t), 1nat,
{
    match t {
        SType::Var(id) => id == v,
        SType::List(b) => mentions(*b, v),
        SType::SetOf(b) => mentions(*b, v),
        SType::Dict(k, w) => mentions(*k, v) || mentions(*w, v),
        SType::Tuple(ts) => mentions_any(ts, v),
        SType::Function(ps, r) => mentions_any(ps, v) || mentions(*r, v),
        _ => false,
    }
}

pub open spec fn mentions_any(ts: Seq<SType>, v: u64) -> bool
    decreases sizes(ts) + 1, 0nat,
{
    if ts.len() == 0 {
        false
    } else {
        proof {
            lemma_size_positive(ts[0]);
        }
        mentions(ts[0], v) || mentions_any(ts.subrange(1, ts.len() as int), v)
    }
}

/// Whether `t` mentions the variable `v` anywhere the occurs check looks: also inside
/// unions and intersections.
pub open spec fn occurs(t: SType, v: u64) -> bool
    decreases size(t), 1nat,
{
    match t {
        SType::Var(id) => id == v,
        SType::List(b) => occurs(*b, v),
        SType::SetOf(b) => occurs(*b, v),
        SType::Dict(k, w) => occurs(*k, v) || occurs(*w, v),
        SType::Tuple(ts) => occurs_any(ts, v),
        SType::Union(ts) => occurs_any(ts, v),
        SType::Intersection(ts) => occurs_any(ts, v),
        SType::Function(ps, r) => occurs_any(ps, v) || occurs(*r, v),
        _ => false,
    }
}

pub open spec fn occurs_any(ts: Seq<SType>, v: u64) -> bool
    decreases sizes(ts) + 1, 0nat,
{
    if ts.len() == 0 {
        false
    } else {
        proof {
            lemma_size_positive(ts[0]);
        }
        occurs(ts[0], v) || occurs_any(ts.subrange(1, ts.len() as int), v)
    }
}

/// One pass of substitution: each mentioned variable that the map binds is replaced by
/// its binding.
pub open spec fn apply1(s: Map<u64, SType>, t: SType) -> SType
    decreases size(t), 1nat,
{
    match t {
        SType::Var(id) => if s.contains_key(id) {
            s[id]
        } else {
            t
        },
        SType::List(b) => SType::List(Box::new(apply1(s, *b))),
        SType::SetOf(b) => SType::SetOf(Box::new(apply1(s, *b))),
        SType::Dict(k, w) => SType::Dict(Box::new(apply1(s, *k)), Box::new(apply1(s, *w))),
        SType::Tuple(ts) => SType::Tuple(apply1_each(s, ts)),
        SType::Function(ps, r) => SType::Function(apply1_each(s, ps), Box::new(apply1(s, *r))),
        _ => t,
    }
}

pub open spec fn apply1_each(s: Map<u64, SType>, ts: Seq<SType>) -> Seq<SType>
    decreases sizes(ts) + 1, 0nat,
    via apply1_each_decreases
{
    Seq::new(
        ts.len(),
        |i: int|
            if 0 <= i < ts.len() {
                apply1(s, ts[i])
            } else {
                SType::Any
            },
    )
}

#[via_fn]
proof fn apply1_each_decreases(s: Map<u64, SType>, ts: Seq<SType>) {
    assert forall|i: int| 0 <= i < ts.len() implies size(ts[i]) <= sizes(ts) by {
        lemma_size_elem(ts, i);
    }
}

/// `t` mentions no variable that the map binds.
pub open spec fn free_of(s: Map<u64, SType>, t: SType) -> bool {
    forall|v: u64| #[trigger] mentions(t, v) ==> !s.contains_key(v)
}

/// No binding mentions a bound variable, so one pass of substitution is enough.
pub open spec fn idempotent(s: Map<u64, SType>) -> bool {
    forall|k: u64| #[trigger] s.contains_key(k) ==> free_of(s, s[k])
}

/// The binding of a single variable.
pub open spec fn single(id: u64, ty: SType) -> Map<u64, SType> {
    Map::empty().insert(id, ty)
}

/// The substitution after binding `id` to `ty`: old bindings get `ty` for `id`.
pub open spec fn extend(s: Map<u64, SType>, id: u64, ty: SType) -> Map<u64, SType> {
    s.map_values(|x: SType| apply1(single(id, ty), x)).insert(id, ty)
}

/// `s2` solves at least what `s1` solves: substituting with `s2` gives the same after
/// substituting with `s1`.
#[verifier::opaque]
pub open spec fn refines(s1: Map<u64, SType>, s2: Map<u64, SType>) -> bool {
    forall|t: SType| #[trigger] apply1(s2, t) == apply1(s2, apply1(s1, t))
}

/// What refinement says of one type.
pub proof fn lemma_refines_apply(s1: Map<u64, SType>, s2: Map<u64, SType>, t: SType)
    requires
        refines(s1, s2),
    ensures
        apply1(s2, t) == apply1(s2, apply1(s1, t)),
{
    reveal(refines);
}

/// A list mentions a variable exactly when one of its members does.
pub proof fn lemma_mentions_any(ts: Seq<SType>, v: u64)
    ensures
        mentions_any(ts, v) <==> exists|i: int| 0 <= i < ts.len() && mentions(#[trigger] ts[i], v),
    decreases ts.len(),
{
    if ts.len() > 0 {
        let rest = ts.subrange(1, ts.len() as int);
        lemma_mentions_any(rest, v);
        if exists|i: int| 0 <= i < ts.len() && mentions(#[trigger] ts[i], v) {
            let i = choose|i: int| 0 <= i < ts.len() && mentions(#[trigger] ts[i], v);
            if i > 0 {
                assert(rest[i - 1] == ts[i]);
            }
        }
        if exists|i: int| 0 <= i < rest.len() && mentions(#[trigger] rest[i], v) {
            let i = choose|i: int| 0 <= i < rest.len() && mentions(#[trigger] rest[i], v);
            assert(ts[i + 1] == rest[i]);
        }
    }
}

/// The same for the occurs check.
pub proof fn lemma_occurs_any(ts: Seq<SType>, v: u64)
    ensures
        occurs_any(ts, v) <==> exists|i: int| 0 <= i < ts.len() && occurs(#[trigger] ts[i], v),
    decreases ts.len(),
{
    if ts.len() > 0 {
        let rest = ts.subrange(1, ts.len() as int);
        lemma_occurs_any(rest, v);
        if exists|i: int| 0 <= i < ts.len() && occurs(#[trigger] ts[i], v) {
            let i = choose|i: int| 0 <= i < ts.len() && occurs(#[trigger] ts[i], v);
            if i > 0 {
                assert(rest[i - 1] == ts[i]);
            }
        }
        if exists|i: int| 0 <= i < rest.len() && occurs(#[trigger] rest[i], v) {
            let i = choose|i: int| 0 <= i < rest.len() && occurs(#[trigger] rest[i], v);
            assert(ts[i + 1] == rest[i]);
        }
    }
}

/// What substitution looks at, the occurs check looks at too.
pub proof fn lemma_mentions_occurs(t: SType, v: u64)
    requires
        mentions(t, v),
    ensures
        occurs(t, v),
    decreases size(t),
{
    lemma_children_smaller(t);
    match t {
        SType::List(b) => lemma_mentions_occurs(*b, v),
        SType::SetOf(b) => lemma_mentions_occurs(*b, v),
        SType::Dict(k, w) => {
            if mentions(*k, v) {
                lemma_mentions_occurs(*k, v);
            } else {
                lemma_mentions_occurs(*w, v);
            }
        },
        SType::Tuple(ts) => {
            lemma_mentions_any(ts, v);
            lemma_occurs_any(ts, v);
            let i = choose|i: int| 0 <= i < ts.len() && mentions(#[trigger] ts[i], v);
            lemma_mentions_occurs(ts[i], v);
        },
        SType::Function(ps, r) => {
            if mentions_any(ps, v) {
                lemma_mentions_any(ps, v);
                lemma_occurs_any(ps, v);
                let i = choose|i: int| 0 <= i < ps.len() && mentions(#[trigger] ps[i], v);
                lemma_mentions_occurs(ps[i], v);
            } else {
                lemma_mentions_occurs(*r, v);
            }
        },
        _ => {},
    }
}

/// Substitution leaves a type that mentions no bound variable as it is.
pub proof fn lemma_apply_free(s: Map<u64, SType>, t: SType)
    requires
        free_of(s, t),
    ensures
        apply1(s, t) == t,
    decreases size(t),
{
    lemma_children_smaller(t);
    match t {
        SType::Var(id) => {
            assert(mentions(t, id));
        },
        SType::List(b) => {
            assert forall|v: u64| #[trigger] mentions(*b, v) implies !s.contains_key(v) by {
                assert(mentions(t, v));
            }
            lemma_apply_free(s, *b);
        },
        SType::SetOf(b) => {
            assert forall|v: u64| #[trigger] mentions(*b, v) implies !s.contains_key(v) by {
                assert(mentions(t, v));
            }
            lemma_apply_free(s, *b);
        },
        SType::Dict(k, w) => {
            assert forall|v: u64| #[trigger] mentions(*k, v) implies !s.contains_key(v) by {
                assert(mentions(t, v));
            }
            assert forall|v: u64| #[trigger] mentions(*w, v) implies !s.contains_key(v) by {
                assert(mentions(t, v));
            }
            lemma_apply_free(s, *k);
            lemma_apply_free(s, *w);
        },
        SType::Tuple(ts) => {
            lemma_apply_each_free(s, ts, t);
        },
        SType::Function(ps, r) => {
            lemma_apply_each_free(s, ps, t);
            assert forall|v: u64| #[trigger] mentions(*r, v) implies !s.contains_key(v) by {
                assert(mentions(t, v));
            }
            lemma_apply_free(s, *r);
        },
        _ => {},
    }
}

proof fn lemma_apply_each_free(s: Map<u64, SType>, ts: Seq<SType>, t: SType)
    requires
        free_of(s, t),
        forall|i: int| 0 <= i < ts.len() ==> size(#[trigger] ts[i]) < size(t),
        forall|v: u64| mentions_any(ts, v) ==> #[trigger] mentions(t, v),
    ensures
        apply1_each(s, ts) == ts,
    decreases size(t), 0nat,
{
    assert forall|i: int| 0 <= i < ts.len() implies #[trigger] apply1(s, ts[i]) == ts[i] by {
        assert forall|v: u64| #[trigger] mentions(ts[i], v) implies !s.contains_key(v) by {
            lemma_mentions_any(ts, v);
            assert(mentions(t, v));
        }
        lemma_apply_free(s, ts[i]);
    }
    let r = apply1_each(s, ts);
    assert(r.len() == ts.len());
    assert forall|i: int| 0 <= i < ts.len() implies r[i] == ts[i] by {
        assert(r[i] == apply1(s, ts[i]));
    }
    assert(r =~= ts);
}


/// The variables that substitution looks at in `t`.
pub open spec fn vars(t: SType) -> Set<u64> {
    Set::new(|v: u64| mentions(t, v))
}

pub open spec fn vars_any(ts: Seq<SType>) -> Set<u64> {
    Set::new(|v: u64| mentions_any(ts, v))
}

/// A type mentions finitely many variables.
pub proof fn lemma_vars_finite(t: SType)
    ensures
        vars(t).finite(),
    decreases size(t), 1nat,
{
    match t {
        SType::Var(id) => {
            assert(vars(t) =~= set![id]);
        },
        SType::List(b) => {
            lemma_vars_finite(*b);
            assert(vars(t) =~= vars(*b));
        },
        SType::SetOf(b) => {
            lemma_vars_finite(*b);
            assert(vars(t) =~= vars(*b));
        },
        SType::Dict(k, w) => {
            lemma_vars_finite(*k);
            lemma_vars_finite(*w);
            assert(vars(t) =~= vars(*k).union(vars(*w)));
        },
        SType::Tuple(ts) => {
            lemma_vars_any_finite(ts);
            assert(vars(t) =~= vars_any(ts));
        },
        SType::Function(ps, r) => {
            lemma_vars_any_finite(ps);
            lemma_vars_finite(*r);
            assert(vars(t) =~= vars_any(ps).union(vars(*r)));
        },
        _ => {
            assert(vars(t) =~= Set::empty());
        },
    }
}

pub proof fn lemma_vars_any_finite(ts: Seq<SType>)
    ensures
        vars_any(ts).finite(),
    decreases sizes(ts) + 1, 0nat,
{
    if ts.len() == 0 {
        assert(vars_any(ts) =~= Set::empty());
    } else {
        let rest = ts.subrange(1, ts.len() as int);
        lemma_size_positive(ts[0]);
        lemma_vars_finite(ts[0]);
        lemma_vars_any_finite(rest);
        assert(vars_any(ts) =~= vars(ts[0]).union(vars_any(rest)));
    }
}

/// Where a variable mentioned after substitution comes from: a bound variable whose
/// binding mentions it, or the variable itself, left unbound.
pub open spec fn source(s: Map<u64, SType>, w: u64, v: u64) -> bool {
    if s.contains_key(w) {
        mentions(s[w], v)
    } else {
        w == v
    }
}

/// Every variable mentioned after substitution comes from a variable mentioned before.
pub proof fn lemma_apply_mentions(s: Map<u64, SType>, t: SType, v: u64)
    requires
        mentions(apply1(s, t), v),
    ensures
        exists|w: u64| #[trigger] mentions(t, w) && source(s, w, v),
    decreases size(t),
{
    lemma_children_smaller(t);
    match t {
        SType::Var(id) => {
            assert(mentions(t, id));
        },
        SType::List(b) => {
            lemma_apply_mentions(s, *b, v);
            let w = choose|w: u64| #[trigger] mentions(*b, w) && source(s, w, v);
            assert(mentions(t, w));
        },
        SType::SetOf(b) => {
            lemma_apply_mentions(s, *b, v);
            let w = choose|w: u64| #[trigger] mentions(*b, w) && source(s, w, v);
            assert(mentions(t, w));
        },
        SType::Dict(k, x) => {
            if mentions(apply1(s, *k), v) {
                lemma_apply_mentions(s, *k, v);
                let w = choose|w: u64| #[trigger] mentions(*k, w) && source(s, w, v);
                assert(mentions(t, w));
            } else {
                lemma_apply_mentions(s, *x, v);
                let w = choose|w: u64| #[trigger] mentions(*x, w) && source(s, w, v);
                assert(mentions(t, w));
            }
        },
        SType::Tuple(ts) => {
            lemma_apply_each_mentions(s, ts, v);
            let w = choose|w: u64| #[trigger] mentions_any(ts, w) && source(s, w, v);
            assert(mentions(t, w));
        },
        SType::Function(ps, r) => {
            if mentions_any(apply1_each(s, ps), v) {
                lemma_apply_each_mentions(s, ps, v);
                let w = choose|w: u64| #[trigger] mentions_any(ps, w) && source(s, w, v);
                assert(mentions(t, w));
            } else {
                lemma_apply_mentions(s, *r, v);
                let w = choose|w: u64| #[trigger] mentions(*r, w) && source(s, w, v);
                assert(mentions(t, w));
            }
        },
        _ => {},
    }
}

proof fn lemma_apply_each_mentions(s: Map<u64, SType>, ts: Seq<SType>, v: u64)
    requires
        mentions_any(apply1_each(s, ts), v),
    ensures
        exists|w: u64| #[trigger] mentions_any(ts, w) && source(s, w, v),
    decreases sizes(ts) + 1, 0nat,
{
    let r = apply1_each(s, ts);
    lemma_mentions_any(r, v);
    let i = choose|i: int| 0 <= i < r.len() && mentions(#[trigger] r[i], v);
    assert(r[i] == apply1(s, ts[i]));
    lemma_size_elem(ts, i);
    lemma_apply_mentions(s, ts[i], v);
    let w = choose|w: u64| #[trigger] mentions(ts[i], w) && source(s, w, v);
    lemma_mentions_any(ts, w);
    assert(mentions_any(ts, w));
}

/// After substitution with an idempotent map, no bound variable is left.
pub proof fn lemma_resolved_free(s: Map<u64, SType>, t: SType)
    requires
        idempotent(s),
    ensures
        free_of(s, apply1(s, t)),
{
    assert forall|v: u64| #[trigger] mentions(apply1(s, t), v) implies !s.contains_key(v) by {
        lemma_apply_mentions(s, t, v);
        let w = choose|w: u64| #[trigger] mentions(t, w) && source(s, w, v);
        if s.contains_key(w) {
            assert(free_of(s, s[w]));
        }
    }
}

/// Substituting twice with an idempotent map is substituting once.
pub proof fn lemma_apply_twice(s: Map<u64, SType>, t: SType)
    requires
        idempotent(s),
    ensures
        apply1(s, apply1(s, t)) == apply1(s, t),
{
    lemma_resolved_free(s, t);
    lemma_apply_free(s, apply1(s, t));
}


/// Substituting with an extended map is substituting with the old map, then binding the
/// new variable.
pub proof fn lemma_compose(s: Map<u64, SType>, id: u64, ty: SType, t: SType)
    requires
        !s.contains_key(id),
    ensures
        apply1(extend(s, id, ty), t) == apply1(single(id, ty), apply1(s, t)),
    decreases size(t),
{
    let e = extend(s, id, ty);
    let one = single(id, ty);
    lemma_children_smaller(t);
    match t {
        SType::Var(w) => {
            if s.contains_key(w) {
                assert(e[w] == apply1(one, s[w]));
            } else if w == id {
                assert(e[w] == ty);
            } else {
                assert(!e.contains_key(w));
            }
        },
        SType::List(b) => lemma_compose(s, id, ty, *b),
        SType::SetOf(b) => lemma_compose(s, id, ty, *b),
        SType::Dict(k, w) => {
            lemma_compose(s, id, ty, *k);
            lemma_compose(s, id, ty, *w);
        },
        SType::Tuple(ts) => {
            lemma_compose_each(s, id, ty, ts, t);
        },
        SType::Function(ps, r) => {
            lemma_compose_each(s, id, ty, ps, t);
            lemma_compose(s, id, ty, *r);
        },
        _ => {},
    }
}

proof fn lemma_compose_each(s: Map<u64, SType>, id: u64, ty: SType, ts: Seq<SType>, t: SType)
    requires
        !s.contains_key(id),
        forall|i: int| 0 <= i < ts.len() ==> size(#[trigger] ts[i]) < size(t),
    ensures
        apply1_each(extend(s, id, ty), ts) == apply1_each(single(id, ty), apply1_each(s, ts)),
    decreases size(t), 0nat,
{
    let a = apply1_each(extend(s, id, ty), ts);
    let m = apply1_each(s, ts);
    let b = apply1_each(single(id, ty), m);
    assert forall|i: int| 0 <= i < ts.len() implies a[i] == b[i] by {
        lemma_compose(s, id, ty, ts[i]);
        assert(m[i] == apply1(s, ts[i]));
    }
    assert(a =~= b);
}

/// Binding a fresh variable to a type that mentions neither it nor a bound variable keeps
/// the map idempotent.
pub proof fn lemma_extend_idempotent(s: Map<u64, SType>, id: u64, ty: SType)
    requires
        idempotent(s),
        !s.contains_key(id),
        free_of(s, ty),
        !mentions(ty, id),
    ensures
        idempotent(extend(s, id, ty)),
{
    let e = extend(s, id, ty);
    let one = single(id, ty);
    assert forall|k: u64| #[trigger] e.contains_key(k) implies free_of(e, e[k]) by {
        if k == id {
            assert forall|v: u64| #[trigger] mentions(e[k], v) implies !e.contains_key(v) by {
                assert(v != id);
            }
        } else {
            assert forall|v: u64| #[trigger] mentions(e[k], v) implies !e.contains_key(v) by {
                assert(e[k] == apply1(one, s[k]));
                lemma_apply_mentions(one, s[k], v);
                let w = choose|w: u64| #[trigger] mentions(s[k], w) && source(one, w, v);
                assert(free_of(s, s[k]));
                if w == id {
                    assert(mentions(ty, v));
                }
            }
        }
    }
}

/// An idempotent map refines itself.
pub proof fn lemma_refines_refl(s: Map<u64, SType>)
    requires
        idempotent(s),
    ensures
        refines(s, s),
{
    reveal(refines);
    assert forall|t: SType| #[trigger] apply1(s, t) == apply1(s, apply1(s, t)) by {
        lemma_apply_twice(s, t);
    }
}

/// Refinement is transitive.
pub proof fn lemma_refines_trans(a: Map<u64, SType>, b: Map<u64, SType>, c: Map<u64, SType>)
    requires
        refines(a, b),
        refines(b, c),
    ensures
        refines(a, c),
{
    reveal(refines);
    assert forall|t: SType| #[trigger] apply1(c, t) == apply1(c, apply1(a, t)) by {
        assert(apply1(c, t) == apply1(c, apply1(b, t)));
        assert(apply1(b, t) == apply1(b, apply1(a, t)));
        assert(apply1(c, apply1(a, t)) == apply1(c, apply1(b, apply1(a, t))));
    }
}

/// Binding a fresh variable refines an idempotent map.
pub proof fn lemma_refines_extend(s: Map<u64, SType>, id: u64, ty: SType)
    requires
        idempotent(s),
        !s.contains_key(id),
    ensures
        refines(s, extend(s, id, ty)),
{
    reveal(refines);
    let e = extend(s, id, ty);
    assert forall|t: SType| #[trigger] apply1(e, t) == apply1(e, apply1(s, t)) by {
        lemma_compose(s, id, ty, t);
        lemma_compose(s, id, ty, apply1(s, t));
        lemma_apply_twice(s, t);
    }
}

/// What a map unifies, every map that refines it unifies too.
pub proof fn lemma_refines_unifies(s1: Map<u64, SType>, s2: Map<u64, SType>, a: SType, b: SType)
    requires
        refines(s1, s2),
        apply1(s1, a) == apply1(s1, b),
    ensures
        apply1(s2, a) == apply1(s2, b),
{
    reveal(refines);
    assert(apply1(s2, a) == apply1(s2, apply1(s1, a)));
    assert(apply1(s2, b) == apply1(s2, apply1(s1, b)));
}


/// Every variable of a type is in `u`.
pub open spec fn within(t: SType, u: Set<u64>) -> bool {
    forall|v: u64| #[trigger] mentions(t, v) ==> u.contains(v)
}

/// `u` is finite and holds every bound variable and every variable of a binding.
pub open spec fn closed_in(s: Map<u64, SType>, u: Set<u64>) -> bool {
    &&& u.finite()
    &&& forall|k: u64| #[trigger] s.contains_key(k) ==> u.contains(k) && within(s[k], u)
}

/// `sol` is the full resolution of the bindings `b`: the same variables, each bound to
/// its binding with every bound variable resolved, and nothing left to resolve.
pub open spec fn resolves(sol: Map<u64, SType>, b: Map<u64, SType>) -> bool {
    &&& sol.dom() == b.dom()
    &&& idempotent(sol)
    &&& forall|k: u64| #[trigger] b.contains_key(k) ==> sol[k] == apply1(sol, b[k])
}

/// The variable a type is, if it is one.
pub open spec fn var_of(t: SType) -> Option<u64> {
    match t {
        SType::Var(id) => Some(id),
        _ => None,
    }
}

/// Two types with the same outer constructor that unification takes apart.
pub open spec fn same_shape(a: SType, b: SType) -> bool {
    match (a, b) {
        (SType::List(_), SType::List(_)) => true,
        (SType::SetOf(_), SType::SetOf(_)) => true,
        (SType::Dict(_, _), SType::Dict(_, _)) => true,
        (SType::Tuple(x), SType::Tuple(y)) => x.len() == y.len(),
        (SType::Function(p, _), SType::Function(q, _)) => p.len() == q.len(),
        _ => false,
    }
}

/// The error for binding a variable to a type that contains it.
pub open spec fn infinite_msg(id: u64, t: SType) -> Seq<char> {
    "Infinite type: T"@ + decimal(id as nat) + " = "@ + type_str(t)
}

/// The error for two types that cannot be made equal.
pub open spec fn mismatch_msg(a: SType, b: SType) -> Seq<char> {
    "Cannot unify "@ + type_str(a) + " with "@ + type_str(b)
}

/// The variable to bind and what to bind it to, when one side is a variable.
pub open spec fn binding_of(l: SType, r: SType) -> (u64, SType) {
    if var_of(l) is Some {
        (var_of(l)->0, r)
    } else {
        (var_of(r)->0, l)
    }
}

/// Of finite sets `a <= b` within `u`, `b` leaves no more of `u` uncovered, and fewer if
/// it is larger.
proof fn lemma_uncovered(u: Set<u64>, a: Set<u64>, b: Set<u64>)
    requires
        u.finite(),
        a <= b,
        b <= u,
    ensures
        u.difference(b).len() <= u.difference(a).len(),
        a != b ==> u.difference(b).len() < u.difference(a).len(),
{
    vstd::set_lib::lemma_len_subset(u.difference(b), u.difference(a));
    if a != b {
        let x = choose|x: u64| b.contains(x) && !a.contains(x);
        assert(b.contains(x) && !a.contains(x)) by {
            assert(!(a =~= b));
        }
        vstd::set_lib::lemma_len_subset(u.difference(b), u.difference(a).remove(x));
    }
}

/// Type inference by unification: equations between types are solved into a
/// substitution of type variables.
pub struct InferenceEngine {
    constraints: Vec<(Type, Type)>,
    substitution: HashMap<u64, Type>,
    solution: Ghost<Map<u64, SType>>,
    rank: Ghost<Map<u64, nat>>,
    depth: Ghost<nat>,
    universe: Ghost<Set<u64>>,
}

impl InferenceEngine {
    /// The equations not solved yet, in the order they were added.
    pub closed spec fn pending(&self) -> Seq<(SType, SType)> {
        self.constraints@.map_values(|c: (Type, Type)| (c.0@, c.1@))
    }

    /// The bindings of type variables, as stored.
    pub closed spec fn bindings(&self) -> Map<u64, SType> {
        self.substitution@.map_values(|t: Type| t@)
    }

    /// The bindings with every bound variable resolved.
    pub closed spec fn solution(&self) -> Map<u64, SType> {
        self.solution@
    }

    /// The engine's invariant: the solution resolves the bindings, and the bindings have
    /// no cycle through the places substitution looks at.
    pub closed spec fn wf(&self) -> bool {
        let b = self.bindings();
        let sol = self.solution@;
        &&& resolves(sol, b)
        &&& sol.dom().finite()
        &&& forall|k: u64, v: u64|
            #![trigger mentions(b[k], v)]
            b.contains_key(k) && mentions(b[k], v) && b.contains_key(v) ==> self.rank@[v]
                < self.rank@[k]
        &&& forall|k: u64|
            #[trigger] b.contains_key(k) ==> self.rank@.contains_key(k) && self.rank@[k]
                < self.depth@
        &&& closed_in(sol, self.universe@)
        &&& forall|i: int|
            0 <= i < self.pending().len() ==> within(#[trigger] self.pending()[i].0, self.universe@)
                && within(self.pending()[i].1, self.universe@)
    }

    /// An engine with no equations and no bindings.
    pub fn new() -> (r: Self)
        ensures
            r.wf(),
            r.pending() == Seq::<(SType, SType)>::empty(),
            r.bindings() == Map::<u64, SType>::empty(),
            r.solution() == Map::<u64, SType>::empty(),
    {
        broadcast use vstd::std_specs::hash::group_hash_axioms;
        let r = InferenceEngine {
            constraints: Vec::new(),
            substitution: HashMap::new(),
            solution: Ghost(Map::empty()),
            rank: Ghost(Map::empty()),
            depth: Ghost(0),
            universe: Ghost(Set::empty()),
        };
        assert(r.bindings() =~= Map::<u64, SType>::empty());
        assert(r.pending() =~= Seq::<(SType, SType)>::empty());
        r
    }

    /// Records the equation `left = right`.
    pub fn add_constraint(&mut self, left: Type, right: Type)
        requires
            old(self).wf(),
        ensures
            final(self).wf(),
            final(self).pending() == old(self).pending().push((left@, right@)),
            final(self).bindings() == old(self).bindings(),
            final(self).solution() == old(self).solution(),
    {
        let ghost lv = left@;
        let ghost rv = right@;
        proof {
            lemma_vars_finite(lv);
            lemma_vars_finite(rv);
        }
        let ghost u = self.universe@.union(vars(lv)).union(vars(rv));
        assert forall|k: u64| #[trigger] self.solution@.contains_key(k) implies u.contains(k)
            && within(self.solution@[k], u) by {
            assert(within(self.solution@[k], self.universe@));
        }
        self.universe = Ghost(u);
        self.constraints.push((left, right));
        assert(self.bindings() == old(self).bindings());
        assert(self.pending() =~= old(self).pending().push((lv, rv)));
        assert forall|i: int|
            0 <= i < self.pending().len() implies within(#[trigger] self.pending()[i].0, u)
            && within(self.pending()[i].1, u) by {
            if i < old(self).pending().len() {
                assert(self.pending()[i] == old(self).pending()[i]);
            }
        }

        assert(resolves(self.solution@, self.bindings()));
        assert(self.solution@.dom().finite());
        assert(forall|k: u64, v: u64|
            #![trigger mentions(self.bindings()[k], v)]
            self.bindings().contains_key(k) && mentions(self.bindings()[k], v) && self.bindings().contains_key(v) ==> self.rank@[v]
                < self.rank@[k]);
        assert(forall|k: u64|
            #[trigger] self.bindings().contains_key(k) ==> self.rank@.contains_key(k) && self.rank@[k]
                < self.depth@);
        assert(closed_in(self.solution@, self.universe@));
    }

    /// Applies the substitution to `ty`, resolving bound variables through their bindings
    /// until none is left.
    fn apply_substitution(&self, ty: &Type, Ghost(d): Ghost<nat>) -> (r: Type)
        requires
            self.wf(),
            forall|v: u64|
                #[trigger] mentions(ty@, v) && self.bindings().contains_key(v) ==> self.rank@[v] < d,
        ensures
            r@ == apply1(self.solution(), ty@),
        decreases d, size(ty@), 1nat,
    {
        broadcast use vstd::std_specs::hash::group_hash_axioms;
        let ghost sol = self.solution();
        let ghost b = self.bindings();
        match ty {
            Type::Var(id) => {
                match self.substitution.get(id) {
                    Some(t) => {
                        assert(mentions(ty@, *id));
                        assert(b[*id] == t@);
                        let ghost k = self.rank@[*id];
                        let r = self.apply_substitution(t, Ghost(k));
                        r
                    },
                    None => Type::Var(*id),
                }
            },
            Type::List(x) => {
                assert forall|v: u64| #[trigger] mentions(x@, v) implies mentions(ty@, v) by {}
                Type::List(Box::new(self.apply_substitution(x, Ghost(d))))
            },
            Type::SetOf(x) => {
                assert forall|v: u64| #[trigger] mentions(x@, v) implies mentions(ty@, v) by {}
                Type::SetOf(Box::new(self.apply_substitution(x, Ghost(d))))
            },
            Type::Dict(k, w) => {
                assert forall|v: u64| #[trigger] mentions(k@, v) implies mentions(ty@, v) by {}
                assert forall|v: u64| #[trigger] mentions(w@, v) implies mentions(ty@, v) by {}
                let k2 = self.apply_substitution(k, Ghost(d));
                let w2 = self.apply_substitution(w, Ghost(d));
                Type::Dict(Box::new(k2), Box::new(w2))
            },
            Type::Tuple(ts) => {
                let out = self.apply_each(ts, Ghost(d), Ghost(ty@));
                proof {
                    assert forall|j: int| 0 <= j < out.len() implies tviews(out@)[j] == apply1_each(
                        sol,
                        tviews(ts@),
                    )[j] by {
                        lemma_tviews_index(out@, j);
                        lemma_tviews_index(ts@, j);
                    }
                    assert(tviews(out@) =~= apply1_each(sol, tviews(ts@)));
                }
                Type::Tuple(out)
            },
            Type::Function(ps, r) => {
                let out = self.apply_each(ps, Ghost(d), Ghost(ty@));
                assert forall|v: u64| #[trigger] mentions(r@, v) implies mentions(ty@, v) by {}
                let r2 = self.apply_substitution(r, Ghost(d));
                proof {
                    assert forall|j: int| 0 <= j < out.len() implies tviews(out@)[j] == apply1_each(
                        sol,
                        tviews(ps@),
                    )[j] by {
                        lemma_tviews_index(out@, j);
                        lemma_tviews_index(ps@, j);
                    }
                    assert(tviews(out@) =~= apply1_each(sol, tviews(ps@)));
                }
                Type::Function(out, Box::new(r2))
            },
            _ => ty.clone(),
        }
    }

    /// Applies the substitution to each type of a list held by `parent`.
    fn apply_each(&self, ts: &Vec<Type>, Ghost(d): Ghost<nat>, Ghost(parent): Ghost<SType>) -> (r: Vec<
        Type,
    >)
        requires
            self.wf(),
            size(parent) > sizes(tviews(ts@)),
            forall|v: u64| mentions_any(tviews(ts@), v) ==> #[trigger] mentions(parent, v),
            forall|v: u64|
                #[trigger] mentions(parent, v) && self.bindings().contains_key(v) ==> self.rank@[v]
                    < d,
        ensures
            r.len() == ts.len(),
            forall|j: int| 0 <= j < ts.len() ==> #[trigger] r@[j]@ == apply1(self.solution(), ts@[j]@),
        decreases d, size(parent), 0nat,
    {
        let mut out: Vec<Type> = Vec::new();
        let mut i: usize = 0;
        while i < ts.len()
            invariant
                self.wf(),
                0 <= i <= ts.len(),
                out.len() == i,
                size(parent) > sizes(tviews(ts@)),
                forall|v: u64| mentions_any(tviews(ts@), v) ==> #[trigger] mentions(parent, v),
                forall|v: u64|
                    #[trigger] mentions(parent, v) && self.bindings().contains_key(v)
                        ==> self.rank@[v] < d,
                forall|j: int| 0 <= j < i ==> #[trigger] out@[j]@ == apply1(self.solution(), ts@[j]@),
            decreases ts.len() - i,
        {
            proof {
                lemma_tviews_index(ts@, i as int);
                lemma_size_elem(tviews(ts@), i as int);
                assert forall|v: u64| #[trigger] mentions(ts@[i as int]@, v) implies mentions(
                    parent,
                    v,
                ) by {
                    lemma_mentions_any(tviews(ts@), v);
                }
            }
            let t = self.apply_substitution(&ts[i], Ghost(d));
            out.push(t);
            i += 1;
        }
        out
    }

    /// Whether the variable `var_id` occurs in `ty`, unions and intersections included.
    fn occurs_check(&self, var_id: u64, ty: &Type) -> (r: bool)
        ensures
            r == occurs(ty@, var_id),
        decreases size(ty@), 1nat,
    {
        match ty {
            Type::Var(id) => *id == var_id,
            Type::List(x) => self.occurs_check(var_id, x),
            Type::SetOf(x) => self.occurs_check(var_id, x),
            Type::Dict(k, v) => self.occurs_check(var_id, k) || self.occurs_check(var_id, v),
            Type::Tuple(ts) => self.occurs_in_any(var_id, ts),
            Type::Union(ts) => self.occurs_in_any(var_id, ts),
            Type::Intersection(ts) => self.occurs_in_any(var_id, ts),
            Type::Function(ps, r) => self.occurs_in_any(var_id, ps) || self.occurs_check(var_id, r),
            _ => false,
        }
    }

    fn occurs_in_any(&self, var_id: u64, ts: &Vec<Type>) -> (r: bool)
        ensures
            r == occurs_any(tviews(ts@), var_id),
        decreases sizes(tviews(ts@)) + 1, 0nat,
    {
        proof {
            lemma_occurs_any(tviews(ts@), var_id);
        }
        let mut i: usize = 0;
        while i < ts.len()
            invariant
                0 <= i <= ts.len(),
                forall|j: int| 0 <= j < i ==> !occurs(#[trigger] tviews(ts@)[j], var_id),
            decreases ts.len() - i,
        {
            proof {
                lemma_tviews_index(ts@, i as int);
                lemma_size_elem(tviews(ts@), i as int);
            }
            if self.occurs_check(var_id, &ts[i]) {
                assert(occurs(tviews(ts@)[i as int], var_id));
                proof {
                    lemma_occurs_any(tviews(ts@), var_id);
                }
                return true;
            }
            i += 1;
        }
        false
    }

    /// Binds the free variable `id` to the resolved type `ty`, unless `ty` contains it.
    #[verifier::rlimit(40)]
    fn bind(&mut self, id: u64, ty: Type) -> (res: Result<(), String>)
        requires
            old(self).wf(),
            old(self).universe@.contains(id),
            within(ty@, old(self).universe@),
            !old(self).solution().contains_key(id),
            free_of(old(self).solution(), ty@),
        ensures
            final(self).wf(),
            final(self).constraints@ == old(self).constraints@,
            final(self).universe@ == old(self).universe@,
            res is Ok <==> !occurs(ty@, id),
            res is Ok ==> final(self).bindings() == old(self).bindings().insert(id, ty@)
                && final(self).solution() == extend(old(self).solution(), id, ty@),
            res matches Err(e) ==> e@ == infinite_msg(id, ty@) && *final(self) == *old(self),
    {
        broadcast use vstd::std_specs::hash::group_hash_axioms;
        if self.occurs_check(id, &ty) {
            let mut msg = String::new();
            msg.append("Infinite type: T");
            write_u64(&mut msg, id);
            msg.append(" = ");
            write_type(&ty, &mut msg);
            assert(msg@ =~= infinite_msg(id, ty@));
            return Err(msg);
        }
        let ghost s0 = self.solution@;
        let ghost b0 = self.bindings();
        let ghost rk0 = self.rank@;
        let ghost tv = ty@;
        proof {
            if mentions(tv, id) {
                lemma_mentions_occurs(tv, id);
            }
        }
        let ghost s1 = extend(s0, id, tv);
        let ghost b1 = b0.insert(id, tv);
        let ghost rk1 = Map::new(
            |k: u64| b1.contains_key(k),
            |k: u64|
                if k == id {
                    0nat
                } else {
                    rk0[k] + 1
                },
        );
        self.substitution.insert(id, ty);
        self.solution = Ghost(s1);
        self.rank = Ghost(rk1);
        self.depth = Ghost(self.depth@ + 1);
        assert(self.bindings() =~= b1);
        assert(self.pending() == old(self).pending());
        proof {
            lemma_extend_idempotent(s0, id, tv);
            assert(s1.dom() =~= b1.dom());
            assert forall|k: u64| #[trigger] b1.contains_key(k) implies s1[k] == apply1(s1, b1[k]) by {
                lemma_compose(s0, id, tv, b1[k]);
                if k == id {
                    lemma_apply_free(s0, tv);
                    lemma_apply_free(single(id, tv), tv);
                }
            }
            assert forall|k: u64, v: u64|
                #![trigger mentions(b1[k], v)]
                b1.contains_key(k) && mentions(b1[k], v) && b1.contains_key(v) implies rk1[v]
                < rk1[k] by {
                if k == id {
                    assert(!s0.contains_key(v));
                } else if v != id {
                    assert(mentions(b0[k], v));
                }
            }
            assert forall|k: u64| #[trigger] s1.contains_key(k) implies self.universe@.contains(k)
                && within(s1[k], self.universe@) by {
                if k != id {
                    assert forall|v: u64| #[trigger] mentions(s1[k], v) implies self.universe@.contains(v) by {
                        lemma_apply_mentions(single(id, tv), s0[k], v);
                        let w = choose|w: u64| #[trigger] mentions(s0[k], w) && source(single(id, tv), w, v);
                        assert(within(s0[k], self.universe@));
                    }
                }
            }
        }
        assert(resolves(self.solution@, self.bindings()));
        assert(self.solution@.dom().finite());
        assert(forall|k: u64, v: u64|
            #![trigger mentions(self.bindings()[k], v)]
            self.bindings().contains_key(k) && mentions(self.bindings()[k], v) && self.bindings().contains_key(v) ==> self.rank@[v]
                < self.rank@[k]);
        assert(forall|k: u64|
            #[trigger] self.bindings().contains_key(k) ==> self.rank@.contains_key(k) && self.rank@[k]
                < self.depth@);
        assert(closed_in(self.solution@, self.universe@));
        assert(forall|i: int|
            0 <= i < self.pending().len() ==> within(#[trigger] self.pending()[i].0, self.universe@)
                && within(self.pending()[i].1, self.universe@));
        Ok(())
    }

    /// Solves the pending equations, latest first, until none is left or one cannot be
    /// solved; the equation that failed is dropped with those solved before it. The
    /// outcome is the one `solves_to` gives: the solution reached, with the bindings made
    /// before a failure kept, and the failing pair's message.
    pub fn solve(&mut self) -> (res: Result<(), String>)
        requires
            old(self).wf(),
        ensures
            final(self).wf(),
            refines(old(self).solution(), final(self).solution()),
            res is Ok ==> final(self).pending().len() == 0,
            res is Err ==> final(self).pending().len() < old(self).pending().len(),
            final(self).pending() == old(self).pending().take(final(self).pending().len() as int),
            forall|i: int|
                final(self).pending().len() + (if res is Ok {
                    0int
                } else {
                    1int
                }) <= i < old(self).pending().len() ==> apply1(
                    final(self).solution(),
                    (#[trigger] old(self).pending()[i]).0,
                ) == apply1(final(self).solution(), old(self).pending()[i].1),
            (forall|i: int|
                0 <= i < old(self).pending().len() ==> apply1(
                    old(self).solution(),
                    (#[trigger] old(self).pending()[i]).0,
                ) == apply1(old(self).solution(), old(self).pending()[i].1)) ==> res is Ok
                && final(self).solution() == old(self).solution(),
            solves_to(old(self).solution(), old(self).pending(), out_of(res, final(self).solution())),
    {
        let ghost p0 = self.pending();
        let ghost s0 = self.solution@;
        proof {
            lemma_refines_refl(s0);
        }
        while self.constraints.len() > 0
            invariant
                self.wf(),
                p0 == old(self).pending(),
                s0 == old(self).solution(),
                refines(s0, self.solution@),
                self.pending().len() <= p0.len(),
                self.pending() == p0.take(self.pending().len() as int),
                forall|i: int|
                    self.pending().len() <= i < p0.len() ==> apply1(self.solution@, (#[trigger] p0[i]).0)
                        == apply1(self.solution@, p0[i].1),
                (forall|i: int|
                    0 <= i < p0.len() ==> apply1(s0, (#[trigger] p0[i]).0) == apply1(s0, p0[i].1))
                    ==> self.solution@ == s0,
                forall|out: UnifyOut| #[trigger] solves_to(self.solution@, self.pending(), out) ==> solves_to(s0, p0, out),
            decreases self.constraints.len(),
        {
            let ghost before = self.pending();
            let ghost s1 = self.solution@;
            let ghost n = before.len() - 1;
            let (left, right) = self.constraints.pop().unwrap();
            assert(self.pending() =~= before.drop_last());
            assert(left@ == before[n].0 && right@ == before[n].1);
            assert(within(before[n].0, self.universe@) && within(before[n].1, self.universe@));
            assert forall|i: int|
                0 <= i < self.pending().len() implies within(#[trigger] self.pending()[i].0, self.universe@)
                && within(self.pending()[i].1, self.universe@) by {
                assert(self.pending()[i] == before[i]);
            }
            let r = self.unify(left, right);
            assert(self.pending() == before.drop_last());
            proof {
                lemma_refines_trans(s0, s1, self.solution@);
                assert(p0[n] == before[n]);
                assert forall|i: int|
                    self.pending().len() < i < p0.len() implies apply1(self.solution@, (#[trigger] p0[i]).0)
                    == apply1(self.solution@, p0[i].1) by {
                    lemma_refines_unifies(s1, self.solution@, p0[i].0, p0[i].1);
                }
                assert(self.pending() =~= p0.take(self.pending().len() as int));
            }
            proof {
                if forall|i: int|
                    0 <= i < p0.len() ==> apply1(s0, (#[trigger] p0[i]).0) == apply1(s0, p0[i].1) {
                    assert(apply1(s0, p0[n].0) == apply1(s0, p0[n].1));
                }
            }
            proof {
                let mid = out_of(r, self.solution@);
                assert(before.last() == (left@, right@));
                assert(unifies_to(s1, left@, right@, mid));
                if r is Err {
                    assert(solves_to(s1, before, mid));
                } else {
                    assert forall|out: UnifyOut| #[trigger] solves_to(self.solution@, self.pending(), out) implies solves_to(
                        s0,
                        p0,
                        out,
                    ) by {
                        assert(self.pending() == before.drop_last());
                        assert(solves_to(s1, before, out));
                    }
                }
            }
            if r.is_err() {
                return r;
            }
        }
        assert(solves_to(self.solution@, self.pending(), (self.solution@, None::<Seq<char>>)));
        Ok(())
    }

    /// `ty` with the substitution applied: every bound variable resolved.
    pub fn get_solution(&self, ty: Type) -> (r: Type)
        requires
            self.wf(),
        ensures
            r@ == apply1(self.solution(), ty@),
    {
        let ghost d = self.depth@;
        assert forall|v: u64|
            #[trigger] mentions(ty@, v) && self.bindings().contains_key(v) implies self.rank@[v]
            < d by {}
        self.apply_substitution(&ty, Ghost(d))
    }

    /// The error text for two types that cannot be unified.
    fn mismatch_text(a: &Type, b: &Type) -> (r: String)
        ensures
            r@ == mismatch_msg(a@, b@),
    {
        let mut msg = String::new();
        msg.append("Cannot unify ");
        write_type(a, &mut msg);
        msg.append(" with ");
        write_type(b, &mut msg);
        assert(msg@ =~= mismatch_msg(a@, b@));
        msg
    }

    /// Unifies two lists of types pair by pair, stopping at the first failure.
    fn unify_each(&mut self, a: &Vec<Type>, b: &Vec<Type>, Ghost(bound): Ghost<nat>) -> (res: Result<
        (),
        String,
    >)
        requires
            old(self).wf(),
            a.len() == b.len(),
            forall|j: int|
                0 <= j < a.len() ==> within(#[trigger] a@[j]@, old(self).universe@) && within(
                    b@[j]@,
                    old(self).universe@,
                ) && free_of(old(self).solution(), a@[j]@) && free_of(old(self).solution(), b@[j]@)
                    && size(a@[j]@) + size(b@[j]@) < bound,
        ensures
            final(self).wf(),
            final(self).constraints@ == old(self).constraints@,
            final(self).universe@ == old(self).universe@,
            refines(old(self).solution(), final(self).solution()),
            old(self).solution().dom() <= final(self).solution().dom(),
            final(self).solution().dom() == old(self).solution().dom() ==> *final(self) == *old(self),
            res is Ok ==> forall|j: int|
                0 <= j < a.len() ==> apply1(final(self).solution(), #[trigger] a@[j]@) == apply1(
                    final(self).solution(),
                    b@[j]@,
                ),
            each_to(old(self).solution(), tviews(a@), tviews(b@), out_of(res, final(self).solution())),
        decreases old(self).universe@.difference(old(self).solution().dom()).len(), bound, 0nat,
    {
        let ghost s0 = self.solution@;
        let ghost u = self.universe@;
        let ghost xs = tviews(a@);
        let ghost ys = tviews(b@);
        proof {
            lemma_refines_refl(s0);
            assert(xs.skip(0) =~= xs);
            assert(ys.skip(0) =~= ys);
        }
        let mut i: usize = 0;
        while i < a.len()
            invariant
                self.wf(),
                0 <= i <= a.len(),
                a.len() == b.len(),
                s0 == old(self).solution(),
                u == old(self).universe@,
                self.universe@ == u,
                self.constraints@ == old(self).constraints@,
                refines(s0, self.solution@),
                s0.dom() <= self.solution@.dom(),
                self.solution@.dom() == s0.dom() ==> *self == *old(self),
                forall|j: int|
                    0 <= j < a.len() ==> within(#[trigger] a@[j]@, u) && within(b@[j]@, u) && free_of(
                        s0,
                        a@[j]@,
                    ) && free_of(s0, b@[j]@) && size(a@[j]@) + size(b@[j]@) < bound,
                forall|j: int|
                    0 <= j < i ==> apply1(self.solution@, #[trigger] a@[j]@) == apply1(
                        self.solution@,
                        b@[j]@,
                    ),
                xs == tviews(a@),
                ys == tviews(b@),
                forall|out: UnifyOut|
                    #[trigger] each_to(self.solution@, xs.skip(i as int), ys.skip(i as int), out) ==> each_to(
                        s0,
                        xs,
                        ys,
                        out,
                    ),
            decreases a.len() - i,
        {
            let ghost s1 = self.solution@;
            let ghost e1 = *self;
            proof {
                lemma_tviews_index(a@, i as int);
                lemma_tviews_index(b@, i as int);
                assert(xs.skip(i as int)[0] == a@[i as int]@);
                assert(ys.skip(i as int)[0] == b@[i as int]@);
                assert(xs.skip(i as int).drop_first() =~= xs.skip(i + 1));
                assert(ys.skip(i as int).drop_first() =~= ys.skip(i + 1));
            }
            proof {
                assert(within(a@[i as int]@, u));
                if s1.dom() == s0.dom() {
                    lemma_apply_free(s0, a@[i as int]@);
                    lemma_apply_free(s0, b@[i as int]@);
                } else {
                    lemma_uncovered(u, s0.dom(), s1.dom());
                }
            }
            let r = self.unify(a[i].clone(), b[i].clone());
            proof {
                let o1 = out_of(r, self.solution@);
                let f = choose|f: nat| #[trigger] unify_fuel(s1, a@[i as int]@, b@[i as int]@, f) == Some(o1);
                if r is Err {
                    assert(each_fuel(s1, xs.skip(i as int), ys.skip(i as int), f + 1) == Some(o1));
                    assert(each_to(s1, xs.skip(i as int), ys.skip(i as int), o1));
                } else {
                    assert forall|out: UnifyOut|
                        #[trigger] each_to(self.solution@, xs.skip(i + 1), ys.skip(i + 1), out) implies each_to(
                            s0,
                            xs,
                            ys,
                            out,
                        ) by {
                        let g = choose|g: nat| #[trigger] each_fuel(self.solution@, xs.skip(i + 1), ys.skip(i + 1), g) == Some(out);
                        let h: nat = if f > g { f } else { g };
                        lemma_fuel_mono(s1, a@[i as int]@, b@[i as int]@, f, h);
                        lemma_each_mono(self.solution@, xs.skip(i + 1), ys.skip(i + 1), g, h);
                        assert(each_fuel(s1, xs.skip(i as int), ys.skip(i as int), h + 1) == Some(out));
                        assert(each_to(s1, xs.skip(i as int), ys.skip(i as int), out));
                    }
                }
            }
            if r.is_err() {
                proof {
                    lemma_refines_trans(s0, s1, self.solution@);
                    if self.solution@.dom() == s0.dom() {
                        assert(s1.dom() == s0.dom());
                    }
                }
                return r;
            }
            proof {
                lemma_refines_trans(s0, s1, self.solution@);
                if self.solution@.dom() == s0.dom() {
                    assert(s1.dom() =~= s0.dom());
                }
                assert forall|j: int|
                    0 <= j < i + 1 implies apply1(self.solution@, #[trigger] a@[j]@) == apply1(
                    self.solution@,
                    b@[j]@,
                ) by {
                    if j < i {
                        lemma_refines_unifies(s1, self.solution@, a@[j]@, b@[j]@);
                    }
                }
            }
            i += 1;
        }
        proof {
            let sn = self.solution@;
            assert(xs.skip(a.len() as int).len() == 0);
            assert(each_fuel(sn, xs.skip(a.len() as int), ys.skip(a.len() as int), 1) == Some((sn, None::<Seq<char>>)));
            assert(each_to(sn, xs.skip(a.len() as int), ys.skip(a.len() as int), (sn, None::<Seq<char>>)));
        }
        Ok(())
    }

    /// Makes `left` and `right` equal under the substitution, binding variables as it
    /// goes; stops at the first pair that cannot be made equal.
    fn unify(&mut self, left: Type, right: Type) -> (res: Result<(), String>)
        requires
            old(self).wf(),
            within(left@, old(self).universe@),
            within(right@, old(self).universe@),
        ensures
            final(self).wf(),
            final(self).constraints@ == old(self).constraints@,
            final(self).universe@ == old(self).universe@,
            refines(old(self).solution(), final(self).solution()),
            old(self).solution().dom() <= final(self).solution().dom(),
            final(self).solution().dom() == old(self).solution().dom() ==> *final(self) == *old(self),
            res is Ok ==> apply1(final(self).solution(), left@) == apply1(
                final(self).solution(),
                right@,
            ),
            unify_outcome(*old(self), *final(self), left@, right@, res),
            unifies_to(old(self).solution(), left@, right@, out_of(res, final(self).solution())),
        decreases old(self).universe@.difference(old(self).solution().dom()).len(), size(
            apply1(old(self).solution(), left@),
        ) + size(apply1(old(self).solution(), right@)), 3nat,
    {
        let ghost s0 = self.solution@;
        let ghost u = self.universe@;
        let ghost d = self.depth@;
        assert forall|v: u64|
            #[trigger] mentions(left@, v) && self.bindings().contains_key(v) implies self.rank@[v]
            < d by {}
        assert forall|v: u64|
            #[trigger] mentions(right@, v) && self.bindings().contains_key(v) implies self.rank@[v]
            < d by {}
        let l = self.apply_substitution(&left, Ghost(d));
        let r = self.apply_substitution(&right, Ghost(d));
        let ghost lg = l@;
        let ghost rg = r@;
        proof {
            self.lemma_resolved_within(left@);
            self.lemma_resolved_within(right@);
            lemma_apply_twice(s0, left@);
            lemma_apply_twice(s0, right@);
        }
        let res = self.unify_resolved(l, r);
        proof {
            self.lemma_lift(s0, left@, right@, lg, rg);
            let o = out_of(res, self.solution@);
            let f = choose|f: nat| #[trigger] resolved_fuel(s0, lg, rg, f) == Some(o);
            assert(unify_fuel(s0, left@, right@, f + 1) == Some(o));
        }
        res
    }

    /// A type resolved by the solution has its variables in the universe and none bound.
    proof fn lemma_resolved_within(&self, t: SType)
        requires
            self.wf(),
            within(t, self.universe@),
        ensures
            within(apply1(self.solution@, t), self.universe@),
            free_of(self.solution@, apply1(self.solution@, t)),
    {
        let s0 = self.solution@;
        let u = self.universe@;
        lemma_resolved_free(s0, t);
        assert forall|v: u64| #[trigger] mentions(apply1(s0, t), v) implies u.contains(v) by {
            lemma_apply_mentions(s0, t, v);
            let w = choose|w: u64| #[trigger] mentions(t, w) && source(s0, w, v);
            if s0.contains_key(w) {
                assert(within(s0[w], u));
            }
        }
    }

    /// Unification of two types that the solution leaves as they are.
    #[verifier::rlimit(60)]
    fn unify_resolved(&mut self, l: Type, r: Type) -> (res: Result<(), String>)
        requires
            old(self).wf(),
            within(l@, old(self).universe@),
            within(r@, old(self).universe@),
            free_of(old(self).solution(), l@),
            free_of(old(self).solution(), r@),
        ensures
            final(self).wf(),
            final(self).constraints@ == old(self).constraints@,
            final(self).universe@ == old(self).universe@,
            refines(old(self).solution(), final(self).solution()),
            old(self).solution().dom() <= final(self).solution().dom(),
            final(self).solution().dom() == old(self).solution().dom() ==> *final(self) == *old(self),
            res is Ok ==> apply1(final(self).solution(), l@) == apply1(final(self).solution(), r@),
            unify_outcome(*old(self), *final(self), l@, r@, res),
            resolved_to(old(self).solution(), l@, r@, out_of(res, final(self).solution())),
        decreases old(self).universe@.difference(old(self).solution().dom()).len(), size(l@) + size(
            r@,
        ), 2nat,
    {
        let ghost s0 = self.solution@;
        let ghost u = self.universe@;
        let ghost lg = l@;
        let ghost rg = r@;
        proof {
            lemma_refines_refl(s0);
            lemma_apply_free(s0, lg);
            lemma_apply_free(s0, rg);
        }
        if type_eq(&l, &r) {
            assert(resolved_fuel(s0, lg, rg, 0) == Some((s0, None::<Seq<char>>)));
            return Ok(());
        }
        let lv: Option<u64> = match &l {
            Type::Var(id) => Some(*id),
            _ => None,
        };
        let rv: Option<u64> = match &r {
            Type::Var(id) => Some(*id),
            _ => None,
        };
        if let Some(id) = lv {
            proof {
                assert(mentions(lg, id));
                lemma_refines_extend(s0, id, rg);
            }
            let res = self.bind(id, r);
            proof {
                if res is Ok {
                    self.lemma_bound_unifies(s0, id, rg, lg, rg, lg, rg);
                }
                assert(resolved_fuel(s0, lg, rg, 0) == Some(out_of(res, self.solution@)));
            }
            return res;
        }
        if let Some(id) = rv {
            proof {
                assert(mentions(rg, id));
                lemma_refines_extend(s0, id, lg);
            }
            let res = self.bind(id, l);
            proof {
                if res is Ok {
                    self.lemma_bound_unifies(s0, id, lg, rg, lg, rg, lg);
                }
                assert(resolved_fuel(s0, lg, rg, 0) == Some(out_of(res, self.solution@)));
            }
            return res;
        }
        proof {
            lemma_children_smaller(lg);
            lemma_children_smaller(rg);
        }
        match (l, r) {
            (Type::List(a), Type::List(b)) => {
                proof {
                    lemma_part(s0, u, lg, a@);
                    lemma_part(s0, u, rg, b@);
                }
                let ghost ag = a@;
                let ghost bg = b@;
                let res = self.unify_resolved(*a, *b);
                proof {
                    let o = out_of(res, self.solution@);
                    let f = choose|f: nat| #[trigger] resolved_fuel(s0, ag, bg, f) == Some(o);
                    assert(resolved_fuel(s0, lg, rg, f + 1) == Some(o));
                }
                res
            },
            (Type::SetOf(a), Type::SetOf(b)) => {
                proof {
                    lemma_part(s0, u, lg, a@);
                    lemma_part(s0, u, rg, b@);
                }
                let ghost ag = a@;
                let ghost bg = b@;
                let res = self.unify_resolved(*a, *b);
                proof {
                    let o = out_of(res, self.solution@);
                    let f = choose|f: nat| #[trigger] resolved_fuel(s0, ag, bg, f) == Some(o);
                    assert(resolved_fuel(s0, lg, rg, f + 1) == Some(o));
                }
                res
            },
            (Type::Dict(k1, v1), Type::Dict(k2, v2)) => {
                let ghost dk1 = k1@;
                let ghost dv1 = v1@;
                let ghost dk2 = k2@;
                let ghost dv2 = v2@;
                let xs = vec![*k1, *v1];
                let ys = vec![*k2, *v2];
                proof {
                    assert(lg == SType::Dict(Box::new(dk1), Box::new(dv1)));
                    assert(rg == SType::Dict(Box::new(dk2), Box::new(dv2)));
                    assert(tviews(xs@) =~= seq![dk1, dv1]);
                    assert(tviews(ys@) =~= seq![dk2, dv2]);
                }
                proof {
                    lemma_pairs(s0, u, lg, rg, xs@, ys@);
                }
                let res = self.unify_each(&xs, &ys, Ghost(size(lg) + size(rg)));
                proof {
                    if res is Ok {
                        assert(apply1(self.solution@, xs@[0]@) == apply1(self.solution@, ys@[0]@));
                        assert(apply1(self.solution@, xs@[1]@) == apply1(self.solution@, ys@[1]@));
                    }
                    let o = out_of(res, self.solution@);
                    let f = choose|f: nat| #[trigger] each_fuel(s0, tviews(xs@), tviews(ys@), f) == Some(o);
                    assert(resolved_fuel(s0, lg, rg, f) == each_fuel(s0, tviews(xs@), tviews(ys@), f));
                }
                res
            },
            (Type::Tuple(a), Type::Tuple(b)) => {
                if a.len() == b.len() {
                    proof {
                        lemma_pairs(s0, u, lg, rg, a@, b@);
                    }
                    let ghost av = tviews(a@);
                    let ghost bv = tviews(b@);
                    let res = self.unify_each(&a, &b, Ghost(size(lg) + size(rg)));
                    proof {
                        if res is Ok {
                            lemma_each_agree(self.solution@, a@, b@);
                        }
                        let o = out_of(res, self.solution@);
                        let f = choose|f: nat| #[trigger] each_fuel(s0, av, bv, f) == Some(o);
                        assert(resolved_fuel(s0, lg, rg, f) == each_fuel(s0, av, bv, f));
                    }
                    res
                } else {
                    assert(tviews(a@).len() != tviews(b@).len());
                    assert(lg == SType::Tuple(tviews(a@)) && rg == SType::Tuple(tviews(b@)));
                    let lt = Type::Tuple(a);
                    let rt = Type::Tuple(b);
                    let m = Self::mismatch_text(&lt, &rt);
                    assert(resolved_fuel(s0, lg, rg, 0) == Some((s0, Some(m@))));
                    Err(m)
                }
            },
            (Type::Function(p1, r1), Type::Function(p2, r2)) => {
                if p1.len() == p2.len() {
                    let ghost ps1 = p1@;
                    let ghost ps2 = p2@;
                    let mut xs = p1;
                    xs.push(*r1);
                    let mut ys = p2;
                    ys.push(*r2);
                    proof {
                        assert(xs@.drop_last() =~= ps1);
                        assert(ys@.drop_last() =~= ps2);
                        lemma_pairs(s0, u, lg, rg, xs@, ys@);
                    }
                    let res = self.unify_each(&xs, &ys, Ghost(size(lg) + size(rg)));
                    proof {
                        let o = out_of(res, self.solution@);
                        let f = choose|f: nat| #[trigger] each_fuel(s0, tviews(xs@), tviews(ys@), f) == Some(o);
                        assert(tviews(xs@) =~= tviews(ps1).push(xs@[ps1.len() as int]@));
                        assert(tviews(ys@) =~= tviews(ps2).push(ys@[ps2.len() as int]@));
                        assert(resolved_fuel(s0, lg, rg, f) == each_fuel(s0, tviews(xs@), tviews(ys@), f));
                        if res is Ok {
                            assert(xs@.subrange(0, ps1.len() as int) =~= ps1);
                            assert(ys@.subrange(0, ps2.len() as int) =~= ps2);
                            lemma_each_agree(self.solution@, ps1, ps2);
                            assert(apply1(self.solution@, xs@[ps1.len() as int]@) == apply1(
                                self.solution@,
                                ys@[ps2.len() as int]@,
                            ));
                        }
                    }
                    res
                } else {
                    assert(tviews(p1@).len() != tviews(p2@).len());
                    let lt = Type::Function(p1, r1);
                    let rt = Type::Function(p2, r2);
                    assert(lt@ == lg && rt@ == rg);
                    let m = Self::mismatch_text(&lt, &rt);
                    assert(resolved_fuel(s0, lg, rg, 0) == Some((s0, Some(m@))));
                    Err(m)
                }
            },
            (a, b) => {
                let m = Self::mismatch_text(&a, &b);
                assert(resolved_fuel(s0, lg, rg, 0) == Some((s0, Some(m@))));
                Err(m)
            },
        }
    }

    /// Unifying the resolved types unifies the types they were resolved from.
    proof fn lemma_lift(&self, s0: Map<u64, SType>, left: SType, right: SType, lg: SType, rg: SType)
        requires
            refines(s0, self.solution@),
            lg == apply1(s0, left),
            rg == apply1(s0, right),
        ensures
            apply1(self.solution@, lg) == apply1(self.solution@, rg) ==> apply1(self.solution@, left)
                == apply1(self.solution@, right),
    {
        reveal(refines);
        assert(apply1(self.solution@, left) == apply1(self.solution@, lg));
        assert(apply1(self.solution@, right) == apply1(self.solution@, rg));
    }

    /// After binding the variable `id` that one side resolved to, both sides agree.
    proof fn lemma_bound_unifies(
        &self,
        s0: Map<u64, SType>,
        id: u64,
        t: SType,
        var_side: SType,
        other_side: SType,
        vg: SType,
        tg: SType,
    )
        requires
            self.solution@ == extend(s0, id, t),
            !s0.contains_key(id),
            vg == SType::Var(id),
            vg == apply1(s0, var_side),
            tg == t,
            t == apply1(s0, other_side),
            free_of(s0, t),
            !occurs(t, id),
            refines(s0, self.solution@),
        ensures
            apply1(self.solution@, var_side) == apply1(self.solution@, other_side),
    {
        reveal(refines);
        let sf = self.solution@;
        if mentions(t, id) {
            lemma_mentions_occurs(t, id);
        }
        assert(apply1(sf, var_side) == apply1(sf, vg));
        assert(apply1(sf, other_side) == apply1(sf, t));
        lemma_compose(s0, id, t, t);
        lemma_apply_free(s0, t);
        assert forall|v: u64| #[trigger] mentions(t, v) implies !single(id, t).contains_key(v) by {}
        lemma_apply_free(single(id, t), t);
    }
}

impl Default for InferenceEngine {
    fn default() -> (r: Self)
        ensures
            r.wf(),
            r.pending() == Seq::<(SType, SType)>::empty(),
            r.bindings() == Map::<u64, SType>::empty(),
            r.solution() == Map::<u64, SType>::empty(),
    {
        InferenceEngine::new()
    }
}

/// Resolving a type twice gives what resolving it once gave: the solution leaves no bound
/// variable where substitution looks.
pub proof fn lemma_solution_stable(e: &InferenceEngine, t: SType)
    requires
        e.wf(),
    ensures
        apply1(e.solution(), apply1(e.solution(), t)) == apply1(e.solution(), t),
{
    lemma_apply_twice(e.solution(), t);
}

/// `xs` are the members that unification pairs up in `t`: a tuple's elements, a dict's
/// key and value, a function's parameters followed by its result.
pub open spec fn members_of(t: SType, xs: Seq<Type>) -> bool {
    match t {
        SType::Tuple(ts) => ts == tviews(xs),
        SType::Dict(k, w) => xs.len() == 2 && *k == xs[0]@ && *w == xs[1]@,
        SType::Function(ps, r) => xs.len() >= 1 && ps == tviews(xs.drop_last()) && *r == xs.last()@,
        _ => false,
    }
}

/// Each member is smaller than the type and mentions only what the type mentions.
proof fn lemma_members(t: SType, xs: Seq<Type>)
    requires
        members_of(t, xs),
    ensures
        forall|j: int| 0 <= j < xs.len() ==> size(#[trigger] xs[j]@) < size(t),
        forall|j: int, v: u64|
            0 <= j < xs.len() && #[trigger] mentions(xs[j]@, v) ==> mentions(t, v),
{
    match t {
        SType::Tuple(ts) => {
            assert forall|j: int| 0 <= j < xs.len() implies size(#[trigger] xs[j]@) < size(t) by {
                lemma_tviews_index(xs, j);
                lemma_size_elem(ts, j);
            }
            assert forall|j: int, v: u64|
                0 <= j < xs.len() && #[trigger] mentions(xs[j]@, v) implies mentions(t, v) by {
                lemma_tviews_index(xs, j);
                lemma_mentions_any(ts, v);
            }
        },
        SType::Function(ps, r) => {
            let init = xs.drop_last();
            assert forall|j: int| 0 <= j < xs.len() implies size(#[trigger] xs[j]@) < size(t) by {
                if j < xs.len() - 1 {
                    lemma_tviews_index(init, j);
                    lemma_size_elem(ps, j);
                }
            }
            assert forall|j: int, v: u64|
                0 <= j < xs.len() && #[trigger] mentions(xs[j]@, v) implies mentions(t, v) by {
                if j < xs.len() - 1 {
                    lemma_tviews_index(init, j);
                    lemma_mentions_any(ps, v);
                }
            }
        },
        _ => {},
    }
}

/// The members of two resolved types inherit what the unification of the types needs.
proof fn lemma_pairs(s: Map<u64, SType>, u: Set<u64>, lg: SType, rg: SType, xs: Seq<Type>, ys: Seq<Type>)
    requires
        within(lg, u),
        within(rg, u),
        free_of(s, lg),
        free_of(s, rg),
        xs.len() == ys.len(),
        members_of(lg, xs),
        members_of(rg, ys),
    ensures
        forall|j: int|
            0 <= j < xs.len() ==> within(#[trigger] xs[j]@, u) && within(ys[j]@, u) && free_of(
                s,
                xs[j]@,
            ) && free_of(s, ys[j]@) && size(xs[j]@) + size(ys[j]@) < size(lg) + size(rg),
{
    lemma_members(lg, xs);
    lemma_members(rg, ys);
    assert forall|j: int| 0 <= j < xs.len() implies within(#[trigger] xs[j]@, u) && within(ys[j]@, u)
        && free_of(s, xs[j]@) && free_of(s, ys[j]@) && size(xs[j]@) + size(ys[j]@) < size(lg) + size(
        rg,
    ) by {
        assert(size(xs[j]@) < size(lg));
        assert(size(ys[j]@) < size(rg));
    }
}

/// A part of a resolved type inherits what the unification of the type needs.
proof fn lemma_part(s: Map<u64, SType>, u: Set<u64>, whole: SType, part: SType)
    requires
        within(whole, u),
        free_of(s, whole),
        forall|v: u64| #[trigger] mentions(part, v) ==> mentions(whole, v),
    ensures
        within(part, u),
        free_of(s, part),
{
}

/// Lists whose members agree pairwise after substitution agree after substitution.
proof fn lemma_each_agree(s: Map<u64, SType>, a: Seq<Type>, b: Seq<Type>)
    requires
        a.len() == b.len(),
        forall|j: int| 0 <= j < a.len() ==> apply1(s, #[trigger] a[j]@) == apply1(s, b[j]@),
    ensures
        apply1_each(s, tviews(a)) == apply1_each(s, tviews(b)),
{
    let x = apply1_each(s, tviews(a));
    let y = apply1_each(s, tviews(b));
    assert forall|j: int| 0 <= j < a.len() implies x[j] == y[j] by {
        lemma_tviews_index(a, j);
        lemma_tviews_index(b, j);
        assert(apply1(s, a[j]@) == apply1(s, b[j]@));
    }
    assert(x =~= y);
}

/// What one step of unification does: equal sides need nothing; a variable side is bound
/// to the other side unless that contains it; sides of different shapes are refused.
pub open spec fn unify_outcome(
    before: InferenceEngine,
    after: InferenceEngine,
    left: SType,
    right: SType,
    res: Result<(), String>,
) -> bool {
    let l = apply1(before.solution(), left);
    let r = apply1(before.solution(), right);
    let (id, t) = binding_of(l, r);
    &&& l == r ==> res is Ok && after == before
    &&& l != r && (var_of(l) is Some || var_of(r) is Some) ==> {
        &&& (res is Ok <==> !occurs(t, id))
        &&& res is Ok ==> after.bindings() == before.bindings().insert(id, t) && after.solution()
            == extend(before.solution(), id, t)
        &&& res matches Err(e) ==> e@ == infinite_msg(id, t) && after == before
    }
    &&& l != r && var_of(l) is None && var_of(r) is None && !same_shape(l, r) ==> {
        &&& res matches Err(e) && e@ == mismatch_msg(l, r)
        &&& after == before
    }
}

/// The outcome of unification as the model gives it: the solution after it, and the
/// message of the failure, if it failed.
pub type UnifyOut = (Map<u64, SType>, Option<Seq<char>>);

/// Binding `id` to `t`: refused when `t` contains `id`.
pub open spec fn bind_out(s: Map<u64, SType>, id: u64, t: SType) -> UnifyOut {
    if occurs(t, id) {
        (s, Some(infinite_msg(id, t)))
    } else {
        (extend(s, id, t), None)
    }
}

/// Unification of two types under `s`, with at most `fuel` nested steps: both sides are
/// resolved first, then unified as resolved types. `None` when the fuel runs out.
pub open spec fn unify_fuel(s: Map<u64, SType>, l: SType, r: SType, fuel: nat) -> Option<UnifyOut>
    decreases fuel, 0nat,
{
    if fuel == 0 {
        None
    } else {
        resolved_fuel(s, apply1(s, l), apply1(s, r), (fuel - 1) as nat)
    }
}

/// Unification of two resolved types: equal types agree, a variable on either side is
/// bound to the other side, lists, sets, dicts, tuples and functions of one shape are
/// unified part by part, and anything else is a mismatch.
pub open spec fn resolved_fuel(s: Map<u64, SType>, l: SType, r: SType, fuel: nat) -> Option<UnifyOut>
    decreases fuel, 2nat,
{
    if l == r {
        Some((s, None))
    } else if var_of(l) is Some {
        Some(bind_out(s, var_of(l)->0, r))
    } else if var_of(r) is Some {
        Some(bind_out(s, var_of(r)->0, l))
    } else {
        match (l, r) {
            (SType::List(a), SType::List(b)) => if fuel == 0 {
                None
            } else {
                resolved_fuel(s, *a, *b, (fuel - 1) as nat)
            },
            (SType::SetOf(a), SType::SetOf(b)) => if fuel == 0 {
                None
            } else {
                resolved_fuel(s, *a, *b, (fuel - 1) as nat)
            },
            (SType::Dict(k1, v1), SType::Dict(k2, v2)) => each_fuel(s, seq![*k1, *v1], seq![*k2, *v2], fuel),
            (SType::Tuple(a), SType::Tuple(b)) => if a.len() == b.len() {
                each_fuel(s, a, b, fuel)
            } else {
                Some((s, Some(mismatch_msg(l, r))))
            },
            (SType::Function(p1, r1), SType::Function(p2, r2)) => if p1.len() == p2.len() {
                each_fuel(s, p1.push(*r1), p2.push(*r2), fuel)
            } else {
                Some((s, Some(mismatch_msg(l, r))))
            },
            _ => Some((s, Some(mismatch_msg(l, r)))),
        }
    }
}

/// Unification of two lists pair by pair, from the front, stopping at the first failure.
pub open spec fn each_fuel(s: Map<u64, SType>, xs: Seq<SType>, ys: Seq<SType>, fuel: nat) -> Option<UnifyOut>
    decreases fuel, 1nat,
{
    if fuel == 0 {
        None
    } else if xs.len() == 0 || ys.len() == 0 {
        Some((s, None))
    } else {
        match unify_fuel(s, xs[0], ys[0], (fuel - 1) as nat) {
            None => None,
            Some((s1, Some(m))) => Some((s1, Some(m))),
            Some((s1, None)) => each_fuel(s1, xs.drop_first(), ys.drop_first(), (fuel - 1) as nat),
        }
    }
}

/// Unifying `l` and `r` under `s` ends with `out`.
pub open spec fn unifies_to(s: Map<u64, SType>, l: SType, r: SType, out: UnifyOut) -> bool {
    exists|f: nat| #[trigger] unify_fuel(s, l, r, f) == Some(out)
}

pub open spec fn resolved_to(s: Map<u64, SType>, l: SType, r: SType, out: UnifyOut) -> bool {
    exists|f: nat| #[trigger] resolved_fuel(s, l, r, f) == Some(out)
}

pub open spec fn each_to(s: Map<u64, SType>, xs: Seq<SType>, ys: Seq<SType>, out: UnifyOut) -> bool {
    exists|f: nat| #[trigger] each_fuel(s, xs, ys, f) == Some(out)
}

/// More fuel changes nothing once unification has ended.
pub proof fn lemma_fuel_mono(s: Map<u64, SType>, l: SType, r: SType, f: nat, g: nat)
    requires
        f <= g,
    ensures
        unify_fuel(s, l, r, f) is Some ==> unify_fuel(s, l, r, g) == unify_fuel(s, l, r, f),
        resolved_fuel(s, l, r, f) is Some ==> resolved_fuel(s, l, r, g) == resolved_fuel(s, l, r, f),
    decreases f, 1nat,
{
    if f > 0 {
        lemma_fuel_mono(s, apply1(s, l), apply1(s, r), (f - 1) as nat, (g - 1) as nat);
    }
    if !(l == r || var_of(l) is Some || var_of(r) is Some) {
        match (l, r) {
            (SType::List(a), SType::List(b)) => {
                if f > 0 {
                    lemma_fuel_mono(s, *a, *b, (f - 1) as nat, (g - 1) as nat);
                }
            },
            (SType::SetOf(a), SType::SetOf(b)) => {
                if f > 0 {
                    lemma_fuel_mono(s, *a, *b, (f - 1) as nat, (g - 1) as nat);
                }
            },
            (SType::Dict(k1, v1), SType::Dict(k2, v2)) => {
                lemma_each_mono(s, seq![*k1, *v1], seq![*k2, *v2], f, g);
            },
            (SType::Tuple(a), SType::Tuple(b)) => {
                lemma_each_mono(s, a, b, f, g);
            },
            (SType::Function(p1, r1), SType::Function(p2, r2)) => {
                lemma_each_mono(s, p1.push(*r1), p2.push(*r2), f, g);
            },
            _ => {},
        }
    }
}

pub proof fn lemma_each_mono(s: Map<u64, SType>, xs: Seq<SType>, ys: Seq<SType>, f: nat, g: nat)
    requires
        f <= g,
    ensures
        each_fuel(s, xs, ys, f) is Some ==> each_fuel(s, xs, ys, g) == each_fuel(s, xs, ys, f),
    decreases f, 0nat,
{
    if f > 0 && xs.len() > 0 && ys.len() > 0 {
        lemma_fuel_mono(s, xs[0], ys[0], (f - 1) as nat, (g - 1) as nat);
        match unify_fuel(s, xs[0], ys[0], (f - 1) as nat) {
            Some((s1, None)) => {
                lemma_each_mono(s1, xs.drop_first(), ys.drop_first(), (f - 1) as nat, (g - 1) as nat);
            },
            _ => {},
        }
    }
}

/// Unifying two list types is unifying their element types, and so is unifying two set
/// types: the outcome, solution and failure alike, is the same. So `list[T0]` and
/// `list[int]` unify exactly when `T0` and `int` do.
pub proof fn lemma_unify_congruent(s: Map<u64, SType>, a: SType, b: SType, o: UnifyOut)
    ensures
        unifies_to(s, SType::List(Box::new(a)), SType::List(Box::new(b)), o) <==> unifies_to(s, a, b, o),
        unifies_to(s, SType::SetOf(Box::new(a)), SType::SetOf(Box::new(b)), o) <==> unifies_to(s, a, b, o),
{
    let la = SType::List(Box::new(a));
    let lb = SType::List(Box::new(b));
    let sa = SType::SetOf(Box::new(a));
    let sb = SType::SetOf(Box::new(b));
    assert forall|f: nat| f >= 1 implies #[trigger] unify_fuel(s, la, lb, f + 1) == unify_fuel(s, a, b, f)
        && unify_fuel(s, sa, sb, f + 1) == unify_fuel(s, a, b, f) by {
        assert(apply1(s, la) == SType::List(Box::new(apply1(s, a))));
        assert(apply1(s, sa) == SType::SetOf(Box::new(apply1(s, a))));
    }
    if unifies_to(s, a, b, o) {
        let f = choose|f: nat| #[trigger] unify_fuel(s, a, b, f) == Some(o);
        assert(f >= 1);
        assert(unify_fuel(s, la, lb, f + 1) == Some(o));
        assert(unify_fuel(s, sa, sb, f + 1) == Some(o));
    }
    if unifies_to(s, la, lb, o) {
        let f = choose|f: nat| #[trigger] unify_fuel(s, la, lb, f) == Some(o);
        if f >= 2 {
            assert(unify_fuel(s, la, lb, ((f - 1) as nat) + 1) == unify_fuel(s, a, b, (f - 1) as nat));
            assert(unify_fuel(s, a, b, (f - 1) as nat) == Some(o));
        } else {
            assert(apply1(s, a) == apply1(s, b));
            assert(unify_fuel(s, a, b, 1) == Some(o));
        }
    }
    if unifies_to(s, sa, sb, o) {
        let f = choose|f: nat| #[trigger] unify_fuel(s, sa, sb, f) == Some(o);
        if f >= 2 {
            assert(unify_fuel(s, sa, sb, ((f - 1) as nat) + 1) == unify_fuel(s, a, b, (f - 1) as nat));
            assert(unify_fuel(s, a, b, (f - 1) as nat) == Some(o));
        } else {
            assert(apply1(s, a) == apply1(s, b));
            assert(unify_fuel(s, a, b, 1) == Some(o));
        }
    }
}

/// A variable that the solution leaves free unifies with any type that, resolved, does
/// not contain it: unification then succeeds.
pub proof fn lemma_unify_free_var(s: Map<u64, SType>, v: u64, t: SType)
    requires
        !s.contains_key(v),
        !occurs(apply1(s, t), v),
    ensures
        exists|o: UnifyOut| #[trigger] unifies_to(s, SType::Var(v), t, o) && o.1 is None,
{
    let o = unify_fuel(s, SType::Var(v), t, 1).unwrap();
    assert(apply1(s, SType::Var(v)) == SType::Var(v));
    assert(unify_fuel(s, SType::Var(v), t, 1) == Some(o));
    assert(unifies_to(s, SType::Var(v), t, o));
}

/// Resolved tuples and functions of one shape unify part by part, and dicts key then
/// value; tuples or functions of different lengths, and types of different kinds that
/// are not variables, never unify.
pub proof fn lemma_resolved_parts(s: Map<u64, SType>, l: SType, r: SType, o: UnifyOut)
    requires
        l != r,
        var_of(l) is None,
        var_of(r) is None,
    ensures
        (l matches SType::Tuple(a) && r matches SType::Tuple(b) && a.len() == b.len()) ==> (resolved_to(s, l, r, o)
            <==> each_to(s, l->Tuple_0, r->Tuple_0, o)),
        (l matches SType::Function(p1, r1) && r matches SType::Function(p2, r2) && p1.len() == p2.len()) ==> (
        resolved_to(s, l, r, o) <==> each_to(s, l->Function_0.push(*l->Function_1), r->Function_0.push(*r->Function_1), o)),
        (l matches SType::Dict(k1, v1) && r matches SType::Dict(k2, v2)) ==> (resolved_to(s, l, r, o) <==> each_to(
            s,
            seq![*l->Dict_0, *l->Dict_1],
            seq![*r->Dict_0, *r->Dict_1],
            o,
        )),
        !same_shape(l, r) ==> (resolved_to(s, l, r, o) <==> o == (s, Some(mismatch_msg(l, r)))),
{
    if resolved_to(s, l, r, o) {
        let f = choose|f: nat| #[trigger] resolved_fuel(s, l, r, f) == Some(o);
        if l is Tuple && r is Tuple && l->Tuple_0.len() == r->Tuple_0.len() {
            assert(each_fuel(s, l->Tuple_0, r->Tuple_0, f) == Some(o));
        }
        if l is Function && r is Function && l->Function_0.len() == r->Function_0.len() {
            assert(each_fuel(s, l->Function_0.push(*l->Function_1), r->Function_0.push(*r->Function_1), f) == Some(o));
        }
        if l is Dict && r is Dict {
            assert(each_fuel(s, seq![*l->Dict_0, *l->Dict_1], seq![*r->Dict_0, *r->Dict_1], f) == Some(o));
        }
    }
    if l is Tuple && r is Tuple && l->Tuple_0.len() == r->Tuple_0.len() && each_to(s, l->Tuple_0, r->Tuple_0, o) {
        let f = choose|f: nat| #[trigger] each_fuel(s, l->Tuple_0, r->Tuple_0, f) == Some(o);
        assert(resolved_fuel(s, l, r, f) == Some(o));
    }
    if l is Function && r is Function && l->Function_0.len() == r->Function_0.len() && each_to(
        s,
        l->Function_0.push(*l->Function_1),
        r->Function_0.push(*r->Function_1),
        o,
    ) {
        let xs = l->Function_0.push(*l->Function_1);
        let ys = r->Function_0.push(*r->Function_1);
        let f = choose|f: nat| #[trigger] each_fuel(s, xs, ys, f) == Some(o);
        assert(resolved_fuel(s, l, r, f) == Some(o));
    }
    if l is Dict && r is Dict {
        let xs = seq![*l->Dict_0, *l->Dict_1];
        let ys = seq![*r->Dict_0, *r->Dict_1];
        if each_to(s, xs, ys, o) {
            let f = choose|f: nat| #[trigger] each_fuel(s, xs, ys, f) == Some(o);
            assert(resolved_fuel(s, l, r, f) == Some(o));
        }
    }
    if !same_shape(l, r) && o == (s, Some(mismatch_msg(l, r))) {
        assert(resolved_fuel(s, l, r, 0) == Some(o));
    }
}

/// Unification has one outcome.
pub proof fn lemma_unify_deterministic(s: Map<u64, SType>, l: SType, r: SType, a: UnifyOut, b: UnifyOut)
    requires
        unifies_to(s, l, r, a),
        unifies_to(s, l, r, b),
    ensures
        a == b,
{
    let f = choose|f: nat| #[trigger] unify_fuel(s, l, r, f) == Some(a);
    let g = choose|g: nat| #[trigger] unify_fuel(s, l, r, g) == Some(b);
    if f <= g {
        lemma_fuel_mono(s, l, r, f, g);
    } else {
        lemma_fuel_mono(s, l, r, g, f);
    }
}

/// Solving pending equations, the last first, from the solution `s`, ends with `out`:
/// the solution reached and the message of the equation that failed, if one did.
pub open spec fn solves_to(s: Map<u64, SType>, pending: Seq<(SType, SType)>, out: UnifyOut) -> bool
    decreases pending.len(),
{
    if pending.len() == 0 {
        out == (s, None::<Seq<char>>)
    } else {
        exists|mid: UnifyOut|
            #[trigger] unifies_to(s, pending.last().0, pending.last().1, mid) && if mid.1 is Some {
                out == mid
            } else {
                solves_to(mid.0, pending.drop_last(), out)
            }
    }
}

/// Solving has one outcome.
pub proof fn lemma_solve_deterministic(s: Map<u64, SType>, pending: Seq<(SType, SType)>, a: UnifyOut, b: UnifyOut)
    requires
        solves_to(s, pending, a),
        solves_to(s, pending, b),
    ensures
        a == b,
    decreases pending.len(),
{
    if pending.len() > 0 {
        let ma = choose|mid: UnifyOut|
            #[trigger] unifies_to(s, pending.last().0, pending.last().1, mid) && if mid.1 is Some {
                a == mid
            } else {
                solves_to(mid.0, pending.drop_last(), a)
            };
        let mb = choose|mid: UnifyOut|
            #[trigger] unifies_to(s, pending.last().0, pending.last().1, mid) && if mid.1 is Some {
                b == mid
            } else {
                solves_to(mid.0, pending.drop_last(), b)
            };
        lemma_unify_deterministic(s, pending.last().0, pending.last().1, ma, mb);
        if ma.1 is None {
            lemma_solve_deterministic(ma.0, pending.drop_last(), a, b);
        }
    }
}

/// The outcome a result and a solution stand for.
pub open spec fn out_of(res: Result<(), String>, s: Map<u64, SType>) -> UnifyOut {
    match res {
        Ok(_) => (s, None),
        Err(m) => (s, Some(m@)),
    }
}

} // verus!
