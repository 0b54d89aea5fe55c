//! Subtyping and the type constructors built on it (unions, intersections).
use vstd::prelude::*;
use crate::types::{
    Effect, EffectSet, Predicate, Type, SType, SEffect, tviews, lemma_tviews_index, size,
    children_smaller, lemma_children_smaller,
};
use crate::equality::{type_eq, dep_eq, tparams_eq, lemma_view_tag};
use crate::ops::{effects_subset, pred_implies};

verus! {

/// The subtype relation of the type system, on models.
pub open spec fn subtype(a: SType, b: SType) -> bool
    decreases size(a) + size(b),
    via subtype_decreases
{
    if b is Any || a is Never || a == b {
        true
    } else {
        match a {
            SType::Union(ts) => forall|i: int| 0 <= i < ts.len() ==> subtype(#[trigger] ts[i], b),
            _ => match b {
            SType::Union(ts) => exists|i: int| 0 <= i < ts.len() && subtype(a, #[trigger] ts[i]),
            _ => match a {
                SType::Intersection(ts) => exists|i: int|
                    0 <= i < ts.len() && subtype(#[trigger] ts[i], b),
                _ => match (a, b) {
                    (SType::List(x), SType::List(y)) => subtype(*x, *y),
                    (SType::SetOf(x), SType::SetOf(y)) => subtype(*x, *y),
                    (SType::Dict(k1, v1), SType::Dict(k2, v2)) => subtype(*k1, *k2) && subtype(
                        *v1,
                        *v2,
                    ),
                    (SType::Tuple(p), SType::Tuple(q)) => p.len() == q.len() && forall|i: int|
                        0 <= i < p.len() ==> subtype(#[trigger] p[i], q[i]),
                    (SType::Function(p1, r1), SType::Function(p2, r2)) => p1.len() == p2.len()
                        && (forall|i: int| 0 <= i < p1.len() ==> subtype(p2[i], #[trigger] p1[i]))
                        && subtype(*r1, *r2),
                    (SType::Effect(t1, e1), SType::Effect(t2, e2)) => subtype(*t1, *t2)
                        && effects_subset(e1, e2),
                    (_, SType::Effect(inner, _)) => subtype(a, *inner),
                    (SType::Refinement(t1, p1), SType::Refinement(t2, p2)) => subtype(*t1, *t2)
                        && pred_implies(p1, p2),
                    (SType::Refinement(t, _), _) => subtype(*t, b),
                    (_, SType::Refinement(inner, _)) => subtype(a, *inner),
                    (SType::Dependent(t1, c1), SType::Dependent(t2, c2)) => subtype(*t1, *t2) && c1
                        == c2,
                    (SType::Dependent(t, _), _) => subtype(*t, b),
                    (SType::Nominal(n1, _), SType::Nominal(n2, _)) => n1 == n2,
                    (SType::Nominal(_, inner), _) => b == SType::Class(Seq::empty()) && subtype(
                        *inner,
                        b,
                    ),
                    (SType::Recursive(_, t1), SType::Recursive(_, t2)) => subtype(*t1, *t2),
                    (SType::HigherKinded(n1, p1), SType::HigherKinded(n2, p2)) => n1 == n2 && p1
                        == p2,
                    _ => false,
                },
            },
            },
        }
    }
}

#[via_fn]
proof fn subtype_decreases(a: SType, b: SType) {
    lemma_children_smaller(a);
    lemma_children_smaller(b);
}

/// Containers are covariant in their parts: a list, set or dict type is a subtype of
/// another of the same kind exactly when each part is, and a tuple type is a subtype of
/// another exactly when they have the same length and each element is a subtype of the
/// element at the same position.
pub proof fn lemma_subtype_containers(a: SType, b: SType, p: Seq<SType>, q: Seq<SType>, c: SType, d: SType)
    ensures
        subtype(SType::List(Box::new(a)), SType::List(Box::new(b))) <==> subtype(a, b),
        subtype(SType::SetOf(Box::new(a)), SType::SetOf(Box::new(b))) <==> subtype(a, b),
        subtype(SType::Dict(Box::new(a), Box::new(c)), SType::Dict(Box::new(b), Box::new(d))) <==> subtype(a, b)
            && subtype(c, d),
        subtype(SType::Tuple(p), SType::Tuple(q)) <==> p.len() == q.len() && forall|i: int|
            0 <= i < p.len() ==> subtype(#[trigger] p[i], q[i]),
{
    reveal_with_fuel(subtype, 2);
    if p == q {
        assert forall|i: int| 0 <= i < p.len() implies subtype(#[trigger] p[i], q[i]) by {
            assert(p[i] == q[i]);
        }
    }
    if a == b && c == d {
        assert(subtype(a, b) && subtype(c, d));
    }
}

/// Functions are contravariant in their parameters and covariant in their result: a
/// function type is a subtype of another exactly when both take as many parameters, each
/// parameter of the second is a subtype of the matching one of the first, and the first
/// result is a subtype of the second.
pub proof fn lemma_subtype_functions(p1: Seq<SType>, r1: SType, p2: Seq<SType>, r2: SType)
    ensures
        subtype(SType::Function(p1, Box::new(r1)), SType::Function(p2, Box::new(r2))) <==> p1.len() == p2.len()
            && (forall|i: int| 0 <= i < p1.len() ==> subtype(p2[i], #[trigger] p1[i])) && subtype(r1, r2),
{
    reveal_with_fuel(subtype, 2);
    if p1 == p2 && r1 == r2 {
        assert forall|i: int| 0 <= i < p1.len() implies subtype(p2[i], #[trigger] p1[i]) by {
            assert(p1[i] == p2[i]);
        }
    }
}

/// Among the primitive types subtyping is equality, below `Any` and above `Never`: two
/// different primitives are never subtypes of one another.
pub proof fn lemma_subtype_primitives(a: SType, b: SType)
    requires
        is_primitive(a),
        is_primitive(b),
    ensures
        subtype(a, b) <==> a == b || b is Any || a is Never,
{
}

/// The primitive types.
pub open spec fn is_primitive(t: SType) -> bool {
    t is Any || t is Never || t is NoneType || t is Bool || t is Int || t is Float || t is Str || t is Bytes
}

impl Type {
    /// Whether `self` is a subtype of `other`.
    pub fn is_subtype(&self, other: &Type) -> (r: bool)
        ensures
            r == subtype(self@, other@),
        decreases size(self@) + size(other@),
    {
        proof {
            lemma_view_tag(*self);
            lemma_view_tag(*other);
            lemma_children_smaller(self@);
            lemma_children_smaller(other@);
        }
        if let Type::Any = other {
            return true;
        }
        if let Type::Never = self {
            return true;
        }
        if type_eq(self, other) {
            return true;
        }
        if let Type::Union(ts) = self {
            let mut i: usize = 0;
            while i < ts.len()
                invariant
                    0 <= i <= ts.len(),
                    self@ == SType::Union(tviews(ts@)),
                    !(other@ is Any),
                    self@ != other@,
                    children_smaller(self@),
                    forall|j: int| 0 <= j < i ==> subtype(#[trigger] tviews(ts@)[j], other@),
                decreases ts.len() - i,
            {
                proof {
                    lemma_tviews_index(ts@, i as int);
                }
                if !ts[i].is_subtype(other) {
                    return false;
                }
                i += 1;
            }
            return true;
        }
        if let Type::Union(ts) = other {
            let mut i: usize = 0;
            while i < ts.len()
                invariant
                    0 <= i <= ts.len(),
                    other@ == SType::Union(tviews(ts@)),
                    !(self@ is Never),
                    !(self@ is Union),
                    self@ != other@,
                    children_smaller(other@),
                    forall|j: int| 0 <= j < i ==> !subtype(self@, #[trigger] tviews(ts@)[j]),
                decreases ts.len() - i,
            {
                proof {
                    lemma_tviews_index(ts@, i as int);
                }
                if self.is_subtype(&ts[i]) {
                    return true;
                }
                i += 1;
            }
            return false;
        }
        if let Type::Intersection(ts) = self {
            let mut i: usize = 0;
            while i < ts.len()
                invariant
                    0 <= i <= ts.len(),
                    self@ == SType::Intersection(tviews(ts@)),
                    !(other@ is Any),
                    !(other@ is Union),
                    self@ != other@,
                    children_smaller(self@),
                    forall|j: int| 0 <= j < i ==> !subtype(#[trigger] tviews(ts@)[j], other@),
                decreases ts.len() - i,
            {
                proof {
                    lemma_tviews_index(ts@, i as int);
                }
                if ts[i].is_subtype(other) {
                    return true;
                }
                i += 1;
            }
            return false;
        }
        match (self, other) {
            (Type::List(x), Type::List(y)) => x.is_subtype(y),
            (Type::SetOf(x), Type::SetOf(y)) => x.is_subtype(y),
            (Type::Dict(k1, v1), Type::Dict(k2, v2)) => k1.is_subtype(k2) && v1.is_subtype(v2),
            (Type::Tuple(p), Type::Tuple(q)) => {
                if p.len() != q.len() {
                    assert(tviews(p@).len() != tviews(q@).len());
                    return false;
                }
                let mut i: usize = 0;
                while i < p.len()
                    invariant
                        0 <= i <= p.len(),
                        p.len() == q.len(),
                        self@ == SType::Tuple(tviews(p@)),
                        other@ == SType::Tuple(tviews(q@)),
                        !(self@ is Never),
                        !(other@ is Any),
                        self@ != other@,
                        children_smaller(self@),
                        children_smaller(other@),
                        forall|j: int|
                            0 <= j < i ==> subtype(#[trigger] tviews(p@)[j], tviews(q@)[j]),
                    decreases p.len() - i,
                {
                    proof {
                        lemma_tviews_index(p@, i as int);
                        lemma_tviews_index(q@, i as int);
                    }
                    if !p[i].is_subtype(&q[i]) {
                        return false;
                    }
                    i += 1;
                }
                true
            },
            (Type::Function(p1, r1), Type::Function(p2, r2)) => {
                if p1.len() != p2.len() {
                    assert(tviews(p1@).len() != tviews(p2@).len());
                    return false;
                }
                let mut i: usize = 0;
                while i < p1.len()
                    invariant
                        0 <= i <= p1.len(),
                        p1.len() == p2.len(),
                        self@ == SType::Function(tviews(p1@), Box::new(r1@)),
                        other@ == SType::Function(tviews(p2@), Box::new(r2@)),
                        !(self@ is Never),
                        !(other@ is Any),
                        self@ != other@,
                        children_smaller(self@),
                        children_smaller(other@),
                        forall|j: int|
                            0 <= j < i ==> subtype(tviews(p2@)[j], #[trigger] tviews(p1@)[j]),
                    decreases p1.len() - i,
                {
                    proof {
                        lemma_tviews_index(p1@, i as int);
                        lemma_tviews_index(p2@, i as int);
                    }
                    if !p2[i].is_subtype(&p1[i]) {
                        return false;
                    }
                    i += 1;
                }
                r1.is_subtype(r2)
            },
            (Type::Effect(t1, e1), Type::Effect(t2, e2)) => t1.is_subtype(t2) && e1.is_subset(e2),
            (_, Type::Effect(inner, _)) => self.is_subtype(inner),
            (Type::Refinement(t1, p1), Type::Refinement(t2, p2)) => t1.is_subtype(t2)
                && p1.implies(p2),
            (Type::Refinement(t, _), _) => t.is_subtype(other),
            (_, Type::Refinement(inner, _)) => self.is_subtype(inner),
            (Type::Dependent(t1, c1), Type::Dependent(t2, c2)) => t1.is_subtype(t2) && dep_eq(c1, c2),
            (Type::Dependent(t, _), _) => t.is_subtype(other),
            (Type::Nominal(n1, _), Type::Nominal(n2, _)) => *n1 == *n2,
            (Type::Nominal(_, inner), Type::Class(name)) => {
                if name.as_str().is_empty() {
                    proof {
                        assert(name@ =~= Seq::<char>::empty());
                        assert(other@ == SType::Class(Seq::empty()));
                    }
                    inner.is_subtype(other)
                } else {
                    proof {
                        assert(name@.len() != 0);
                    }
                    false
                }
            },
            (Type::Recursive(_, t1), Type::Recursive(_, t2)) => t1.is_subtype(t2),
            (Type::HigherKinded(n1, p1), Type::HigherKinded(n2, p2)) => *n1 == *n2 && tparams_eq(
                p1,
                p2,
            ),
            _ => false,
        }
    }
}


/// The members of a union after one level of flattening: nested unions are spliced in
/// and `Never` members are dropped.
pub open spec fn flatten(ts: Seq<SType>) -> Seq<SType>
    decreases ts.len(),
{
    if ts.len() == 0 {
        Seq::empty()
    } else {
        let prev = flatten(ts.drop_last());
        match ts.last() {
            SType::Union(inner) => prev + inner,
            SType::Never => prev,
            t => prev.push(t),
        }
    }
}

/// `t` is a subtype of some member of `r`.
pub open spec fn below_some(t: SType, r: Seq<SType>) -> bool {
    exists|i: int| 0 <= i < r.len() && subtype(t, #[trigger] r[i])
}

pub open spec fn not_below(x: SType, t: SType) -> bool {
    !subtype(x, t)
}

/// One step of union simplification: a member below one already kept is dropped,
/// otherwise the kept members below it are removed and it is added.
pub open spec fn absorb_step(r: Seq<SType>, t: SType) -> Seq<SType> {
    if below_some(t, r) {
        r
    } else {
        r.filter(|x: SType| not_below(x, t)).push(t)
    }
}

pub open spec fn absorb(s: Seq<SType>) -> Seq<SType>
    decreases s.len(),
{
    if s.len() == 0 {
        Seq::empty()
    } else {
        absorb_step(absorb(s.drop_last()), s.last())
    }
}

/// No member of `r` is a subtype of another member at another position.
pub open spec fn unrelated(r: Seq<SType>) -> bool {
    forall|i: int, j: int|
        0 <= i < r.len() && 0 <= j < r.len() && i != j ==> !subtype(#[trigger] r[i], #[trigger] r[j])
}

proof fn lemma_filter_unrelated(r: Seq<SType>, pred: spec_fn(SType) -> bool)
    requires
        unrelated(r),
    ensures
        unrelated(r.filter(pred)),
        forall|i: int|
            0 <= i < r.filter(pred).len() ==> r.contains(#[trigger] r.filter(pred)[i]) && pred(
                r.filter(pred)[i],
            ),
    decreases r.len(),
{
    reveal(Seq::filter);
    if r.len() > 0 {
        let d = r.drop_last();
        assert(unrelated(d)) by {
            assert forall|i: int, j: int|
                0 <= i < d.len() && 0 <= j < d.len() && i != j implies !subtype(#[trigger] d[i], #[trigger] d[j]) by {
                assert(d[i] == r[i] && d[j] == r[j]);
            }
        }
        lemma_filter_unrelated(d, pred);
        let q0 = d.filter(pred);
        let l = r.last();
        assert forall|i: int| 0 <= i < q0.len() implies r.contains(#[trigger] q0[i]) by {
            let k = choose|k: int| 0 <= k < d.len() && d[k] == q0[i];
            assert(r[k] == q0[i]);
        }
        if pred(l) {
            let q = q0.push(l);
            assert(r.filter(pred) == q);
            assert forall|i: int, j: int|
                0 <= i < q.len() && 0 <= j < q.len() && i != j implies !subtype(#[trigger] q[i], #[trigger] q[j]) by {
                if i < q0.len() && j < q0.len() {
                    assert(q[i] == q0[i] && q[j] == q0[j]);
                } else if i < q0.len() {
                    assert(q[i] == q0[i]);
                    let k = choose|k: int| 0 <= k < d.len() && d[k] == q0[i];
                    assert(r[k] == q[i] && r[r.len() - 1] == q[j]);
                } else {
                    assert(q[j] == q0[j]);
                    let k = choose|k: int| 0 <= k < d.len() && d[k] == q0[j];
                    assert(r[k] == q[j] && r[r.len() - 1] == q[i]);
                }
            }
            assert forall|i: int| 0 <= i < q.len() implies r.contains(#[trigger] q[i]) && pred(q[i]) by {
                if i < q0.len() {
                    assert(q[i] == q0[i]);
                } else {
                    assert(r[r.len() - 1] == q[i]);
                }
            }
        }
    }
}

/// What simplification keeps: members of the input, none a subtype of another.
proof fn lemma_absorb(s: Seq<SType>)
    ensures
        unrelated(absorb(s)),
        forall|i: int| 0 <= i < absorb(s).len() ==> s.contains(#[trigger] absorb(s)[i]),
        s.len() > 0 ==> absorb(s).len() > 0,
    decreases s.len(),
{
    if s.len() > 0 {
        let d = s.drop_last();
        let t = s.last();
        lemma_absorb(d);
        let r0 = absorb(d);
        assert forall|i: int| 0 <= i < r0.len() implies s.contains(#[trigger] r0[i]) by {
            let k = choose|k: int| 0 <= k < d.len() && d[k] == r0[i];
            assert(s[k] == r0[i]);
        }
        if !below_some(t, r0) {
            let pred = |x: SType| not_below(x, t);
            lemma_filter_unrelated(r0, pred);
            let f = r0.filter(pred);
            let r = f.push(t);
            assert(absorb(s) == r);
            assert forall|i: int, j: int|
                0 <= i < r.len() && 0 <= j < r.len() && i != j implies !subtype(#[trigger] r[i], #[trigger] r[j]) by {
                if i < f.len() && j < f.len() {
                    assert(r[i] == f[i] && r[j] == f[j]);
                } else if i < f.len() {
                    assert(r[i] == f[i]);
                    assert(not_below(f[i], t));
                } else {
                    assert(r[j] == f[j]);
                    let k = choose|k: int| 0 <= k < r0.len() && r0[k] == f[j];
                    if subtype(t, f[j]) {
                        assert(subtype(t, r0[k]));
                        assert(below_some(t, r0));
                    }
                }
            }
            assert forall|i: int| 0 <= i < r.len() implies s.contains(#[trigger] r[i]) by {
                if i < f.len() {
                    assert(r[i] == f[i]);
                    let k = choose|k: int| 0 <= k < r0.len() && r0[k] == f[i];
                    assert(s.contains(r0[k]));
                } else {
                    assert(s[s.len() - 1] == r[i]);
                }
            }
        }
    }
}

/// A union keeps only members of the flattened input (nested unions spliced in, `Never`
/// dropped): with no member left it is `Never`, one member stands for itself, and from
/// two members on the result is one of them or a union of at least two of them, none a
/// subtype of another.
pub proof fn lemma_union_members(ts: Seq<SType>)
    ensures
        flatten(ts).len() == 0 ==> union_of(ts) == SType::Never,
        flatten(ts).len() == 1 ==> union_of(ts) == flatten(ts)[0],
        flatten(ts).len() >= 2 ==> (flatten(ts).contains(union_of(ts)) || (union_of(ts) matches SType::Union(
            rs,
        ) && rs.len() >= 2 && unrelated(rs) && forall|i: int|
            0 <= i < rs.len() ==> flatten(ts).contains(#[trigger] rs[i]))),
{
    let f = flatten(ts);
    if f.len() > 1 {
        lemma_absorb(f);
        let r = absorb(f);
        if r.len() == 1 {
            assert(f.contains(r[0]));
        }
    }
}

/// The model of `Type::union`.
pub open spec fn union_of(ts: Seq<SType>) -> SType {
    let f = flatten(ts);
    if f.len() == 0 {
        SType::Never
    } else if f.len() == 1 {
        f[0]
    } else {
        let r = absorb(f);
        if r.len() == 0 {
            SType::Never
        } else if r.len() == 1 {
            r[0]
        } else {
            SType::Union(r)
        }
    }
}

pub open spec fn not_any(t: SType) -> bool {
    !(t is Any)
}

/// The members that are not `Any`.
pub open spec fn drop_any(s: Seq<SType>) -> Seq<SType> {
    s.filter(|t: SType| not_any(t))
}

/// Number of members from which the intersection of singleton member sets is computed.
pub const LARGE_INTERSECTION: usize = 10;

/// The model of `Type::intersection`: `Any` members are dropped; from ten members on, the
/// intersection of the members' singleton sets is taken, which is the member itself when
/// all members are equal and empty (`Never`) otherwise.
pub open spec fn intersection_of(ts: Seq<SType>) -> SType {
    let r = drop_any(ts);
    if r.len() == 0 {
        SType::Any
    } else if r.len() == 1 {
        r[0]
    } else if r.len() >= LARGE_INTERSECTION {
        if forall|i: int| 0 <= i < r.len() ==> #[trigger] r[i] == r[0] {
            r[0]
        } else {
            SType::Never
        }
    } else {
        SType::Intersection(r)
    }
}

/// Whether `t` is a subtype of some member of `r`.
fn below_some_exec(t: &Type, r: &Vec<Type>) -> (b: bool)
    ensures
        b == below_some(t@, tviews(r@)),
{
    let mut i: usize = 0;
    while i < r.len()
        invariant
            0 <= i <= r.len(),
            forall|j: int| 0 <= j < i ==> !subtype(t@, #[trigger] tviews(r@)[j]),
        decreases r.len() - i,
    {
        proof {
            lemma_tviews_index(r@, i as int);
        }
        if t.is_subtype(&r[i]) {
            return true;
        }
        i += 1;
    }
    false
}

/// One step of union simplification on a list of types.
fn absorb_step_exec(r: Vec<Type>, t: Type) -> (out: Vec<Type>)
    ensures
        tviews(out@) == absorb_step(tviews(r@), t@),
{
    if below_some_exec(&t, &r) {
        return r;
    }
    let ghost rv = tviews(r@);
    let mut kept: Vec<Type> = Vec::new();
    let mut i: usize = 0;
    while i < r.len()
        invariant
            0 <= i <= r.len(),
            rv == tviews(r@),
            tviews(kept@) == rv.take(i as int).filter(|x: SType| not_below(x, t@)),
        decreases r.len() - i,
    {
        reveal(Seq::filter);
        proof {
            lemma_tviews_index(r@, i as int);
        }
        assert(rv.take(i + 1).drop_last() =~= rv.take(i as int));
        if !r[i].is_subtype(&t) {
            let ghost before = kept@;
            kept.push(r[i].clone());
            assert(tviews(kept@) =~= tviews(before).push(rv[i as int]));
        }
        i += 1;
    }
    assert(rv.take(r.len() as int) =~= rv);
    let ghost before = kept@;
    let ghost tv = t@;
    kept.push(t);
    assert(tviews(kept@) =~= tviews(before).push(tv));
    kept
}

impl Type {
    /// The type with one effect attached.
    pub fn with_effect(self, effect: Effect) -> (r: Type)
        ensures
            r@ == SType::Effect(Box::new(self@), seq![effect@]),
    {
        Type::Effect(Box::new(self), EffectSet::single(effect))
    }

    /// The type refined by a predicate.
    pub fn refine(self, predicate: Predicate) -> (r: Type)
        ensures
            r@ == SType::Refinement(Box::new(self@), predicate@),
    {
        Type::Refinement(Box::new(self), predicate)
    }

    /// A nominal wrapper around a type.
    pub fn nominal(name: String, inner: Type) -> (r: Type)
        ensures
            r@ == SType::Nominal(name@, Box::new(inner@)),
    {
        Type::Nominal(name, Box::new(inner))
    }

    /// The union of types: nested unions are flattened, `Never` is dropped, members
    /// that are subtypes of other members are removed.
    pub fn union(types: Vec<Type>) -> (r: Type)
        ensures
            r@ == union_of(tviews(types@)),
            flatten(tviews(types@)).len() == 0 ==> r@ == SType::Never,
            flatten(tviews(types@)).len() == 1 ==> r@ == flatten(tviews(types@))[0],
            flatten(tviews(types@)).len() >= 2 ==> flatten(tviews(types@)).contains(r@) || (r@ matches SType::Union(
                rs,
            ) && rs.len() >= 2 && unrelated(rs) && forall|i: int|
                0 <= i < rs.len() ==> flatten(tviews(types@)).contains(#[trigger] rs[i])),
    {
        let ghost tv = tviews(types@);
        proof {
            lemma_union_members(tv);
        }
        let mut simplified: Vec<Type> = Vec::new();
        let mut i: usize = 0;
        while i < types.len()
            invariant
                0 <= i <= types.len(),
                tv == tviews(types@),
                tviews(simplified@) == flatten(tv.take(i as int)),
            decreases types.len() - i,
        {
            proof {
                lemma_tviews_index(types@, i as int);
            }
            assert(tv.take(i + 1).drop_last() =~= tv.take(i as int));
            assert(tv.take(i + 1).last() == types@[i as int]@);
            match &types[i] {
                Type::Union(inner) => {
                    let ghost before = simplified@;
                    let mut j: usize = 0;
                    while j < inner.len()
                        invariant
                            0 <= j <= inner.len(),
                            tviews(simplified@) == tviews(before) + tviews(inner@).take(j as int),
                        decreases inner.len() - j,
                    {
                        proof {
                            lemma_tviews_index(inner@, j as int);
                        }
                        let ghost mid = simplified@;
                        simplified.push(inner[j].clone());
                        assert(tviews(simplified@) =~= tviews(mid).push(inner@[j as int]@));
                        assert(tviews(inner@).take(j + 1) =~= tviews(inner@).take(j as int).push(inner@[j as int]@));
                        assert(tviews(simplified@) =~= tviews(before) + tviews(inner@).take(j + 1));
                        j += 1;
                    }
                    assert(tviews(inner@).take(inner.len() as int) =~= tviews(inner@));
                },
                Type::Never => {},
                t => {
                    let ghost before = simplified@;
                    simplified.push(t.clone());
                    assert(tviews(simplified@) =~= tviews(before).push(t@));
                },
            }
            i += 1;
        }
        assert(tv.take(types.len() as int) =~= tv);
        if simplified.len() == 0 {
            return Type::Never;
        }
        if simplified.len() == 1 {
            proof {
                lemma_tviews_index(simplified@, 0);
            }
            return simplified[0].clone();
        }
        let ghost f = tviews(simplified@);
        let mut result: Vec<Type> = Vec::new();
        let mut k: usize = 0;
        while k < simplified.len()
            invariant
                0 <= k <= simplified.len(),
                f == tviews(simplified@),
                tviews(result@) == absorb(f.take(k as int)),
            decreases simplified.len() - k,
        {
            proof {
                lemma_tviews_index(simplified@, k as int);
            }
            assert(f.take(k + 1).drop_last() =~= f.take(k as int));
            result = absorb_step_exec(result, simplified[k].clone());
            k += 1;
        }
        assert(f.take(simplified.len() as int) =~= f);
        if result.len() == 0 {
            return Type::Never;
        }
        if result.len() == 1 {
            proof {
                lemma_tviews_index(result@, 0);
            }
            return result[0].clone();
        }
        Type::Union(result)
    }

    /// The intersection of types: `Any` members are dropped; an empty intersection is
    /// `Any` and a single member stands for itself; from ten members on the members'
    /// singleton sets are intersected.
    pub fn intersection(types: Vec<Type>) -> (r: Type)
        ensures
            r@ == intersection_of(tviews(types@)),
    {
        let ghost tv = tviews(types@);
        let mut result: Vec<Type> = Vec::new();
        let mut i: usize = 0;
        while i < types.len()
            invariant
                0 <= i <= types.len(),
                tv == tviews(types@),
                tviews(result@) == drop_any(tv.take(i as int)),
            decreases types.len() - i,
        {
            reveal(Seq::filter);
            proof {
                lemma_tviews_index(types@, i as int);
                lemma_view_tag(types@[i as int]);
            }
            assert(tv.take(i + 1).drop_last() =~= tv.take(i as int));
            let is_any = match &types[i] {
                Type::Any => true,
                _ => false,
            };
            if !is_any {
                let ghost before = result@;
                result.push(types[i].clone());
                assert(tviews(result@) =~= tviews(before).push(tv[i as int]));
            }
            i += 1;
        }
        assert(tv.take(types.len() as int) =~= tv);
        let ghost r = tviews(result@);
        if result.len() == 0 {
            return Type::Any;
        }
        if result.len() == 1 {
            proof {
                lemma_tviews_index(result@, 0);
            }
            return result[0].clone();
        }
        if result.len() >= LARGE_INTERSECTION {
            let mut j: usize = 1;
            while j < result.len()
                invariant
                    1 <= j <= result.len(),
                    r == tviews(result@),
                    r == drop_any(tviews(types@)),
                    r.len() >= LARGE_INTERSECTION,
                    forall|m: int| 0 <= m < j ==> #[trigger] r[m] == r[0],
                decreases result.len() - j,
            {
                proof {
                    lemma_tviews_index(result@, j as int);
                    lemma_tviews_index(result@, 0);
                }
                if !type_eq(&result[j], &result[0]) {
                    assert(r[j as int] != r[0]);
                    assert(!(forall|m: int| 0 <= m < r.len() ==> #[trigger] r[m] == r[0]));
                    return Type::Never;
                }
                j += 1;
            }
            proof {
                lemma_tviews_index(result@, 0);
            }
            return result[0].clone();
        }
        Type::Intersection(result)
    }
}

} // verus!
