//! Operations on effect sets and refinement predicates.
use vstd::prelude::*;
use crate::types::{Effect, EffectSet, SEffect, effects_view, Predicate, SPredicate, preds_view};
use crate::equality::{effect_eq, pred_eq};
use crate::clone::clone_preds;

verus! {

/// The effects of `a` followed by each effect of `b` that is not yet present.
pub open spec fn add_all(a: Seq<SEffect>, b: Seq<SEffect>) -> Seq<SEffect>
    decreases b.len(),
{
    if b.len() == 0 {
        a
    } else {
        let acc = add_all(a, b.drop_last());
        if acc.contains(b.last()) {
            acc
        } else {
            acc.push(b.last())
        }
    }
}

pub open spec fn not_pure(e: SEffect) -> bool {
    e != SEffect::Pure
}

/// `Pure` is dropped from a list that holds more than one effect.
pub open spec fn strip_pure(s: Seq<SEffect>) -> Seq<SEffect> {
    if s.len() > 1 {
        s.filter(|e: SEffect| not_pure(e))
    } else {
        s
    }
}

/// The model of the union of two effect sets.
pub open spec fn effects_union(a: Seq<SEffect>, b: Seq<SEffect>) -> Seq<SEffect> {
    strip_pure(add_all(a, b))
}

/// Adding the effects of `b` keeps those of `a` and adds those of `b`, each once.
proof fn lemma_add_all(a: Seq<SEffect>, b: Seq<SEffect>)
    requires
        a.no_duplicates(),
    ensures
        add_all(a, b).no_duplicates(),
        forall|x: SEffect| #[trigger] add_all(a, b).contains(x) <==> a.contains(x) || b.contains(x),
    decreases b.len(),
{
    if b.len() > 0 {
        lemma_add_all(a, b.drop_last());
        let acc = add_all(a, b.drop_last());
        assert forall|x: SEffect| b.contains(x) <==> b.drop_last().contains(x) || x == b.last() by {
            if b.contains(x) {
                let j = choose|j: int| 0 <= j < b.len() && b[j] == x;
                if j < b.len() - 1 {
                    assert(b.drop_last()[j] == x);
                }
            }
            if b.drop_last().contains(x) {
                let j = choose|j: int| 0 <= j < b.len() - 1 && b.drop_last()[j] == x;
                assert(b[j] == x);
            }
            if x == b.last() {
                assert(b[b.len() - 1] == x);
            }
        }
        if !acc.contains(b.last()) {
            assert forall|x: SEffect| #[trigger] acc.push(b.last()).contains(x) <==> acc.contains(x) || x == b.last() by {
                if acc.push(b.last()).contains(x) {
                    let j = choose|j: int| 0 <= j < acc.len() + 1 && acc.push(b.last())[j] == x;
                    if j < acc.len() {
                        assert(acc[j] == x);
                    }
                }
                if acc.contains(x) {
                    let j = choose|j: int| 0 <= j < acc.len() && acc[j] == x;
                    assert(acc.push(b.last())[j] == x);
                }
                if x == b.last() {
                    assert(acc.push(b.last())[acc.len() as int] == x);
                }
            }
            assert forall|i: int, j: int| 0 <= i < j < acc.len() + 1 implies acc.push(b.last())[i] != acc.push(
                b.last(),
            )[j] by {
                if j == acc.len() {
                    assert(acc.contains(acc[i]));
                }
            }
        }
    }
}

proof fn lemma_filter_distinct(s: Seq<SEffect>, pred: spec_fn(SEffect) -> bool)
    requires
        s.no_duplicates(),
    ensures
        s.filter(pred).no_duplicates(),
        forall|x: SEffect| #[trigger] s.filter(pred).contains(x) ==> s.contains(x),
    decreases s.len(),
{
    reveal(Seq::filter);
    if s.len() > 0 {
        let d = s.drop_last();
        assert(d.no_duplicates()) by {
            assert forall|i: int, j: int| 0 <= i < d.len() && 0 <= j < d.len() && i != j implies d[i] != d[j] by {
                assert(d[i] == s[i] && d[j] == s[j]);
            }
        }
        lemma_filter_distinct(d, pred);
        let f = d.filter(pred);
        assert forall|x: SEffect| #[trigger] f.contains(x) implies s.contains(x) by {
            let k = choose|k: int| 0 <= k < d.len() && d[k] == x;
            assert(s[k] == x);
        }
        if pred(s.last()) {
            let g = f.push(s.last());
            assert(s.filter(pred) == g);
            assert forall|x: SEffect| #[trigger] g.contains(x) implies s.contains(x) by {
                let k = choose|k: int| 0 <= k < g.len() && g[k] == x;
                if k < f.len() {
                    assert(f[k] == x);
                    assert(f.contains(x));
                } else {
                    assert(s[s.len() - 1] == x);
                }
            }
            assert forall|i: int, j: int| 0 <= i < g.len() && 0 <= j < g.len() && i != j implies g[i] != g[j] by {
                if i < f.len() && j < f.len() {
                    assert(g[i] == f[i] && g[j] == f[j]);
                } else if i < f.len() {
                    assert(f.contains(f[i]));
                    let k = choose|k: int| 0 <= k < d.len() && d[k] == f[i];
                    assert(s[k] == g[i] && s[s.len() - 1] == g[j]);
                } else {
                    assert(f.contains(f[j]));
                    let k = choose|k: int| 0 <= k < d.len() && d[k] == f[j];
                    assert(s[k] == g[j] && s[s.len() - 1] == g[i]);
                }
            }
        }
    }
}

/// A list without repetitions that holds no effect but `Pure` is pure.
proof fn lemma_only_pure(s: Seq<SEffect>)
    requires
        s.no_duplicates(),
        forall|x: SEffect| x != SEffect::Pure ==> !s.contains(x),
    ensures
        effects_pure(s),
{
    if s.len() >= 2 {
        assert(s.contains(s[0]) && s.contains(s[1]));
        assert(s[0] != s[1]);
    } else if s.len() == 1 {
        assert(s.contains(s[0]));
        assert(s =~= seq![SEffect::Pure]);
    }
}

/// The union of two effect sets: an effect other than `Pure` is in it exactly when it
/// is in one of them, no effect occurs twice when none did in the first, `Pure` stays
/// only alone, and the union is pure exactly when both sets are.
pub proof fn lemma_effects_union(a: Seq<SEffect>, b: Seq<SEffect>)
    requires
        a.no_duplicates(),
    ensures
        forall|x: SEffect| x != SEffect::Pure ==> (#[trigger] effects_union(a, b).contains(x) <==> a.contains(x)
            || b.contains(x)),
        effects_union(a, b).contains(SEffect::Pure) ==> effects_union(a, b).len() == 1,
        effects_union(a, b).no_duplicates(),
        b.no_duplicates() ==> (effects_pure(effects_union(a, b)) <==> effects_pure(a) && effects_pure(b)),
{
    lemma_effects_union_members(a, b);
    let s = add_all(a, b);
    let r = effects_union(a, b);
    if s.len() > 1 {
        lemma_filter_distinct(s, |e: SEffect| not_pure(e));
    }
    if b.no_duplicates() {
        if effects_pure(a) && effects_pure(b) {
            assert forall|x: SEffect| x != SEffect::Pure implies !r.contains(x) by {
                if a.contains(x) {
                    let k = choose|k: int| 0 <= k < a.len() && a[k] == x;
                    assert(a == seq![SEffect::Pure]);
                }
                if b.contains(x) {
                    let k = choose|k: int| 0 <= k < b.len() && b[k] == x;
                    assert(b == seq![SEffect::Pure]);
                }
            }
            lemma_only_pure(r);
        }
        if effects_pure(r) {
            assert forall|x: SEffect| x != SEffect::Pure implies !a.contains(x) && !b.contains(x) by {
                if r.contains(x) {
                    let k = choose|k: int| 0 <= k < r.len() && r[k] == x;
                    assert(r == seq![SEffect::Pure]);
                }
            }
            lemma_only_pure(a);
            lemma_only_pure(b);
        }
    }
}

proof fn lemma_effects_union_members(a: Seq<SEffect>, b: Seq<SEffect>)
    requires
        a.no_duplicates(),
    ensures
        forall|x: SEffect| x != SEffect::Pure ==> (#[trigger] effects_union(a, b).contains(x) <==> a.contains(x)
            || b.contains(x)),
        effects_union(a, b).contains(SEffect::Pure) ==> effects_union(a, b).len() == 1,
        add_all(a, b).no_duplicates(),
{
    broadcast use vstd::seq_lib::group_filter_ensures;
    lemma_add_all(a, b);
    let s = add_all(a, b);
    let pred = |e: SEffect| not_pure(e);
    if s.len() > 1 {
        assert forall|x: SEffect| x != SEffect::Pure implies (#[trigger] effects_union(a, b).contains(x) <==> s.contains(
            x,
        )) by {
            if s.contains(x) {
                let j = choose|j: int| 0 <= j < s.len() && s[j] == x;
                s.lemma_filter_contains(pred, j);
            }
            if s.filter(pred).contains(x) {
                s.lemma_filter_contains_rev(pred, x);
            }
        }
        if effects_union(a, b).contains(SEffect::Pure) {
            let j = choose|j: int| 0 <= j < s.filter(pred).len() && s.filter(pred)[j] == SEffect::Pure;
            s.lemma_filter_pred(pred, j);
        }
    }
}

proof fn lemma_add_all_members(a: Seq<SEffect>, b: Seq<SEffect>)
    ensures
        forall|x: SEffect| #[trigger] add_all(a, b).contains(x) <==> a.contains(x) || b.contains(x),
    decreases b.len(),
{
    if b.len() > 0 {
        lemma_add_all_members(a, b.drop_last());
        let acc = add_all(a, b.drop_last());
        assert forall|x: SEffect| #[trigger] add_all(a, b).contains(x) <==> a.contains(x) || b.contains(x) by {
            if b.drop_last().contains(x) {
                let j = choose|j: int| 0 <= j < b.len() - 1 && b.drop_last()[j] == x;
                assert(b[j] == x);
            }
            if b.contains(x) && x != b.last() {
                let j = choose|j: int| 0 <= j < b.len() && b[j] == x;
                assert(j < b.len() - 1);
                assert(b.drop_last()[j] == x);
            }
            if x == b.last() {
                assert(b[b.len() - 1] == x);
            }
            if !acc.contains(b.last()) {
                if acc.push(b.last()).contains(x) {
                    let j = choose|j: int| 0 <= j < acc.len() + 1 && acc.push(b.last())[j] == x;
                    if j < acc.len() {
                        assert(acc[j] == x);
                    }
                }
                if acc.contains(x) {
                    let j = choose|j: int| 0 <= j < acc.len() && acc[j] == x;
                    assert(acc.push(b.last())[j] == x);
                }
                if x == b.last() {
                    assert(acc.push(b.last())[acc.len() as int] == x);
                }
            }
        }
    }
}

/// Every effect other than `Pure` is in the union of two effect lists exactly when it is
/// in one of them, whatever the lists.
pub proof fn lemma_effects_union_any(a: Seq<SEffect>, b: Seq<SEffect>)
    ensures
        forall|x: SEffect| x != SEffect::Pure ==> (#[trigger] effects_union(a, b).contains(x) <==> a.contains(x)
            || b.contains(x)),
{
    broadcast use vstd::seq_lib::group_filter_ensures;
    lemma_add_all_members(a, b);
    let s = add_all(a, b);
    let pred = |e: SEffect| not_pure(e);
    if s.len() > 1 {
        assert forall|x: SEffect| x != SEffect::Pure implies (#[trigger] effects_union(a, b).contains(x) <==> s.contains(
            x,
        )) by {
            if s.contains(x) {
                let j = choose|j: int| 0 <= j < s.len() && s[j] == x;
                s.lemma_filter_contains(pred, j);
            }
            if s.filter(pred).contains(x) {
                s.lemma_filter_contains_rev(pred, x);
            }
        }
    }
}

/// An effect list is pure when it is empty or holds `Pure` alone.
pub open spec fn effects_pure(s: Seq<SEffect>) -> bool {
    s.len() == 0 || s == seq![SEffect::Pure]
}

/// Every effect of `a` occurs in `b`.
pub open spec fn effects_subset(a: Seq<SEffect>, b: Seq<SEffect>) -> bool {
    forall|i: int| 0 <= i < a.len() ==> b.contains(#[trigger] a[i])
}

/// Whether a list of effects contains an effect (by model).
pub fn contains_effect(v: &Vec<Effect>, e: &Effect) -> (r: bool)
    ensures
        r == effects_view(v@).contains(e@),
{
    let mut i: usize = 0;
    while i < v.len()
        invariant
            0 <= i <= v.len(),
            forall|j: int| 0 <= j < i ==> v@[j]@ != e@,
        decreases v.len() - i,
    {
        if effect_eq(&v[i], e) {
            assert(effects_view(v@)[i as int] == e@);
            return true;
        }
        i += 1;
    }
    assert forall|j: int| 0 <= j < effects_view(v@).len() implies effects_view(v@)[j] != e@ by {}
    false
}

impl EffectSet {
    /// The set without effects.
    pub fn empty() -> (r: Self)
        ensures
            r@ == Seq::<SEffect>::empty(),
    {
        let r = EffectSet { effects: Vec::new() };
        assert(r@ =~= Seq::<SEffect>::empty());
        r
    }

    /// The set that holds `Pure` alone.
    pub fn pure() -> (r: Self)
        ensures
            r@ == seq![SEffect::Pure],
    {
        let mut v: Vec<Effect> = Vec::new();
        v.push(Effect::Pure);
        let r = EffectSet { effects: v };
        assert(r@ =~= seq![SEffect::Pure]);
        r
    }

    /// The set that holds one effect.
    pub fn single(effect: Effect) -> (r: Self)
        ensures
            r@ == seq![effect@],
    {
        let ghost e = effect@;
        let mut v: Vec<Effect> = Vec::new();
        v.push(effect);
        let r = EffectSet { effects: v };
        assert(r@ =~= seq![e]);
        r
    }

    /// Adds the effects of `other` that are missing, then drops `Pure` if other effects remain.
    pub fn union(self, other: Self) -> (r: Self)
        ensures
            r@ == effects_union(self@, other@),
    {
        let mut acc = self.effects;
        let ghost a = effects_view(acc@);
        let ghost b = other@;
        let mut i: usize = 0;
        while i < other.effects.len()
            invariant
                0 <= i <= other.effects.len(),
                b == effects_view(other.effects@),
                effects_view(acc@) == add_all(a, b.take(i as int)),
            decreases other.effects.len() - i,
        {
            assert(b.take(i + 1).drop_last() =~= b.take(i as int));
            assert(b.take(i + 1).last() == other.effects@[i as int]@);
            if !contains_effect(&acc, &other.effects[i]) {
                let e = other.effects[i].clone();
                acc.push(e);
                assert(effects_view(acc@) =~= add_all(a, b.take(i as int)).push(b.take(i + 1).last()));
            }
            i += 1;
        }
        assert(b.take(other.effects.len() as int) =~= b);
        if acc.len() > 1 {
            let ghost s = effects_view(acc@);
            let mut kept: Vec<Effect> = Vec::new();
            let mut j: usize = 0;
            while j < acc.len()
                invariant
                    0 <= j <= acc.len(),
                    s == effects_view(acc@),
                    effects_view(kept@) == s.take(j as int).filter(|e: SEffect| not_pure(e)),
                decreases acc.len() - j,
            {
                reveal(Seq::filter);
                assert(s.take(j + 1).drop_last() =~= s.take(j as int));
                let is_pure = match &acc[j] {
                    Effect::Pure => true,
                    _ => false,
                };
                if !is_pure {
                    kept.push(acc[j].clone());
                    assert(effects_view(kept@) =~= s.take(j as int).filter(|e: SEffect| not_pure(e)).push(s[j as int]));
                }
                j += 1;
            }
            assert(s.take(acc.len() as int) =~= s);
            EffectSet { effects: kept }
        } else {
            EffectSet { effects: acc }
        }
    }

    /// Whether the set has no effect but `Pure`.
    pub fn is_pure(&self) -> (r: bool)
        ensures
            r == effects_pure(self@),
    {
        if self.effects.len() == 0 {
            return true;
        }
        if self.effects.len() == 1 {
            let r = match &self.effects[0] {
                Effect::Pure => true,
                _ => false,
            };
            assert(r ==> self@ =~= seq![SEffect::Pure]);
            assert(self@ == seq![SEffect::Pure] ==> self@[0] == SEffect::Pure);
            return r;
        }
        assert(self@.len() != 1);
        false
    }

    /// Whether the set holds an effect.
    pub fn contains(&self, effect: &Effect) -> (r: bool)
        ensures
            r == self@.contains(effect@),
    {
        contains_effect(&self.effects, effect)
    }

    /// Whether every effect of `self` is in `other`.
    pub fn is_subset(&self, other: &Self) -> (r: bool)
        ensures
            r == effects_subset(self@, other@),
    {
        let mut i: usize = 0;
        while i < self.effects.len()
            invariant
                0 <= i <= self.effects.len(),
                forall|j: int| 0 <= j < i ==> other@.contains(#[trigger] self@[j]),
            decreases self.effects.len() - i,
        {
            if !other.contains(&self.effects[i]) {
                assert(self@[i as int] == self.effects@[i as int]@);
                return false;
            }
            i += 1;
        }
        true
    }
}

/// The model of `p.and(q)`.
pub open spec fn pred_and(p: SPredicate, q: SPredicate) -> SPredicate {
    match p {
        SPredicate::And(ps) => match q {
            SPredicate::And(qs) => SPredicate::And(ps + qs),
            _ => SPredicate::And(ps.push(q)),
        },
        _ => match q {
            SPredicate::And(qs) => SPredicate::And(seq![p] + qs),
            _ => SPredicate::And(seq![p, q]),
        },
    }
}

/// The model of `p.or(q)`.
pub open spec fn pred_or(p: SPredicate, q: SPredicate) -> SPredicate {
    match p {
        SPredicate::Or(ps) => match q {
            SPredicate::Or(qs) => SPredicate::Or(ps + qs),
            _ => SPredicate::Or(ps.push(q)),
        },
        _ => match q {
            SPredicate::Or(qs) => SPredicate::Or(seq![p] + qs),
            _ => SPredicate::Or(seq![p, q]),
        },
    }
}

/// Conjunction flattens: the conjunction of two conjunctions lists the parts of the first
/// and then those of the second, two predicates that are no conjunctions give a conjunction
/// of the two, and `and` is associative, so chaining three such predicates either way lists
/// the three in order.
pub proof fn lemma_and_flattens(p: SPredicate, q: SPredicate, r: SPredicate)
    ensures
        pred_and(pred_and(p, q), r) == pred_and(p, pred_and(q, r)),
        (p is And && q is And) ==> pred_and(p, q) == SPredicate::And(p->And_0 + q->And_0),
        (p !is And && q !is And) ==> pred_and(p, q) == SPredicate::And(seq![p, q]),
        (p !is And && q !is And && r !is And) ==> pred_and(pred_and(p, q), r) == SPredicate::And(seq![p, q, r]),
{
    match p {
        SPredicate::And(ps) => match q {
            SPredicate::And(qs) => match r {
                SPredicate::And(rs) => {
                    assert(ps + qs + rs =~= ps + (qs + rs));
                },
                _ => {
                    assert((ps + qs).push(r) =~= ps + qs.push(r));
                },
            },
            _ => match r {
                SPredicate::And(rs) => {
                    assert(ps.push(q) + rs =~= ps + (seq![q] + rs));
                },
                _ => {
                    assert(ps.push(q).push(r) =~= ps + seq![q, r]);
                },
            },
        },
        _ => match q {
            SPredicate::And(qs) => match r {
                SPredicate::And(rs) => {
                    assert(seq![p] + qs + rs =~= seq![p] + (qs + rs));
                },
                _ => {
                    assert((seq![p] + qs).push(r) =~= seq![p] + qs.push(r));
                },
            },
            _ => match r {
                SPredicate::And(rs) => {
                    assert(seq![p, q] + rs =~= seq![p] + (seq![q] + rs));
                },
                _ => {
                    assert(seq![p, q].push(r) =~= seq![p, q, r]);
                    assert(seq![p] + seq![q, r] =~= seq![p, q, r]);
                },
            },
        },
    }
}

/// Size of a predicate model.
pub open spec fn psize(p: SPredicate) -> nat
    decreases p,
{
    match p {
        SPredicate::And(s) => 1 + psizes(s),
        SPredicate::Or(s) => 1 + psizes(s),
        SPredicate::Not(b) => 1 + psize(*b),
        _ => 1,
    }
}

pub open spec fn psizes(s: Seq<SPredicate>) -> nat
    decreases s,
{
    if s.len() == 0 {
        0
    } else {
        psize(s[0]) + psizes(s.subrange(1, s.len() as int))
    }
}

pub proof fn lemma_psize_elem(s: Seq<SPredicate>, i: int)
    requires
        0 <= i < s.len(),
    ensures
        psize(s[i]) <= psizes(s),
    decreases s.len(),
{
    if i > 0 {
        lemma_psize_elem(s.subrange(1, s.len() as int), i - 1);
    }
}

pub open spec fn pchildren_smaller(p: SPredicate) -> bool {
    match p {
        SPredicate::And(ps) => forall|i: int| 0 <= i < ps.len() ==> psize(#[trigger] ps[i]) < psize(p),
        SPredicate::Or(ps) => forall|i: int| 0 <= i < ps.len() ==> psize(#[trigger] ps[i]) < psize(p),
        _ => true,
    }
}

pub proof fn lemma_pchildren_smaller(p: SPredicate)
    ensures
        pchildren_smaller(p),
{
    match p {
        SPredicate::And(ps) => {
            assert forall|i: int| 0 <= i < ps.len() implies psize(#[trigger] ps[i]) < psize(p) by {
                lemma_psize_elem(ps, i);
            }
        },
        SPredicate::Or(ps) => {
            assert forall|i: int| 0 <= i < ps.len() implies psize(#[trigger] ps[i]) < psize(p) by {
                lemma_psize_elem(ps, i);
            }
        },
        _ => {},
    }
}

/// Conservative implication between predicates: equal predicates, anything implies `True`,
/// a conjunction implies what one of its parts implies, and a predicate implies a
/// disjunction when it implies one of its parts.
pub open spec fn pred_implies(p: SPredicate, q: SPredicate) -> bool
    decreases psize(p) + psize(q),
    via implies_decreases
{
    if p == q {
        true
    } else if p is True {
        false
    } else if q is True {
        true
    } else {
        match p {
            SPredicate::And(ps) => exists|i: int| 0 <= i < ps.len() && pred_implies(#[trigger] ps[i], q),
            _ => match q {
                SPredicate::Or(qs) => exists|i: int| 0 <= i < qs.len() && pred_implies(p, #[trigger] qs[i]),
                _ => false,
            },
        }
    }
}

#[via_fn]
proof fn implies_decreases(p: SPredicate, q: SPredicate) {
    lemma_pchildren_smaller(p);
    lemma_pchildren_smaller(q);
}

impl Predicate {
    /// Conjunction that flattens nested conjunctions.
    pub fn and(self, other: Self) -> (r: Self)
        ensures
            r@ == pred_and(self@, other@),
    {
        let ghost (p, q) = (self@, other@);
        match self {
            Predicate::And(mut preds) => match other {
                Predicate::And(mut others) => {
                    let ghost (a, b) = (preds@, others@);
                    preds.append(&mut others);
                    assert(preds_view(preds@) =~= preds_view(a) + preds_view(b));
                    Predicate::And(preds)
                },
                other => {
                    let ghost a = preds@;
                    preds.push(other);
                    assert(preds_view(preds@) =~= preds_view(a).push(q));
                    Predicate::And(preds)
                },
            },
            pred => match other {
                Predicate::And(mut preds) => {
                    let ghost a = preds@;
                    preds.insert(0, pred);
                    assert(preds_view(preds@) =~= seq![p] + preds_view(a));
                    Predicate::And(preds)
                },
                other => {
                    let mut v: Vec<Predicate> = Vec::new();
                    v.push(pred);
                    v.push(other);
                    assert(preds_view(v@) =~= seq![p, q]);
                    Predicate::And(v)
                },
            },
        }
    }

    /// Disjunction that flattens nested disjunctions.
    pub fn or(self, other: Self) -> (r: Self)
        ensures
            r@ == pred_or(self@, other@),
    {
        let ghost (p, q) = (self@, other@);
        match self {
            Predicate::Or(mut preds) => match other {
                Predicate::Or(mut others) => {
                    let ghost (a, b) = (preds@, others@);
                    preds.append(&mut others);
                    assert(preds_view(preds@) =~= preds_view(a) + preds_view(b));
                    Predicate::Or(preds)
                },
                other => {
                    let ghost a = preds@;
                    preds.push(other);
                    assert(preds_view(preds@) =~= preds_view(a).push(q));
                    Predicate::Or(preds)
                },
            },
            pred => match other {
                Predicate::Or(mut preds) => {
                    let ghost a = preds@;
                    preds.insert(0, pred);
                    assert(preds_view(preds@) =~= seq![p] + preds_view(a));
                    Predicate::Or(preds)
                },
                other => {
                    let mut v: Vec<Predicate> = Vec::new();
                    v.push(pred);
                    v.push(other);
                    assert(preds_view(v@) =~= seq![p, q]);
                    Predicate::Or(v)
                },
            },
        }
    }

    /// Whether this predicate implies another (conservative approximation).
    pub fn implies(&self, other: &Self) -> (r: bool)
        ensures
            r == pred_implies(self@, other@),
        decreases psize(self@) + psize(other@),
    {
        proof {
            lemma_pchildren_smaller(self@);
            lemma_pchildren_smaller(other@);
        }
        if pred_eq(self, other) {
            return true;
        }
        if let Predicate::True = self {
            return false;
        }
        if let Predicate::True = other {
            return true;
        }
        if let Predicate::And(ps) = self {
            let mut i: usize = 0;
            while i < ps.len()
                invariant
                    0 <= i <= ps.len(),
                    self@ == SPredicate::And(preds_view(ps@)),
                    self@ != other@,
                    !(other@ is True),
                    pchildren_smaller(self@),
                    forall|j: int| 0 <= j < i ==> !pred_implies(#[trigger] preds_view(ps@)[j], other@),
                decreases ps.len() - i,
            {
                assert(preds_view(ps@)[i as int] == ps@[i as int]@);
                if ps[i].implies(other) {
                    return true;
                }
                i += 1;
            }
            return false;
        }
        if let Predicate::Or(qs) = other {
            let mut i: usize = 0;
            while i < qs.len()
                invariant
                    0 <= i <= qs.len(),
                    other@ == SPredicate::Or(preds_view(qs@)),
                    self@ != other@,
                    !(self@ is True),
                    !(self@ is And),
                    pchildren_smaller(other@),
                    forall|j: int| 0 <= j < i ==> !pred_implies(self@, #[trigger] preds_view(qs@)[j]),
                decreases qs.len() - i,
            {
                assert(preds_view(qs@)[i as int] == qs@[i as int]@);
                if self.implies(&qs[i]) {
                    return true;
                }
                i += 1;
            }
            return false;
        }
        false
    }
}

} // verus!
