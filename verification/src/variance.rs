//! Variance of type parameters and subtyping of generic instances.
use vstd::prelude::*;
use crate::types::{Type, SType, tviews, lemma_tviews_index, size, sizes, lemma_size_positive};
use crate::equality::{type_eq, lemma_view_tag};
use crate::subtype::subtype;

verus! {

/// How subtyping of a type argument carries over to the generic type.
#[derive(Debug, Clone, Copy, PartialEq, Eq, Structural)]
pub enum Variance {
    Covariant,
    Contravariant,
    Invariant,
    Bivariant,
}

/// The model of `Variance::compose`.
pub open spec fn compose_spec(a: Variance, b: Variance) -> Variance {
    match (a, b) {
        (Variance::Covariant, Variance::Covariant) => Variance::Covariant,
        (Variance::Contravariant, Variance::Contravariant) => Variance::Covariant,
        (Variance::Contravariant, Variance::Covariant) => Variance::Contravariant,
        (Variance::Covariant, Variance::Contravariant) => Variance::Contravariant,
        (Variance::Invariant, _) => Variance::Invariant,
        (_, Variance::Invariant) => Variance::Invariant,
        (Variance::Bivariant, v) => v,
        (v, Variance::Bivariant) => v,
    }
}

/// The model of `Variance::flip`.
pub open spec fn flip_spec(v: Variance) -> Variance {
    match v {
        Variance::Covariant => Variance::Contravariant,
        Variance::Contravariant => Variance::Covariant,
        Variance::Invariant => Variance::Invariant,
        Variance::Bivariant => Variance::Bivariant,
    }
}

impl Variance {
    /// Compose two variances (for nested types).
    pub fn compose(self, other: Self) -> (r: Self)
        ensures
            r == compose_spec(self, other),
    {
        match (self, other) {
            (Variance::Covariant, Variance::Covariant) => Variance::Covariant,
            (Variance::Contravariant, Variance::Contravariant) => Variance::Covariant,
            (Variance::Contravariant, Variance::Covariant) => Variance::Contravariant,
            (Variance::Covariant, Variance::Contravariant) => Variance::Contravariant,
            (Variance::Invariant, _) => Variance::Invariant,
            (_, Variance::Invariant) => Variance::Invariant,
            (Variance::Bivariant, v) => v,
            (v, Variance::Bivariant) => v,
        }
    }

    /// Flip variance (for contravariant positions).
    pub fn flip(self) -> (r: Self)
        ensures
            r == flip_spec(self),
    {
        match self {
            Variance::Covariant => Variance::Contravariant,
            Variance::Contravariant => Variance::Covariant,
            Variance::Invariant => Variance::Invariant,
            Variance::Bivariant => Variance::Bivariant,
        }
    }
}

/// Flipping twice gives back the variance one started from.
pub proof fn lemma_flip_involutive(v: Variance)
    ensures
        flip_spec(flip_spec(v)) == v,
{
}

/// Composition of variances does not depend on the order of its arguments.
pub proof fn lemma_compose_commutative(a: Variance, b: Variance)
    ensures
        compose_spec(a, b) == compose_spec(b, a),
{
}

/// Composition of variances is associative.
pub proof fn lemma_compose_associative(a: Variance, b: Variance, c: Variance)
    ensures
        compose_spec(compose_spec(a, b), c) == compose_spec(a, compose_spec(b, c)),
{
}

/// Bivariance is neutral for composition and invariance absorbs every variance.
pub proof fn lemma_compose_units(v: Variance)
    ensures
        compose_spec(Variance::Bivariant, v) == v,
        compose_spec(v, Variance::Bivariant) == v,
        compose_spec(Variance::Invariant, v) == Variance::Invariant,
        compose_spec(v, Variance::Invariant) == Variance::Invariant,
{
}

/// Composing with a flipped variance flips the result for co- and contravariance.
pub proof fn lemma_compose_flip(a: Variance, b: Variance)
    requires
        a == Variance::Covariant || a == Variance::Contravariant,
        b == Variance::Covariant || b == Variance::Contravariant,
    ensures
        compose_spec(flip_spec(a), b) == flip_spec(compose_spec(a, b)),
{
}

/// Variance assumed for a parameter of a generic type of the given name.
pub open spec fn default_variance(name: Seq<char>) -> Variance {
    if name == "List"@ || name == "Dict"@ || name == "Set"@ {
        Variance::Invariant
    } else if name == "Tuple"@ || name == "FrozenSet"@ {
        Variance::Covariant
    } else {
        Variance::Invariant
    }
}

fn default_variance_exec(name: &str) -> (r: Variance)
    ensures
        r == default_variance(name@),
{
    let s = String::from_str(name);
    if s == String::from_str("List") || s == String::from_str("Dict") || s == String::from_str("Set") {
        Variance::Invariant
    } else if s == String::from_str("Tuple") || s == String::from_str("FrozenSet") {
        Variance::Covariant
    } else {
        Variance::Invariant
    }
}

/// Whether an argument pair is admissible under a variance.
pub open spec fn arg_ok(v: Variance, sub: SType, sup: SType) -> bool {
    match v {
        Variance::Covariant => subtype(sub, sup),
        Variance::Contravariant => subtype(sup, sub),
        Variance::Invariant => sub == sup,
        Variance::Bivariant => true,
    }
}

/// `name[sub_args] <: name[super_args]` under the variance assumed for `name`.
pub open spec fn generic_subtype(
    sub_name: Seq<char>,
    sub_args: Seq<SType>,
    super_name: Seq<char>,
    super_args: Seq<SType>,
) -> bool {
    &&& sub_name == super_name
    &&& sub_args.len() == super_args.len()
    &&& forall|i: int|
        0 <= i < sub_args.len() ==> arg_ok(
            default_variance(sub_name),
            #[trigger] sub_args[i],
            super_args[i],
        )
}

/// Whether a type mentions a type variable.
pub open spec fn contains_var(t: SType, var: u64) -> bool
    decreases size(t), 1nat,
{
    match t {
        SType::Var(id) => id == var,
        SType::List(b) => contains_var(*b, var),
        SType::SetOf(b) => contains_var(*b, var),
        SType::Dict(k, v) => contains_var(*k, var) || contains_var(*v, var),
        SType::Tuple(ts) => any_contains_var(ts, var),
        SType::Union(ts) => any_contains_var(ts, var),
        SType::Intersection(ts) => any_contains_var(ts, var),
        SType::Function(ps, r) => any_contains_var(ps, var) || contains_var(*r, var),
        SType::Generic(_, ts) => any_contains_var(ts, var),
        _ => false,
    }
}

/// Whether some type of a list mentions a type variable.
pub open spec fn any_contains_var(ts: Seq<SType>, var: u64) -> bool
    decreases sizes(ts) + 1, 0nat,
{
    if ts.len() == 0 {
        false
    } else {
        proof {
            lemma_size_positive(ts[0]);
        }
        contains_var(ts[0], var) || any_contains_var(ts.subrange(1, ts.len() as int), var)
    }
}

/// Variance of the variable `var` in `t` seen from `pos`: mutable containers that mention
/// it are invariant, a list of parts is invariant when one part is, a function is
/// invariant when a parameter (seen flipped) or the result is, and `pos` otherwise.
pub open spec fn variance_in(t: SType, var: u64, pos: Variance) -> Variance
    decreases size(t), 1nat,
{
    match t {
        SType::Var(id) => if id == var {
            pos
        } else {
            Variance::Covariant
        },
        SType::List(b) => if contains_var(*b, var) {
            Variance::Invariant
        } else {
            Variance::Covariant
        },
        SType::SetOf(b) => if contains_var(*b, var) {
            Variance::Invariant
        } else {
            Variance::Covariant
        },
        SType::Dict(k, v) => if contains_var(*k, var) || contains_var(*v, var) {
            Variance::Invariant
        } else {
            Variance::Covariant
        },
        SType::Tuple(ts) => if any_invariant(ts, var, pos) {
            Variance::Invariant
        } else {
            Variance::Covariant
        },
        SType::Union(ts) => if any_invariant(ts, var, pos) {
            Variance::Invariant
        } else {
            Variance::Covariant
        },
        SType::Intersection(ts) => if any_invariant(ts, var, pos) {
            Variance::Invariant
        } else {
            Variance::Covariant
        },
        SType::Generic(_, ts) => if any_invariant(ts, var, pos) {
            Variance::Invariant
        } else {
            Variance::Covariant
        },
        SType::Function(ps, r) => if any_invariant(ps, var, flip_spec(pos)) || variance_in(
            *r,
            var,
            pos,
        ) == Variance::Invariant {
            Variance::Invariant
        } else {
            pos
        },
        _ => Variance::Covariant,
    }
}

/// Whether a variable is invariant in a type does not depend on whether the type is seen
/// from a covariant or a contravariant position.
pub proof fn lemma_invariance_agrees(t: SType, var: u64, p: Variance, q: Variance)
    requires
        p == Variance::Covariant || p == Variance::Contravariant,
        q == Variance::Covariant || q == Variance::Contravariant,
    ensures
        (variance_in(t, var, p) == Variance::Invariant) == (variance_in(t, var, q) == Variance::Invariant),
    decreases size(t), 1nat,
{
    match t {
        SType::Tuple(ts) => lemma_any_invariant_agrees(ts, var, p, q),
        SType::Union(ts) => lemma_any_invariant_agrees(ts, var, p, q),
        SType::Intersection(ts) => lemma_any_invariant_agrees(ts, var, p, q),
        SType::Generic(_, ts) => lemma_any_invariant_agrees(ts, var, p, q),
        SType::Function(ps, r) => {
            lemma_any_invariant_agrees(ps, var, flip_spec(p), flip_spec(q));
            lemma_invariance_agrees(*r, var, p, q);
        },
        _ => {},
    }
}

/// The list form of `lemma_invariance_agrees`.
pub proof fn lemma_any_invariant_agrees(ts: Seq<SType>, var: u64, p: Variance, q: Variance)
    requires
        p == Variance::Covariant || p == Variance::Contravariant,
        q == Variance::Covariant || q == Variance::Contravariant,
    ensures
        any_invariant(ts, var, p) == any_invariant(ts, var, q),
    decreases sizes(ts) + 1, 0nat,
{
    if ts.len() > 0 {
        lemma_size_positive(ts[0]);
        lemma_invariance_agrees(ts[0], var, p, q);
        lemma_any_invariant_agrees(ts.subrange(1, ts.len() as int), var, p, q);
    }
}

/// Whether the variable is invariant in some type of a list.
pub open spec fn any_invariant(ts: Seq<SType>, var: u64, pos: Variance) -> bool
    decreases sizes(ts) + 1, 0nat,
{
    if ts.len() == 0 {
        false
    } else {
        proof {
            lemma_size_positive(ts[0]);
        }
        variance_in(ts[0], var, pos) == Variance::Invariant || any_invariant(
            ts.subrange(1, ts.len() as int),
            var,
            pos,
        )
    }
}

/// One step through a suffix of a list.
proof fn lemma_suffix_step(s: Seq<SType>, i: int)
    requires
        0 <= i < s.len(),
    ensures
        s.subrange(i, s.len() as int).len() > 0,
        s.subrange(i, s.len() as int)[0] == s[i],
        s.subrange(i, s.len() as int).subrange(1, s.len() - i) =~= s.subrange(i + 1, s.len() as int),
{
}

/// Whether some type of a list mentions a variable.
fn any_contains_var_exec(ts: &Vec<Type>, var: u64) -> (r: bool)
    ensures
        r == any_contains_var(tviews(ts@), var),
    decreases ts,
{
    let ghost tv = tviews(ts@);
    assert(tv.subrange(0, tv.len() as int) =~= tv);
    let mut i: usize = 0;
    while i < ts.len()
        invariant
            0 <= i <= ts.len(),
            tv == tviews(ts@),
            tv.len() == ts.len(),
            any_contains_var(tv, var) == any_contains_var(tv.subrange(i as int, tv.len() as int), var),
        decreases ts.len() - i,
    {
        proof {
            lemma_tviews_index(ts@, i as int);
            lemma_suffix_step(tv, i as int);
        }
        assert(decreases_to!(ts => ts@[i as int]));
        if contains_var_exec(&ts[i], var) {
            return true;
        }
        i += 1;
    }
    assert(tv.subrange(i as int, tv.len() as int).len() == 0);
    false
}

fn contains_var_exec(t: &Type, var: u64) -> (r: bool)
    ensures
        r == contains_var(t@, var),
    decreases t,
{
    proof {
        lemma_view_tag(*t);
    }
    match t {
        Type::Var(id) => *id == var,
        Type::List(b) => contains_var_exec(b, var),
        Type::SetOf(b) => contains_var_exec(b, var),
        Type::Dict(k, v) => contains_var_exec(k, var) || contains_var_exec(v, var),
        Type::Tuple(ts) => any_contains_var_exec(ts, var),
        Type::Union(ts) => any_contains_var_exec(ts, var),
        Type::Intersection(ts) => any_contains_var_exec(ts, var),
        Type::Function(ps, r) => any_contains_var_exec(ps, var) || contains_var_exec(r, var),
        Type::Generic(_, ts) => any_contains_var_exec(ts, var),
        _ => false,
    }
}

/// Whether some type of a list is invariant in the variable.
fn any_invariant_exec(ts: &Vec<Type>, var: u64, pos: Variance) -> (r: bool)
    ensures
        r == any_invariant(tviews(ts@), var, pos),
    decreases ts,
{
    let ghost tv = tviews(ts@);
    assert(tv.subrange(0, tv.len() as int) =~= tv);
    let mut i: usize = 0;
    while i < ts.len()
        invariant
            0 <= i <= ts.len(),
            tv == tviews(ts@),
            tv.len() == ts.len(),
            any_invariant(tv, var, pos) == any_invariant(tv.subrange(i as int, tv.len() as int), var, pos),
        decreases ts.len() - i,
    {
        proof {
            lemma_tviews_index(ts@, i as int);
            lemma_suffix_step(tv, i as int);
        }
        assert(decreases_to!(ts => ts@[i as int]));
        if variance_of(&ts[i], var, pos) == Variance::Invariant {
            return true;
        }
        i += 1;
    }
    assert(tv.subrange(i as int, tv.len() as int).len() == 0);
    false
}

fn variance_of(t: &Type, var: u64, pos: Variance) -> (r: Variance)
    ensures
        r == variance_in(t@, var, pos),
    decreases t,
{
    proof {
        lemma_view_tag(*t);
    }
    match t {
        Type::Var(id) => if *id == var {
            pos
        } else {
            Variance::Covariant
        },
        Type::List(b) => if contains_var_exec(b, var) {
            Variance::Invariant
        } else {
            Variance::Covariant
        },
        Type::SetOf(b) => if contains_var_exec(b, var) {
            Variance::Invariant
        } else {
            Variance::Covariant
        },
        Type::Dict(k, v) => if contains_var_exec(k, var) || contains_var_exec(v, var) {
            Variance::Invariant
        } else {
            Variance::Covariant
        },
        Type::Tuple(ts) => if any_invariant_exec(ts, var, pos) {
            Variance::Invariant
        } else {
            Variance::Covariant
        },
        Type::Union(ts) => if any_invariant_exec(ts, var, pos) {
            Variance::Invariant
        } else {
            Variance::Covariant
        },
        Type::Intersection(ts) => if any_invariant_exec(ts, var, pos) {
            Variance::Invariant
        } else {
            Variance::Covariant
        },
        Type::Generic(_, ts) => if any_invariant_exec(ts, var, pos) {
            Variance::Invariant
        } else {
            Variance::Covariant
        },
        Type::Function(ps, r) => {
            let params_inv = any_invariant_exec(ps, var, pos.flip());
            let ret = variance_of(r, var, pos);
            if params_inv || ret == Variance::Invariant {
                Variance::Invariant
            } else {
                pos
            }
        },
        _ => Variance::Covariant,
    }
}

/// Variance analysis with a cache of builtin and inferred variances.
pub struct VarianceAnalyzer {
    pub(crate) builtins: Vec<(String, Variance)>,
    pub(crate) inferred: Vec<(String, usize, Variance)>,
}

impl VarianceAnalyzer {
    /// Every cached inference agrees with the default for its type name.
    pub closed spec fn wf(&self) -> bool {
        forall|i: int|
            0 <= i < self.inferred@.len() ==> (#[trigger] self.inferred@[i]).2 == default_variance(
                self.inferred@[i].0@,
            )
    }

    /// The builtin variances, by type name.
    pub closed spec fn builtin_table(&self) -> Seq<(Seq<char>, Variance)> {
        self.builtins@.map_values(|e: (String, Variance)| (e.0@, e.1))
    }

    /// An analyzer that knows the variances of the Python builtin containers.
    pub fn new() -> (r: Self)
        ensures
            r.wf(),
            r.builtin_table() == seq![
                ("List"@, Variance::Invariant),
                ("Tuple"@, Variance::Covariant),
                ("Dict"@, Variance::Invariant),
                ("Set"@, Variance::Invariant),
                ("FrozenSet"@, Variance::Covariant),
                ("Callable"@, Variance::Contravariant),
                ("Iterator"@, Variance::Covariant),
                ("Iterable"@, Variance::Covariant),
                ("Sequence"@, Variance::Covariant),
                ("Mapping"@, Variance::Covariant),
            ],
    {
        let mut b: Vec<(String, Variance)> = Vec::new();
        b.push((String::from_str("List"), Variance::Invariant));
        b.push((String::from_str("Tuple"), Variance::Covariant));
        b.push((String::from_str("Dict"), Variance::Invariant));
        b.push((String::from_str("Set"), Variance::Invariant));
        b.push((String::from_str("FrozenSet"), Variance::Covariant));
        b.push((String::from_str("Callable"), Variance::Contravariant));
        b.push((String::from_str("Iterator"), Variance::Covariant));
        b.push((String::from_str("Iterable"), Variance::Covariant));
        b.push((String::from_str("Sequence"), Variance::Covariant));
        b.push((String::from_str("Mapping"), Variance::Covariant));
        let r = VarianceAnalyzer { builtins: b, inferred: Vec::new() };
        assert(r.builtin_table() =~= seq![
            ("List"@, Variance::Invariant),
            ("Tuple"@, Variance::Covariant),
            ("Dict"@, Variance::Invariant),
            ("Set"@, Variance::Invariant),
            ("FrozenSet"@, Variance::Covariant),
            ("Callable"@, Variance::Contravariant),
            ("Iterator"@, Variance::Covariant),
            ("Iterable"@, Variance::Covariant),
            ("Sequence"@, Variance::Covariant),
            ("Mapping"@, Variance::Covariant),
        ]);
        r
    }

    /// The builtin variance recorded for a type name, if any.
    pub fn builtin_variance(&self, name: &str) -> (r: Option<Variance>)
        ensures
            r matches Some(v) ==> self.builtin_table().contains((name@, v)),
            r is None ==> forall|i: int|
                0 <= i < self.builtin_table().len() ==> (#[trigger] self.builtin_table()[i]).0
                    != name@,
    {
        let s = String::from_str(name);
        let mut i: usize = 0;
        while i < self.builtins.len()
            invariant
                0 <= i <= self.builtins.len(),
                s@ == name@,
                forall|j: int| 0 <= j < i ==> (#[trigger] self.builtin_table()[j]).0 != name@,
            decreases self.builtins.len() - i,
        {
            if self.builtins[i].0 == s {
                assert(self.builtin_table()[i as int] == (name@, self.builtins@[i as int].1));
                return Some(self.builtins[i].1);
            }
            i += 1;
        }
        None
    }

    /// Infer variance of a type parameter in a generic type: mutable containers are
    /// invariant, immutable ones covariant, anything else invariant. Results are cached.
    pub fn infer_variance(&mut self, tname: &str, param_index: usize) -> (r: Variance)
        requires
            old(self).wf(),
        ensures
            final(self).wf(),
            final(self).builtin_table() == old(self).builtin_table(),
            r == default_variance(tname@),
    {
        let name = String::from_str(tname);
        let mut i: usize = 0;
        while i < self.inferred.len()
            invariant
                0 <= i <= self.inferred.len(),
                self.wf(),
                name@ == tname@,
            decreases self.inferred.len() - i,
        {
            if self.inferred[i].0 == name && self.inferred[i].1 == param_index {
                assert(self.inferred@[i as int].2 == default_variance(self.inferred@[i as int].0@));
                return self.inferred[i].2;
            }
            i += 1;
        }
        let v = default_variance_exec(tname);
        self.inferred.push((name, param_index, v));
        v
    }

    /// Whether `sub_generic[sub_args] <: super_generic[super_args]` holds under the
    /// variance of the generic's parameters.
    pub fn check_subtype_with_variance(
        &mut self,
        sub_generic: &str,
        sub_args: &[Type],
        super_generic: &str,
        super_args: &[Type],
    ) -> (r: bool)
        requires
            old(self).wf(),
        ensures
            final(self).wf(),
            final(self).builtin_table() == old(self).builtin_table(),
            r == generic_subtype(sub_generic@, tviews(sub_args@), super_generic@, tviews(super_args@)),
    {
        let a = String::from_str(sub_generic);
        let b = String::from_str(super_generic);
        if !(a == b) {
            return false;
        }
        if sub_args.len() != super_args.len() {
            assert(tviews(sub_args@).len() != tviews(super_args@).len());
            return false;
        }
        let mut i: usize = 0;
        while i < sub_args.len()
            invariant
                0 <= i <= sub_args.len(),
                sub_args.len() == super_args.len(),
                sub_generic@ == super_generic@,
                self.wf(),
                self.builtin_table() == old(self).builtin_table(),
                forall|j: int|
                    0 <= j < i ==> arg_ok(
                        default_variance(sub_generic@),
                        #[trigger] tviews(sub_args@)[j],
                        tviews(super_args@)[j],
                    ),
            decreases sub_args.len() - i,
        {
            proof {
                lemma_tviews_index(sub_args@, i as int);
                lemma_tviews_index(super_args@, i as int);
            }
            let variance = self.infer_variance(sub_generic, i);
            let valid = match variance {
                Variance::Covariant => sub_args[i].is_subtype(&super_args[i]),
                Variance::Contravariant => super_args[i].is_subtype(&sub_args[i]),
                Variance::Invariant => type_eq(&sub_args[i], &super_args[i]),
                Variance::Bivariant => true,
            };
            if !valid {
                return false;
            }
            i += 1;
        }
        true
    }

    /// Check a declared variance against the variance of actual usage: invariant and
    /// bivariant declarations are always accepted, co- and contravariant ones only when
    /// usage agrees.
    pub fn validate_variance_annotation(
        &self,
        tname: &str,
        declared_variance: Variance,
        actual_usage: Variance,
    ) -> (r: Result<(), String>)
        ensures
            r is Ok <==> annotation_ok(declared_variance, actual_usage),
            r matches Err(msg) ==> msg@ == "Type parameter of "@ + tname@ + " declared as "@
                + variance_str(declared_variance) + " but used as "@ + variance_str(actual_usage),
    {
        match (declared_variance, actual_usage) {
            (Variance::Covariant, Variance::Covariant) => Ok(()),
            (Variance::Contravariant, Variance::Contravariant) => Ok(()),
            (Variance::Invariant, _) => Ok(()),
            (Variance::Bivariant, _) => Ok(()),
            (declared, actual) => {
                let mut s = String::from_str("Type parameter of ");
                s.append(tname);
                s.append(" declared as ");
                s.append(variance_text(declared));
                s.append(" but used as ");
                s.append(variance_text(actual));
                Err(s)
            },
        }
    }

    /// Compute variance of a type variable based on its usage in a type.
    pub fn compute_variance(&mut self, ty: &Type, param_var: u64, position: Variance) -> (r:
        Variance)
        ensures
            *final(self) == *old(self),
            r == variance_in(ty@, param_var, position),
    {
        variance_of(ty, param_var, position)
    }

    /// A parameter usage is variance-safe unless it is invariant from both positions.
    pub fn is_variance_safe(&mut self, ty: &Type, param_var: u64) -> (r: bool)
        ensures
            *final(self) == *old(self),
            r == (variance_in(ty@, param_var, Variance::Covariant) != Variance::Invariant
                || variance_in(ty@, param_var, Variance::Contravariant) != Variance::Invariant),
    {
        let covariant = self.compute_variance(ty, param_var, Variance::Covariant);
        let contravariant = self.compute_variance(ty, param_var, Variance::Contravariant);
        covariant != Variance::Invariant || contravariant != Variance::Invariant
    }
}

/// Whether a declared variance is safe for the actual usage.
pub open spec fn annotation_ok(declared: Variance, actual: Variance) -> bool {
    match (declared, actual) {
        (Variance::Covariant, Variance::Covariant) => true,
        (Variance::Contravariant, Variance::Contravariant) => true,
        (Variance::Invariant, _) => true,
        (Variance::Bivariant, _) => true,
        _ => false,
    }
}

/// Debug notation of a variance.
pub open spec fn variance_str(v: Variance) -> Seq<char> {
    match v {
        Variance::Covariant => "Covariant"@,
        Variance::Contravariant => "Contravariant"@,
        Variance::Invariant => "Invariant"@,
        Variance::Bivariant => "Bivariant"@,
    }
}

fn variance_text(v: Variance) -> (r: &'static str)
    ensures
        r@ == variance_str(v),
{
    match v {
        Variance::Covariant => "Covariant",
        Variance::Contravariant => "Contravariant",
        Variance::Invariant => "Invariant",
        Variance::Bivariant => "Bivariant",
    }
}

} // verus!
