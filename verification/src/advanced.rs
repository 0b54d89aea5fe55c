//! Recursive, conditional, dependent and higher-kinded types.
use vstd::prelude::*;
use crate::types::{Type, SType, TypeKind, TypeParam, STypeParam, TypeCondition, SCond,
    DependentConstraint, SDep, tviews, tparams_view, lemma_tviews_index, size, sizes,
    lemma_size_positive};
use crate::equality::{lemma_view_tag, type_eq};
use crate::subtype::subtype;
use crate::display::{kind_str, decimal, write_kind, write_u64};
use crate::assoc::{keyed_map, unique_keys, lemma_keyed_get, lemma_keyed_absent, lemma_keyed_update};
use crate::protocols::text_eq;

verus! {

/// The model of a table of types by name.
pub open spec fn type_entries(v: Seq<(String, Type)>) -> Seq<(Seq<char>, SType)> {
    v.map_values(|e: (String, Type)| (e.0@, e.1@))
}

/// The model of a table of type constructors by name.
pub open spec fn ctor_entries(v: Seq<(String, Vec<TypeParam>)>) -> Seq<(Seq<char>, Seq<STypeParam>)> {
    v.map_values(|e: (String, Vec<TypeParam>)| (e.0@, tparams_view(e.1@)))
}

/// The position of a name in a table of types.
fn find_type_entry(v: &Vec<(String, Type)>, name: &str) -> (r: Option<usize>)
    ensures
        r matches Some(i) ==> i < v.len() && type_entries(v@)[i as int].0 == name@,
        r is None ==> forall|m: int| 0 <= m < v.len() ==> (#[trigger] type_entries(v@)[m]).0 != name@,
{
    let s = String::from_str(name);
    let mut i: usize = 0;
    while i < v.len()
        invariant
            0 <= i <= v.len(),
            s@ == name@,
            forall|m: int| 0 <= m < i ==> (#[trigger] type_entries(v@)[m]).0 != name@,
        decreases v.len() - i,
    {
        if v[i].0 == s {
            return Some(i);
        }
        i += 1;
    }
    None
}

/// Sets the type of a name in a table of types.
fn put_type_entry(v: &mut Vec<(String, Type)>, name: String, t: Type)
    requires
        unique_keys(type_entries(old(v)@)),
    ensures
        unique_keys(type_entries(final(v)@)),
        keyed_map(type_entries(final(v)@)) == keyed_map(type_entries(old(v)@)).insert(name@, t@),
{
    let ghost old_entries = type_entries(v@);
    let ghost entry = (name@, t@);
    match find_type_entry(v, name.as_str()) {
        Some(i) => {
            v.set(i, (name, t));
            proof {
                assert(type_entries(v@) =~= old_entries.update(i as int, (old_entries[i as int].0, entry.1)));
                lemma_keyed_update(old_entries, i as int, entry.1);
            }
        },
        None => {
            v.push((name, t));
            proof {
                assert(type_entries(v@) =~= old_entries.push(entry));
                assert(old_entries.push(entry).drop_last() =~= old_entries);
            }
        },
    }
}

/// The position of a name in a table of type constructors.
fn find_ctor_entry(v: &Vec<(String, Vec<TypeParam>)>, name: &str) -> (r: Option<usize>)
    ensures
        r matches Some(i) ==> i < v.len() && ctor_entries(v@)[i as int].0 == name@,
        r is None ==> forall|m: int| 0 <= m < v.len() ==> (#[trigger] ctor_entries(v@)[m]).0 != name@,
{
    let s = String::from_str(name);
    let mut i: usize = 0;
    while i < v.len()
        invariant
            0 <= i <= v.len(),
            s@ == name@,
            forall|m: int| 0 <= m < i ==> (#[trigger] ctor_entries(v@)[m]).0 != name@,
        decreases v.len() - i,
    {
        if v[i].0 == s {
            return Some(i);
        }
        i += 1;
    }
    None
}

/// Sets the parameters of a name in a table of type constructors.
fn put_ctor_entry(v: &mut Vec<(String, Vec<TypeParam>)>, name: String, ps: Vec<TypeParam>)
    requires
        unique_keys(ctor_entries(old(v)@)),
    ensures
        unique_keys(ctor_entries(final(v)@)),
        keyed_map(ctor_entries(final(v)@)) == keyed_map(ctor_entries(old(v)@)).insert(
            name@,
            tparams_view(ps@),
        ),
{
    let ghost old_entries = ctor_entries(v@);
    let ghost entry = (name@, tparams_view(ps@));
    match find_ctor_entry(v, name.as_str()) {
        Some(i) => {
            v.set(i, (name, ps));
            proof {
                assert(ctor_entries(v@) =~= old_entries.update(i as int, (old_entries[i as int].0, entry.1)));
                lemma_keyed_update(old_entries, i as int, entry.1);
            }
        },
        None => {
            v.push((name, ps));
            proof {
                assert(ctor_entries(v@) =~= old_entries.push(entry));
                assert(old_entries.push(entry).drop_last() =~= old_entries);
            }
        },
    }
}

/// One level of unfolding: occurrences of the class `name` become `rec`, looking into
/// lists, tuples, dicts and unions.
pub open spec fn subst_rec(t: SType, name: Seq<char>, rec: SType) -> SType
    decreases size(t), 1nat,
{
    match t {
        SType::Class(n) => if n == name {
            rec
        } else {
            t
        },
        SType::List(b) => SType::List(Box::new(subst_rec(*b, name, rec))),
        SType::Tuple(ts) => SType::Tuple(subst_rec_each(ts, name, rec)),
        SType::Dict(k, v) => SType::Dict(
            Box::new(subst_rec(*k, name, rec)),
            Box::new(subst_rec(*v, name, rec)),
        ),
        SType::Union(ts) => SType::Union(subst_rec_each(ts, name, rec)),
        _ => t,
    }
}

pub open spec fn subst_rec_each(ts: Seq<SType>, name: Seq<char>, rec: SType) -> Seq<SType>
    decreases sizes(ts) + 1, 0nat,
    via subst_rec_each_decreases
{
    Seq::new(
        ts.len(),
        |i: int|
            if 0 <= i < ts.len() {
                subst_rec(ts[i], name, rec)
            } else {
                SType::Any
            },
    )
}

#[via_fn]
proof fn subst_rec_each_decreases(ts: Seq<SType>, name: Seq<char>, rec: SType) {
    assert forall|i: int| 0 <= i < ts.len() implies size(ts[i]) <= sizes(ts) by {
        crate::types::lemma_size_elem(ts, i);
    }
}

/// Whether a recursive occurrence of `name` in `t` is guarded by a constructor: a bare
/// occurrence is not, lists, tuples and dicts are, a union is when one member is.
pub open spec fn has_guard(t: SType, name: Seq<char>) -> bool
    decreases size(t), 1nat,
{
    match t {
        SType::Class(n) => n != name,
        SType::Union(ts) => any_guard(ts, name),
        _ => true,
    }
}

pub open spec fn any_guard(ts: Seq<SType>, name: Seq<char>) -> bool
    decreases sizes(ts) + 1, 0nat,
{
    if ts.len() == 0 {
        false
    } else {
        proof {
            lemma_size_positive(ts[0]);
        }
        has_guard(ts[0], name) || any_guard(ts.subrange(1, ts.len() as int), name)
    }
}

/// Whether a type is productive: a recursive type must guard its recursion.
pub open spec fn productive(t: SType) -> bool {
    match t {
        SType::Recursive(name, body) => has_guard(*body, name),
        _ => true,
    }
}

/// Whether a type fits a kind: a higher-kinded type does not fit `*`, and only
/// higher-kinded and generic types fit an arrow kind.
pub open spec fn kind_fits(k: TypeKind, t: SType) -> bool {
    match k {
        TypeKind::Star => !(t is HigherKinded),
        TypeKind::Arrow(_, _) => t is HigherKinded || t is Generic,
    }
}

/// The first parameter from `i` on whose kind its argument does not fit.
pub open spec fn first_kind_mismatch(ps: Seq<STypeParam>, args: Seq<SType>, i: nat) -> Option<int>
    decreases ps.len() - i,
{
    if i >= ps.len() {
        None
    } else if !kind_fits(ps[i as int].kind, args[i as int]) {
        Some(i as int)
    } else {
        first_kind_mismatch(ps, args, i + 1)
    }
}

proof fn lemma_first_kind_mismatch(ps: Seq<STypeParam>, args: Seq<SType>, i: nat)
    requires
        args.len() == ps.len(),
    ensures
        first_kind_mismatch(ps, args, i) is None <==> forall|j: int|
            i <= j < ps.len() ==> kind_fits(ps[j].kind, #[trigger] args[j]),
    decreases ps.len() - i,
{
    if i < ps.len() {
        lemma_first_kind_mismatch(ps, args, i + 1);
    }
}

/// Applying a type constructor succeeds exactly when it is defined, gets as many arguments
/// as it has parameters, and each argument fits its parameter's kind; the result is then
/// the constructor applied.
pub proof fn lemma_apply_constructor_ok(
    ctors: Map<Seq<char>, Seq<STypeParam>>,
    name: Seq<char>,
    args: Seq<SType>,
)
    ensures
        apply_constructor_spec(ctors, name, args) is Ok <==> {
            &&& ctors.contains_key(name)
            &&& args.len() == ctors[name].len()
            &&& forall|j: int| 0 <= j < args.len() ==> kind_fits(ctors[name][j].kind, #[trigger] args[j])
        },
        apply_constructor_spec(ctors, name, args) is Ok ==> apply_constructor_spec(ctors, name, args)
            == Ok::<SType, Seq<char>>(SType::HigherKinded(name, ctors[name])),
{
    if ctors.contains_key(name) && args.len() == ctors[name].len() {
        lemma_first_kind_mismatch(ctors[name], args, 0);
    }
}

/// The model of `apply_constructor`.
pub open spec fn apply_constructor_spec(
    ctors: Map<Seq<char>, Seq<STypeParam>>,
    name: Seq<char>,
    args: Seq<SType>,
) -> Result<SType, Seq<char>> {
    if !ctors.contains_key(name) {
        Err("Unknown type constructor: "@ + name)
    } else {
        let ps = ctors[name];
        if args.len() != ps.len() {
            Err(
                "Type constructor "@ + name + " expects "@ + decimal(ps.len()) + " arguments, got "@
                    + decimal(args.len()),
            )
        } else {
            match first_kind_mismatch(ps, args, 0) {
                Some(i) => Err(
                    "Kind mismatch: parameter "@ + ps[i].name + " has kind "@ + kind_str(ps[i].kind)
                        + ", but argument has wrong kind"@,
                ),
                None => Ok(SType::HigherKinded(name, ps)),
            }
        }
    }
}

/// Whether a type-level condition holds.
pub open spec fn condition_holds(c: SCond) -> bool {
    match c {
        SCond::Extends(a, b) => subtype(a, b),
        SCond::Equal(a, b) => a == b,
        SCond::HasProperty(t, _) => t is Class,
        SCond::Custom(_) => false,
    }
}

/// Analysis of recursive, conditional and higher-kinded types.
pub struct AdvancedTypeAnalyzer {
    recursive_types: Vec<(String, Type)>,
    type_constructors: Vec<(String, Vec<TypeParam>)>,
    unfold_cache: Vec<(Type, Type)>,
}

/// The model of the unfolding cache: each recursive type with its unfolding.
pub open spec fn unfold_entries(v: Seq<(Type, Type)>) -> Seq<(SType, SType)> {
    v.map_values(|p: (Type, Type)| (p.0@, p.1@))
}

/// The unfolding of a recursive type: its body with its own name replaced by the type.
pub open spec fn unfolding(t: SType) -> SType {
    match t {
        SType::Recursive(name, body) => subst_rec(*body, name, t),
        _ => t,
    }
}

impl AdvancedTypeAnalyzer {
    /// No name occurs twice in a table.
    pub closed spec fn wf(&self) -> bool {
        &&& unique_keys(type_entries(self.recursive_types@))
        &&& unique_keys(ctor_entries(self.type_constructors@))
        &&& forall|i: int| 0 <= i < self.unfold_cache@.len() ==> (#[trigger] unfold_entries(self.unfold_cache@)[i]).1
            == unfolding(unfold_entries(self.unfold_cache@)[i].0)
    }

    /// The recursive types defined, by name.
    pub closed spec fn recursive_types(&self) -> Map<Seq<char>, SType> {
        keyed_map(type_entries(self.recursive_types@))
    }

    /// The type constructors defined, by name.
    pub closed spec fn type_constructors(&self) -> Map<Seq<char>, Seq<STypeParam>> {
        keyed_map(ctor_entries(self.type_constructors@))
    }

    /// The unfoldings computed so far: each recursive type with its unfolding.
    pub closed spec fn unfold_cache(&self) -> Set<(SType, SType)> {
        unfold_entries(self.unfold_cache@).to_set()
    }

    /// An analyzer with nothing defined.
    pub fn new() -> (r: Self)
        ensures
            r.wf(),
            r.recursive_types() == Map::<Seq<char>, SType>::empty(),
            r.type_constructors() == Map::<Seq<char>, Seq<STypeParam>>::empty(),
            r.unfold_cache() == Set::<(SType, SType)>::empty(),
    {
        let r = AdvancedTypeAnalyzer {
            recursive_types: Vec::new(),
            type_constructors: Vec::new(),
            unfold_cache: Vec::new(),
        };
        assert(type_entries(r.recursive_types@) =~= Seq::empty());
        assert(ctor_entries(r.type_constructors@) =~= Seq::empty());
        assert(unfold_entries(r.unfold_cache@) =~= Seq::empty());
        assert(r.unfold_cache() =~= Set::<(SType, SType)>::empty());
        r
    }

    /// Registers a recursive type definition; a body that is itself the recursive type
    /// of the same name is an infinite type, `Never`, and is not registered.
    pub fn define_recursive(&mut self, name: String, body: Type) -> (r: Type)
        requires
            old(self).wf(),
        ensures
            final(self).wf(),
            final(self).type_constructors() == old(self).type_constructors(),
            final(self).unfold_cache() == old(self).unfold_cache(),
            (body@ matches SType::Recursive(n, _) && n == name@) ==> {
                &&& r@ == SType::Never
                &&& final(self).recursive_types() == old(self).recursive_types()
            },
            !(body@ matches SType::Recursive(n, _) && n == name@) ==> {
                &&& r@ == SType::Recursive(name@, Box::new(body@))
                &&& final(self).recursive_types() == old(self).recursive_types().insert(name@, r@)
            },
    {
        proof {
            lemma_view_tag(body);
        }
        if let Type::Recursive(inner_name, _) = &body {
            if *inner_name == name {
                return Type::Never;
            }
        }
        let ty = Type::Recursive(name.clone(), Box::new(body));
        let stored = ty.clone();
        put_type_entry(&mut self.recursive_types, name, stored);
        ty
    }

    /// Unfolds a recursive type one level: its body with its own name replaced by the
    /// type; other types are returned as they are. Unfoldings are remembered per type.
    pub fn unfold(&mut self, ty: &Type) -> (r: Type)
        requires
            old(self).wf(),
        ensures
            final(self).wf(),
            final(self).recursive_types() == old(self).recursive_types(),
            final(self).type_constructors() == old(self).type_constructors(),
            r@ == unfolding(ty@),
            ty@ is Recursive ==> final(self).unfold_cache() == old(self).unfold_cache().insert((ty@, r@)),
            !(ty@ is Recursive) ==> final(self).unfold_cache() == old(self).unfold_cache(),
    {
        proof {
            lemma_view_tag(*ty);
        }
        match ty {
            Type::Recursive(name, body) => {
                let mut i: usize = 0;
                while i < self.unfold_cache.len()
                    invariant
                        0 <= i <= self.unfold_cache.len(),
                        self.wf(),
                        forall|j: int| 0 <= j < i ==> (#[trigger] unfold_entries(self.unfold_cache@)[j]).0 != ty@,
                    decreases self.unfold_cache.len() - i,
                {
                    if type_eq(&self.unfold_cache[i].0, ty) {
                        let ghost e = unfold_entries(self.unfold_cache@);
                        assert(e[i as int] == (self.unfold_cache@[i as int].0@, self.unfold_cache@[i as int].1@));
                        assert(e.to_set().contains(e[i as int]));
                        assert(self.unfold_cache().insert((ty@, e[i as int].1)) =~= self.unfold_cache());
                        return self.unfold_cache[i].1.clone();
                    }
                    i += 1;
                }
                let unfolded = self.substitute_recursive(body, name.as_str(), ty);
                let ghost before = unfold_entries(self.unfold_cache@);
                let ghost entry = (ty@, unfolded@);
                self.unfold_cache.push((ty.clone(), unfolded.clone()));
                proof {
                    assert(unfold_entries(self.unfold_cache@) =~= before.push(entry));
                    before.lemma_push_to_set_commute(entry);
                    assert forall|j: int| 0 <= j < self.unfold_cache@.len() implies (#[trigger] unfold_entries(
                        self.unfold_cache@,
                    )[j]).1 == unfolding(unfold_entries(self.unfold_cache@)[j].0) by {
                        if j < before.len() {
                            assert(unfold_entries(self.unfold_cache@)[j] == before[j]);
                        }
                    }
                }
                unfolded
            },
            other => other.clone(),
        }
    }

    fn substitute_recursive(&self, ty: &Type, rec_name: &str, rec_ty: &Type) -> (r: Type)
        ensures
            r@ == subst_rec(ty@, rec_name@, rec_ty@),
        decreases ty,
    {
        proof {
            lemma_view_tag(*ty);
        }
        match ty {
            Type::Class(name) => {
                if text_eq(name.as_str(), rec_name) {
                    rec_ty.clone()
                } else {
                    ty.clone()
                }
            },
            Type::List(inner) => Type::List(Box::new(self.substitute_recursive(inner, rec_name, rec_ty))),
            Type::Tuple(elems) => Type::Tuple(self.substitute_each(elems, rec_name, rec_ty)),
            Type::Dict(k, v) => Type::Dict(
                Box::new(self.substitute_recursive(k, rec_name, rec_ty)),
                Box::new(self.substitute_recursive(v, rec_name, rec_ty)),
            ),
            Type::Union(types) => Type::Union(self.substitute_each(types, rec_name, rec_ty)),
            _ => ty.clone(),
        }
    }

    fn substitute_each(&self, ts: &Vec<Type>, rec_name: &str, rec_ty: &Type) -> (r: Vec<Type>)
        ensures
            tviews(r@) == subst_rec_each(tviews(ts@), rec_name@, rec_ty@),
        decreases ts,
    {
        let ghost tv = tviews(ts@);
        let mut out: Vec<Type> = Vec::new();
        let mut i: usize = 0;
        while i < ts.len()
            invariant
                0 <= i <= ts.len(),
                tv == tviews(ts@),
                out.len() == i,
                forall|j: int|
                    0 <= j < i ==> (#[trigger] out@[j])@ == subst_rec(tv[j], rec_name@, rec_ty@),
            decreases ts.len() - i,
        {
            proof {
                lemma_tviews_index(ts@, i as int);
            }
            assert(decreases_to!(ts => ts@[i as int]));
            out.push(self.substitute_recursive(&ts[i], rec_name, rec_ty));
            i += 1;
        }
        assert(tviews(out@) =~= subst_rec_each(tv, rec_name@, rec_ty@));
        out
    }

    /// Whether a recursive type is productive (its recursion is guarded by a
    /// constructor); other types are.
    pub fn is_productive(&self, ty: &Type) -> (r: bool)
        ensures
            r == productive(ty@),
    {
        match ty {
            Type::Recursive(name, body) => self.has_guard_exec(body, name.as_str()),
            _ => true,
        }
    }

    fn has_guard_exec(&self, ty: &Type, rec_name: &str) -> (r: bool)
        ensures
            r == has_guard(ty@, rec_name@),
        decreases ty,
    {
        proof {
            lemma_view_tag(*ty);
        }
        match ty {
            Type::Class(name) => !text_eq(name.as_str(), rec_name),
            Type::Union(types) => self.any_guard_exec(types, rec_name),
            _ => true,
        }
    }

    fn any_guard_exec(&self, ts: &Vec<Type>, rec_name: &str) -> (r: bool)
        ensures
            r == any_guard(tviews(ts@), rec_name@),
        decreases ts,
    {
        let ghost tv = tviews(ts@);
        assert(tv.subrange(0, tv.len() as int) =~= tv);
        let mut i: usize = 0;
        while i < ts.len()
            invariant
                0 <= i <= ts.len(),
                tv == tviews(ts@),
                tv.len() == ts.len(),
                any_guard(tv, rec_name@) == any_guard(tv.subrange(i as int, tv.len() as int), rec_name@),
            decreases ts.len() - i,
        {
            proof {
                lemma_tviews_index(ts@, i as int);
                assert(tv.subrange(i as int, tv.len() as int)[0] == tv[i as int]);
                assert(tv.subrange(i as int, tv.len() as int).subrange(1, tv.len() - i) =~= tv.subrange(
                    i + 1,
                    tv.len() as int,
                ));
            }
            assert(decreases_to!(ts => ts@[i as int]));
            if self.has_guard_exec(&ts[i], rec_name) {
                return true;
            }
            i += 1;
        }
        assert(tv.subrange(i as int, tv.len() as int).len() == 0);
        false
    }

    /// Defines a higher-kinded type constructor.
    pub fn define_type_constructor(&mut self, name: String, params: Vec<TypeParam>)
        requires
            old(self).wf(),
        ensures
            final(self).wf(),
            final(self).type_constructors() == old(self).type_constructors().insert(
                name@,
                tparams_view(params@),
            ),
            final(self).recursive_types() == old(self).recursive_types(),
            final(self).unfold_cache() == old(self).unfold_cache(),
    {
        put_ctor_entry(&mut self.type_constructors, name, params);
    }

    /// Whether a type constructor of the given name is defined.
    pub fn has_type_constructor(&self, name: &str) -> (r: bool)
        requires
            self.wf(),
        ensures
            r == self.type_constructors().contains_key(name@),
    {
        match find_ctor_entry(&self.type_constructors, name) {
            Some(i) => {
                proof {
                    let s = ctor_entries(self.type_constructors@);
                    assert forall|m: int| i < m < s.len() implies (#[trigger] s[m]).0 != s[i as int].0 by {}
                    lemma_keyed_get(s, i as int);
                }
                true
            },
            None => {
                proof {
                    lemma_keyed_absent(ctor_entries(self.type_constructors@), name@);
                }
                false
            },
        }
    }

    /// Applies a type constructor to type arguments: it must be defined, take as many
    /// arguments, and each argument must fit its parameter's kind.
    pub fn apply_constructor(&self, name: &str, args: &[Type]) -> (r: Result<Type, String>)
        requires
            self.wf(),
        ensures
            r is Ok <==> apply_constructor_spec(self.type_constructors(), name@, tviews(args@)) is Ok,
            r matches Ok(t) ==> apply_constructor_spec(self.type_constructors(), name@, tviews(args@))
                == Ok::<SType, Seq<char>>(t@),
            r matches Err(m) ==> apply_constructor_spec(self.type_constructors(), name@, tviews(args@))
                == Err::<SType, Seq<char>>(m@),
    {
        let ghost av = tviews(args@);
        assert(av.len() == args.len());
        let idx = find_ctor_entry(&self.type_constructors, name);
        if idx.is_none() {
            proof {
                lemma_keyed_absent(ctor_entries(self.type_constructors@), name@);
            }
            let mut s = String::from_str("Unknown type constructor: ");
            s.append(name);
            return Err(s);
        }
        let k = idx.unwrap();
        let params = &self.type_constructors[k].1;
        let ghost ps = tparams_view(params@);
        proof {
            let s = ctor_entries(self.type_constructors@);
            assert forall|m: int| k < m < s.len() implies (#[trigger] s[m]).0 != s[k as int].0 by {}
            lemma_keyed_get(s, k as int);
            assert(self.type_constructors()[name@] == ps);
        }
        if args.len() != params.len() {
            let mut s = String::from_str("Type constructor ");
            s.append(name);
            s.append(" expects ");
            write_u64(&mut s, params.len() as u64);
            s.append(" arguments, got ");
            write_u64(&mut s, args.len() as u64);
            return Err(s);
        }
        let mut i: usize = 0;
        while i < args.len()
            invariant
                0 <= i <= args.len(),
                args.len() == params.len(),
                av == tviews(args@),
                ps == tparams_view(params@),
                self.type_constructors().contains_key(name@),
                self.type_constructors()[name@] == ps,
                first_kind_mismatch(ps, av, 0) == first_kind_mismatch(ps, av, i as nat),
            decreases args.len() - i,
        {
            proof {
                lemma_tviews_index(args@, i as int);
            }
            if !self.check_kind_compatibility(&params[i].kind, &args[i]) {
                assert(first_kind_mismatch(ps, av, i as nat) == Some(i as int));
                let mut s = String::from_str("Kind mismatch: parameter ");
                s.append(params[i].name.as_str());
                s.append(" has kind ");
                write_kind(&params[i].kind, &mut s);
                s.append(", but argument has wrong kind");
                return Err(s);
            }
            assert(first_kind_mismatch(ps, av, i as nat) == first_kind_mismatch(ps, av, (i + 1) as nat));
            i += 1;
        }
        let cloned = crate::clone::clone_tparams(params);
        Ok(Type::HigherKinded(String::from_str(name), cloned))
    }

    fn check_kind_compatibility(&self, kind: &TypeKind, ty: &Type) -> (r: bool)
        ensures
            r == kind_fits(*kind, ty@),
    {
        proof {
            lemma_view_tag(*ty);
        }
        match kind {
            TypeKind::Star => !matches!(ty, Type::HigherKinded(_, _)),
            TypeKind::Arrow(_, _) => matches!(ty, Type::HigherKinded(_, _) | Type::Generic(_, _)),
        }
    }

    /// The `then` type when the condition holds, the `else` type otherwise.
    pub fn eval_conditional(&self, condition: &TypeCondition, then_type: &Type, else_type: &Type) -> (r:
        Type)
        ensures
            r@ == if condition_holds(condition@) {
                then_type@
            } else {
                else_type@
            },
    {
        if self.eval_condition(condition) {
            then_type.clone()
        } else {
            else_type.clone()
        }
    }

    fn eval_condition(&self, condition: &TypeCondition) -> (r: bool)
        ensures
            r == condition_holds(condition@),
    {
        match condition {
            TypeCondition::Extends(sub, sup) => sub.is_subtype(sup),
            TypeCondition::Equal(a, b) => type_eq(a, b),
            TypeCondition::HasProperty(ty, _) => {
                proof {
                    lemma_view_tag(*ty);
                }
                matches!(ty, Type::Class(_))
            },
            TypeCondition::Custom(_) => false,
        }
    }

    /// A list type whose length is fixed.
    pub fn dependent_length(elem_type: Type, length: usize) -> (r: Type)
        ensures
            r@ == SType::Dependent(Box::new(SType::List(Box::new(elem_type@))), SDep::Length(length)),
    {
        let list = Type::List(Box::new(elem_type));
        assert(list@ == SType::List(Box::new(elem_type@)));
        let c = DependentConstraint::Length(length);
        assert(c@ == SDep::Length(length));
        let r = Type::Dependent(Box::new(list), c);
        assert(r@ == SType::Dependent(Box::new(list@), c@));
        r
    }

    /// A list type whose length lies in a range.
    pub fn dependent_range(elem_type: Type, min: usize, max: usize) -> (r: Type)
        ensures
            r@ == SType::Dependent(
                Box::new(SType::List(Box::new(elem_type@))),
                SDep::LengthRange(min, max),
            ),
    {
        let list = Type::List(Box::new(elem_type));
        assert(list@ == SType::List(Box::new(elem_type@)));
        let c = DependentConstraint::LengthRange(min, max);
        assert(c@ == SDep::LengthRange(min, max));
        let r = Type::Dependent(Box::new(list), c);
        assert(r@ == SType::Dependent(Box::new(list@), c@));
        r
    }
}

} // verus!
