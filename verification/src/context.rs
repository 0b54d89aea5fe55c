//! The typing context: the types of names, the schemas of classes, and fresh type
//! variables.
use vstd::prelude::*;
use dashmap::DashMap;
use std::collections::hash_map::RandomState;
use crate::types::{Type, SType, tviews, lemma_tviews_index, size, sizes, lemma_size_positive,
    lemma_size_elem};
use crate::subtype::union_of;
use crate::errors::strings_view;

verus! {

#[verifier::external_type_specification]
#[verifier::external_body]
#[verifier::reject_recursive_types(K)]
#[verifier::reject_recursive_types(V)]
#[verifier::reject_recursive_types(S)]
pub struct ExDashMap<K, V, S>(DashMap<K, V, S>);

/// What a member of a class is.
pub enum MemberKind {
    Method(Type),
    Property(Type),
    ClassVar(Type),
}

/// Model of a [`MemberKind`].
pub enum SMember {
    Method(SType),
    Property(SType),
    ClassVar(SType),
}

impl View for MemberKind {
    type V = SMember;

    open spec fn view(&self) -> SMember {
        match self {
            MemberKind::Method(t) => SMember::Method(t@),
            MemberKind::Property(t) => SMember::Property(t@),
            MemberKind::ClassVar(t) => SMember::ClassVar(t@),
        }
    }
}

/// The type a member has, whatever kind of member it is.
pub open spec fn member_type(m: SMember) -> SType {
    match m {
        SMember::Method(t) => t,
        SMember::Property(t) => t,
        SMember::ClassVar(t) => t,
    }
}

impl Clone for MemberKind {
    fn clone(&self) -> (r: Self)
        ensures
            r@ == self@,
    {
        match self {
            MemberKind::Method(t) => MemberKind::Method(t.clone()),
            MemberKind::Property(t) => MemberKind::Property(t.clone()),
            MemberKind::ClassVar(t) => MemberKind::ClassVar(t.clone()),
        }
    }
}

/// The entries of a member table of `dashmap`, by name.
pub uninterp spec fn member_entries(m: DashMap<String, MemberKind>) -> Map<Seq<char>, SMember>;

/// The entries of a type table of `dashmap`, by name.
pub uninterp spec fn type_entries(m: DashMap<String, Type>) -> Map<Seq<char>, SType>;

/// The entries of a class table of `dashmap`, by class name.
pub uninterp spec fn class_entries(m: DashMap<String, ClassSchema>) -> Map<Seq<char>, SClass>;

/// `DashMap::new`: an empty member table.
#[verifier::external_body]
fn new_members() -> (r: DashMap<String, MemberKind>)
    ensures
        forall|k: Seq<char>| !(#[trigger] member_entries(r).contains_key(k)),
{
    DashMap::new()
}

/// `DashMap::insert` on a member table: the name now maps to the member.
#[verifier::external_body]
fn insert_member(m: &mut DashMap<String, MemberKind>, k: String, v: MemberKind)
    ensures
        member_entries(*final(m)) == member_entries(*old(m)).insert(k@, v@),
{
    m.insert(k, v);
}

/// `DashMap::get` on a member table, with the member's type copied out.
#[verifier::external_body]
fn member_of(m: &DashMap<String, MemberKind>, k: &str) -> (r: Option<Type>)
    ensures
        r matches Some(t) ==> member_entries(*m).contains_key(k@) && t@ == member_type(
            member_entries(*m)[k@],
        ),
        r is None ==> !member_entries(*m).contains_key(k@),
{
    m.get(k).map(|e| member_kind_type(e.value()))
}

/// `DashMap::contains_key` on a member table.
#[verifier::external_body]
fn has_member_key(m: &DashMap<String, MemberKind>, k: &str) -> (r: bool)
    ensures
        r == member_entries(*m).contains_key(k@),
{
    m.contains_key(k)
}

/// The names of a member table, through `DashMap::iter`: each name once, in the map's own
/// order, which nothing here fixes.
#[verifier::external_body]
fn member_names(m: &DashMap<String, MemberKind>) -> (r: Vec<String>)
    ensures
        strings_view(r@).no_duplicates(),
        forall|k: Seq<char>| #[trigger] member_entries(*m).contains_key(k) <==> strings_view(r@).contains(k),
{
    m.iter().map(|e| e.key().clone()).collect()
}

/// `DashMap::clone` on a member table: the same entries.
#[verifier::external_body]
fn clone_members(m: &DashMap<String, MemberKind>) -> (r: DashMap<String, MemberKind>)
    ensures
        member_entries(r) == member_entries(*m),
{
    m.clone()
}

/// `DashMap::new`: an empty type table.
#[verifier::external_body]
fn new_types() -> (r: DashMap<String, Type>)
    ensures
        forall|k: Seq<char>| !(#[trigger] type_entries(r).contains_key(k)),
{
    DashMap::new()
}

/// `DashMap::insert` on a type table: the name now maps to the type.
#[verifier::external_body]
fn insert_type(m: &mut DashMap<String, Type>, k: String, v: Type)
    ensures
        type_entries(*final(m)) == type_entries(*old(m)).insert(k@, v@),
{
    m.insert(k, v);
}

/// `DashMap::get` on a type table, with the type copied out.
#[verifier::external_body]
fn type_of(m: &DashMap<String, Type>, k: &str) -> (r: Option<Type>)
    ensures
        r matches Some(t) ==> type_entries(*m).contains_key(k@) && t@ == type_entries(*m)[k@],
        r is None ==> !type_entries(*m).contains_key(k@),
{
    m.get(k).map(|e| e.value().clone())
}

/// `DashMap::new`: an empty class table.
#[verifier::external_body]
fn new_classes() -> (r: DashMap<String, ClassSchema>)
    ensures
        forall|k: Seq<char>| !(#[trigger] class_entries(r).contains_key(k)),
{
    DashMap::new()
}

/// `DashMap::insert` on a class table: the name now maps to the schema.
#[verifier::external_body]
fn insert_class(m: &mut DashMap<String, ClassSchema>, k: String, v: ClassSchema)
    ensures
        class_entries(*final(m)) == class_entries(*old(m)).insert(k@, v@),
{
    m.insert(k, v);
}

/// `DashMap::get` on a class table, with the schema copied out.
#[verifier::external_body]
fn class_of(m: &DashMap<String, ClassSchema>, k: &str) -> (r: Option<ClassSchema>)
    ensures
        r matches Some(c) ==> class_entries(*m).contains_key(k@) && c@ == class_entries(*m)[k@],
        r is None ==> !class_entries(*m).contains_key(k@),
{
    m.get(k).map(|e| e.value().clone())
}

/// `DashMap::len` on a class table.
#[verifier::external_body]
fn class_count(m: &DashMap<String, ClassSchema>) -> (r: usize)
    ensures
        r == class_entries(*m).len(),
{
    m.len()
}

/// The type of a member.
fn member_kind_type(m: &MemberKind) -> (r: Type)
    ensures
        r@ == member_type(m@),
{
    match m {
        MemberKind::Method(t) => t.clone(),
        MemberKind::Property(t) => t.clone(),
        MemberKind::ClassVar(t) => t.clone(),
    }
}

/// The tuple of two `Any`.
fn any_pair() -> (r: Type)
    ensures
        r@ == SType::Tuple(seq![SType::Any, SType::Any]),
{
    let v: Vec<Type> = vec![Type::Any, Type::Any];
    assert(tviews(v@) =~= seq![SType::Any, SType::Any]);
    Type::Tuple(v)
}

/// A method type without parameters.
fn method0(ret: Type) -> (r: Type)
    ensures
        r@ == SType::Function(seq![], Box::new(ret@)),
{
    let v: Vec<Type> = Vec::new();
    assert(tviews(v@) =~= Seq::<SType>::empty());
    Type::Function(v, Box::new(ret))
}

/// A method type with one parameter.
fn method1(p: Type, ret: Type) -> (r: Type)
    ensures
        r@ == SType::Function(seq![p@], Box::new(ret@)),
{
    let ghost pv = p@;
    let v: Vec<Type> = vec![p];
    assert(tviews(v@) =~= seq![pv]);
    Type::Function(v, Box::new(ret))
}

/// A method type with two parameters.
fn method2(p: Type, q: Type, ret: Type) -> (r: Type)
    ensures
        r@ == SType::Function(seq![p@, q@], Box::new(ret@)),
{
    let ghost pv = p@;
    let ghost qv = q@;
    let v: Vec<Type> = vec![p, q];
    assert(tviews(v@) =~= seq![pv, qv]);
    Type::Function(v, Box::new(ret))
}

/// Model of a [`ClassSchema`].
pub struct SClass {
    pub name: Seq<char>,
    pub members: Map<Seq<char>, SMember>,
    pub bases: Seq<Seq<char>>,
}

/// The structure of a class: its members by name and the names of its bases.
pub struct ClassSchema {
    pub name: String,
    pub members: DashMap<String, MemberKind>,
    pub bases: Vec<String>,
}

impl View for ClassSchema {
    type V = SClass;

    open spec fn view(&self) -> SClass {
        SClass { name: self.name@, members: member_entries(self.members), bases: strings_view(self.bases@) }
    }
}

impl Clone for ClassSchema {
    fn clone(&self) -> (r: Self)
        ensures
            r@ == self@,
    {
        let mut bases: Vec<String> = Vec::new();
        let mut i: usize = 0;
        while i < self.bases.len()
            invariant
                0 <= i <= self.bases.len(),
                bases.len() == i,
                forall|j: int| 0 <= j < i ==> bases@[j]@ == self.bases@[j]@,
            decreases self.bases.len() - i,
        {
            bases.push(self.bases[i].clone());
            i += 1;
        }
        assert(strings_view(bases@) =~= strings_view(self.bases@));
        ClassSchema { name: self.name.clone(), members: clone_members(&self.members), bases }
    }
}

impl ClassSchema {
    /// A class without members or bases.
    pub fn new(name: String) -> (r: Self)
        ensures
            r@ == (SClass { name: name@, members: Map::empty(), bases: Seq::empty() }),
    {
        let r = ClassSchema { name, members: new_members(), bases: Vec::new() };
        assert(strings_view(r.bases@) =~= Seq::<Seq<char>>::empty());
        assert(r@.members =~= Map::<Seq<char>, SMember>::empty());
        r
    }

    /// The schema with the given base classes.
    pub fn with_bases(self, bases: Vec<String>) -> (r: Self)
        ensures
            r@ == (SClass { bases: strings_view(bases@), ..self@ }),
    {
        ClassSchema { name: self.name, members: self.members, bases }
    }

    /// Adds a method.
    pub fn add_method(&mut self, name: String, ty: Type)
        ensures
            final(self)@ == (SClass { members: old(self)@.members.insert(name@, SMember::Method(ty@)), ..old(self)@ }),
    {
        insert_member(&mut self.members, name, MemberKind::Method(ty));
    }

    /// Adds a property.
    pub fn add_property(&mut self, name: String, ty: Type)
        ensures
            final(self)@ == (SClass { members: old(self)@.members.insert(name@, SMember::Property(ty@)), ..old(self)@ }),
    {
        insert_member(&mut self.members, name, MemberKind::Property(ty));
    }

    /// Adds a class variable.
    pub fn add_class_var(&mut self, name: String, ty: Type)
        ensures
            final(self)@ == (SClass { members: old(self)@.members.insert(name@, SMember::ClassVar(ty@)), ..old(self)@ }),
    {
        insert_member(&mut self.members, name, MemberKind::ClassVar(ty));
    }

    /// Whether the class has a member of that name.
    pub fn has_member(&self, name: &str) -> (r: bool)
        ensures
            r == self@.members.contains_key(name@),
    {
        has_member_key(&self.members, name)
    }

    /// The type of the member of that name.
    pub fn get_member(&self, name: &str) -> (r: Option<Type>)
        ensures
            r matches Some(t) ==> self@.members.contains_key(name@) && t@ == member_type(
                self@.members[name@],
            ),
            r is None ==> !self@.members.contains_key(name@),
    {
        member_of(&self.members, name)
    }
}

/// The methods that the context knows of `str`.
pub open spec fn builtin_str_members() -> Map<Seq<char>, SMember> {
    Map::empty()
        .insert("upper"@, SMember::Method(SType::Function(seq![], Box::new(SType::Str))))
        .insert("lower"@, SMember::Method(SType::Function(seq![], Box::new(SType::Str))))
        .insert("strip"@, SMember::Method(SType::Function(seq![], Box::new(SType::Str))))
        .insert("split"@, SMember::Method(SType::Function(seq![SType::Str], Box::new(SType::List(Box::new(SType::Str))))))
        .insert("join"@, SMember::Method(SType::Function(seq![SType::List(Box::new(SType::Str))], Box::new(SType::Str))))
        .insert("replace"@, SMember::Method(SType::Function(seq![SType::Str, SType::Str], Box::new(SType::Str))))
        .insert("startswith"@, SMember::Method(SType::Function(seq![SType::Str], Box::new(SType::Bool))))
        .insert("endswith"@, SMember::Method(SType::Function(seq![SType::Str], Box::new(SType::Bool))))
        .insert("find"@, SMember::Method(SType::Function(seq![SType::Str], Box::new(SType::Int))))
}

/// The methods that the context knows of `list`.
pub open spec fn builtin_list_members() -> Map<Seq<char>, SMember> {
    Map::empty()
        .insert("append"@, SMember::Method(SType::Function(seq![SType::Any], Box::new(SType::NoneType))))
        .insert("extend"@, SMember::Method(SType::Function(seq![SType::List(Box::new(SType::Any))], Box::new(SType::NoneType))))
        .insert("pop"@, SMember::Method(SType::Function(seq![], Box::new(SType::Any))))
        .insert("remove"@, SMember::Method(SType::Function(seq![SType::Any], Box::new(SType::NoneType))))
        .insert("clear"@, SMember::Method(SType::Function(seq![], Box::new(SType::NoneType))))
        .insert("sort"@, SMember::Method(SType::Function(seq![], Box::new(SType::NoneType))))
        .insert("reverse"@, SMember::Method(SType::Function(seq![], Box::new(SType::NoneType))))
        .insert("copy"@, SMember::Method(SType::Function(seq![], Box::new(SType::List(Box::new(SType::Any))))))
}

/// The methods that the context knows of `dict`.
pub open spec fn builtin_dict_members() -> Map<Seq<char>, SMember> {
    Map::empty()
        .insert("keys"@, SMember::Method(SType::Function(seq![], Box::new(SType::List(Box::new(SType::Any))))))
        .insert("values"@, SMember::Method(SType::Function(seq![], Box::new(SType::List(Box::new(SType::Any))))))
        .insert("items"@, SMember::Method(SType::Function(seq![], Box::new(SType::List(Box::new(SType::Tuple(seq![SType::Any, SType::Any])))))))
        .insert("get"@, SMember::Method(SType::Function(seq![SType::Any], Box::new(SType::Any))))
        .insert("pop"@, SMember::Method(SType::Function(seq![SType::Any], Box::new(SType::Any))))
        .insert("clear"@, SMember::Method(SType::Function(seq![], Box::new(SType::NoneType))))
        .insert("update"@, SMember::Method(SType::Function(seq![SType::Dict(Box::new(SType::Any), Box::new(SType::Any))], Box::new(SType::NoneType))))
}

/// The methods that the context knows of `set`.
pub open spec fn builtin_set_members() -> Map<Seq<char>, SMember> {
    Map::empty()
        .insert("add"@, SMember::Method(SType::Function(seq![SType::Any], Box::new(SType::NoneType))))
        .insert("remove"@, SMember::Method(SType::Function(seq![SType::Any], Box::new(SType::NoneType))))
        .insert("discard"@, SMember::Method(SType::Function(seq![SType::Any], Box::new(SType::NoneType))))
        .insert("clear"@, SMember::Method(SType::Function(seq![], Box::new(SType::NoneType))))
        .insert("union"@, SMember::Method(SType::Function(seq![SType::SetOf(Box::new(SType::Any))], Box::new(SType::SetOf(Box::new(SType::Any))))))
        .insert("intersection"@, SMember::Method(SType::Function(seq![SType::SetOf(Box::new(SType::Any))], Box::new(SType::SetOf(Box::new(SType::Any))))))
}

/// The classes that a new context knows: `str`, `list`, `dict` and `set`.
pub open spec fn builtin_classes() -> Map<Seq<char>, SClass> {
    Map::empty()
        .insert("str"@, SClass { name: "str"@, members: builtin_str_members(), bases: Seq::empty() })
        .insert("list"@, SClass { name: "list"@, members: builtin_list_members(), bases: Seq::empty() })
        .insert("dict"@, SClass { name: "dict"@, members: builtin_dict_members(), bases: Seq::empty() })
        .insert("set"@, SClass { name: "set"@, members: builtin_set_members(), bases: Seq::empty() })
}

/// Model of a [`TypeContext`].
pub struct SContext {
    pub types: Map<Seq<char>, SType>,
    pub classes: Map<Seq<char>, SClass>,
    pub next_var: u64,
}

/// The attribute `attr` of the class `name`, looked up in the class and then in its
/// bases in order, at most `fuel` levels of bases deep.
pub open spec fn lookup_attr(cls: Map<Seq<char>, SClass>, name: Seq<char>, attr: Seq<char>, fuel: nat) -> Option<SType>
    decreases fuel, 0nat,
{
    if !cls.contains_key(name) {
        None
    } else if cls[name].members.contains_key(attr) {
        Some(member_type(cls[name].members[attr]))
    } else if fuel == 0 {
        None
    } else {
        bases_attr(cls, cls[name].bases, attr, (fuel - 1) as nat)
    }
}

/// The attribute found first among the classes `bs`.
pub open spec fn bases_attr(cls: Map<Seq<char>, SClass>, bs: Seq<Seq<char>>, attr: Seq<char>, fuel: nat) -> Option<SType>
    decreases fuel, bs.len() + 1,
{
    if bs.len() == 0 {
        None
    } else {
        match lookup_attr(cls, bs[0], attr, fuel) {
            Some(t) => Some(t),
            None => bases_attr(cls, bs.subrange(1, bs.len() as int), attr, fuel),
        }
    }
}

/// The attribute `attr` of a value of type `t`: from the class of the type; on a union,
/// present only when every member has it, the union of their attribute types; on an
/// intersection, that of the first member that has it; through refinements, effects,
/// dependent and nominal types to the type they wrap.
pub open spec fn has_attr(cls: Map<Seq<char>, SClass>, t: SType, attr: Seq<char>, fuel: nat) -> Option<SType>
    decreases size(t), 1nat,
{
    match t {
        SType::Class(n) => lookup_attr(cls, n, attr, fuel),
        SType::Str => lookup_attr(cls, "str"@, attr, fuel),
        SType::List(_) => lookup_attr(cls, "list"@, attr, fuel),
        SType::Dict(_, _) => lookup_attr(cls, "dict"@, attr, fuel),
        SType::SetOf(_) => lookup_attr(cls, "set"@, attr, fuel),
        SType::Union(ts) => union_attr(cls, ts, attr, fuel, None),
        SType::Intersection(ts) => first_attr(cls, ts, attr, fuel),
        SType::Refinement(inner, _) => has_attr(cls, *inner, attr, fuel),
        SType::Effect(inner, _) => has_attr(cls, *inner, attr, fuel),
        SType::Dependent(inner, _) => has_attr(cls, *inner, attr, fuel),
        SType::Nominal(_, inner) => has_attr(cls, *inner, attr, fuel),
        _ => None,
    }
}

/// The union members' attribute, accumulated into `acc`; absent as soon as one member
/// lacks it.
pub open spec fn union_attr(cls: Map<Seq<char>, SClass>, ts: Seq<SType>, attr: Seq<char>, fuel: nat, acc: Option<SType>) -> Option<SType>
    decreases sizes(ts) + 1, 0nat,
{
    if ts.len() == 0 {
        acc
    } else {
        proof {
            lemma_size_positive(ts[0]);
        }
        match has_attr(cls, ts[0], attr, fuel) {
            None => None,
            Some(a) => union_attr(
                cls,
                ts.subrange(1, ts.len() as int),
                attr,
                fuel,
                Some(
                    match acc {
                        None => a,
                        Some(e) => union_of(seq![e, a]),
                    },
                ),
            ),
        }
    }
}

/// The attribute of the first member that has it.
pub open spec fn first_attr(cls: Map<Seq<char>, SClass>, ts: Seq<SType>, attr: Seq<char>, fuel: nat) -> Option<SType>
    decreases sizes(ts) + 1, 0nat,
{
    if ts.len() == 0 {
        None
    } else {
        proof {
            lemma_size_positive(ts[0]);
        }
        match has_attr(cls, ts[0], attr, fuel) {
            Some(a) => Some(a),
            None => first_attr(cls, ts.subrange(1, ts.len() as int), attr, fuel),
        }
    }
}

/// The names of the members of the class `name` and of its bases, at most `fuel` levels
/// deep.
pub open spec fn class_attr_names(cls: Map<Seq<char>, SClass>, name: Seq<char>, fuel: nat) -> Set<Seq<char>>
    decreases fuel, 0nat,
{
    if !cls.contains_key(name) {
        Set::empty()
    } else if fuel == 0 {
        cls[name].members.dom()
    } else {
        cls[name].members.dom().union(bases_attr_names(cls, cls[name].bases, (fuel - 1) as nat))
    }
}

pub open spec fn bases_attr_names(cls: Map<Seq<char>, SClass>, bs: Seq<Seq<char>>, fuel: nat) -> Set<Seq<char>>
    decreases fuel, bs.len() + 1,
{
    if bs.len() == 0 {
        Set::empty()
    } else {
        class_attr_names(cls, bs[0], fuel).union(
            bases_attr_names(cls, bs.subrange(1, bs.len() as int), fuel),
        )
    }
}

/// The class whose members a value of type `t` offers as attributes.
pub open spec fn attr_class(t: SType) -> Option<Seq<char>> {
    match t {
        SType::Class(n) => Some(n),
        SType::Str => Some("str"@),
        SType::List(_) => Some("list"@),
        SType::Dict(_, _) => Some("dict"@),
        SType::SetOf(_) => Some("set"@),
        _ => None,
    }
}

/// The context in which names get types and classes get schemas.
pub struct TypeContext {
    types: DashMap<String, Type>,
    classes: DashMap<String, ClassSchema>,
    next_var: u64,
}

impl View for TypeContext {
    type V = SContext;

    closed spec fn view(&self) -> SContext {
        SContext { types: type_entries(self.types), classes: class_entries(self.classes), next_var: self.next_var }
    }
}

impl TypeContext {
    /// The schema of `str`.
    fn builtin_str() -> (r: ClassSchema)
        ensures
            r@ == (SClass { name: "str"@, members: builtin_str_members(), bases: Seq::empty() }),
    {
        let mut s = ClassSchema::new(String::from_str("str"));
        s.add_method(String::from_str("upper"), method0(Type::Str));
        s.add_method(String::from_str("lower"), method0(Type::Str));
        s.add_method(String::from_str("strip"), method0(Type::Str));
        s.add_method(String::from_str("split"), method1(Type::Str, Type::List(Box::new(Type::Str))));
        s.add_method(String::from_str("join"), method1(Type::List(Box::new(Type::Str)), Type::Str));
        s.add_method(String::from_str("replace"), method2(Type::Str, Type::Str, Type::Str));
        s.add_method(String::from_str("startswith"), method1(Type::Str, Type::Bool));
        s.add_method(String::from_str("endswith"), method1(Type::Str, Type::Bool));
        s.add_method(String::from_str("find"), method1(Type::Str, Type::Int));
        s
    }

    /// The schema of `list`.
    fn builtin_list() -> (r: ClassSchema)
        ensures
            r@ == (SClass { name: "list"@, members: builtin_list_members(), bases: Seq::empty() }),
    {
        let mut s = ClassSchema::new(String::from_str("list"));
        s.add_method(String::from_str("append"), method1(Type::Any, Type::NoneType));
        s.add_method(String::from_str("extend"), method1(Type::List(Box::new(Type::Any)), Type::NoneType));
        s.add_method(String::from_str("pop"), method0(Type::Any));
        s.add_method(String::from_str("remove"), method1(Type::Any, Type::NoneType));
        s.add_method(String::from_str("clear"), method0(Type::NoneType));
        s.add_method(String::from_str("sort"), method0(Type::NoneType));
        s.add_method(String::from_str("reverse"), method0(Type::NoneType));
        s.add_method(String::from_str("copy"), method0(Type::List(Box::new(Type::Any))));
        s
    }

    /// The schema of `dict`.
    fn builtin_dict() -> (r: ClassSchema)
        ensures
            r@ == (SClass { name: "dict"@, members: builtin_dict_members(), bases: Seq::empty() }),
    {
        let mut s = ClassSchema::new(String::from_str("dict"));
        s.add_method(String::from_str("keys"), method0(Type::List(Box::new(Type::Any))));
        s.add_method(String::from_str("values"), method0(Type::List(Box::new(Type::Any))));
        s.add_method(String::from_str("items"), method0(Type::List(Box::new(any_pair()))));
        s.add_method(String::from_str("get"), method1(Type::Any, Type::Any));
        s.add_method(String::from_str("pop"), method1(Type::Any, Type::Any));
        s.add_method(String::from_str("clear"), method0(Type::NoneType));
        s.add_method(String::from_str("update"), method1(Type::Dict(Box::new(Type::Any), Box::new(Type::Any)), Type::NoneType));
        s
    }

    /// The schema of `set`.
    fn builtin_set() -> (r: ClassSchema)
        ensures
            r@ == (SClass { name: "set"@, members: builtin_set_members(), bases: Seq::empty() }),
    {
        let mut s = ClassSchema::new(String::from_str("set"));
        s.add_method(String::from_str("add"), method1(Type::Any, Type::NoneType));
        s.add_method(String::from_str("remove"), method1(Type::Any, Type::NoneType));
        s.add_method(String::from_str("discard"), method1(Type::Any, Type::NoneType));
        s.add_method(String::from_str("clear"), method0(Type::NoneType));
        s.add_method(String::from_str("union"), method1(Type::SetOf(Box::new(Type::Any)), Type::SetOf(Box::new(Type::Any))));
        s.add_method(String::from_str("intersection"), method1(Type::SetOf(Box::new(Type::Any)), Type::SetOf(Box::new(Type::Any))));
        s
    }

    /// A context with no names, the schemas of `str`, `list`, `dict` and `set`, and the
    /// first fresh variable numbered 0.
    pub fn new() -> (r: Self)
        ensures
            r@.types == Map::<Seq<char>, SType>::empty(),
            r@.classes == builtin_classes(),
            r@.next_var == 0,
    {
        let mut ctx = TypeContext { types: new_types(), classes: new_classes(), next_var: 0 };
        ctx.init_builtins();
        assert(ctx@.types =~= Map::<Seq<char>, SType>::empty());
        assert(ctx@.classes =~= builtin_classes());
        ctx
    }

    /// Registers the schemas of the built-in classes.
    fn init_builtins(&mut self)
        requires
            forall|k: Seq<char>| !(#[trigger] old(self)@.classes.contains_key(k)),
        ensures
            final(self)@.types == old(self)@.types,
            final(self)@.next_var == old(self)@.next_var,
            final(self)@.classes == builtin_classes(),
    {
        assert(old(self)@.classes =~= Map::<Seq<char>, SClass>::empty());
        let s = Self::builtin_str();
        insert_class(&mut self.classes, String::from_str("str"), s);
        let l = Self::builtin_list();
        insert_class(&mut self.classes, String::from_str("list"), l);
        let d = Self::builtin_dict();
        insert_class(&mut self.classes, String::from_str("dict"), d);
        let t = Self::builtin_set();
        insert_class(&mut self.classes, String::from_str("set"), t);
        assert(self@.classes =~= builtin_classes());
    }

    /// A type variable not handed out before: the counter's value, which then moves on
    /// (wrapping at the top of `u64`).
    pub fn fresh_var(&mut self) -> (r: Type)
        ensures
            r@ == SType::Var(old(self)@.next_var),
            final(self)@.next_var == (if old(self)@.next_var == u64::MAX {
                0
            } else {
                old(self)@.next_var + 1
            }),
            final(self)@.types == old(self)@.types,
            final(self)@.classes == old(self)@.classes,
    {
        let id = self.next_var;
        self.next_var = if id == u64::MAX {
            0
        } else {
            id + 1
        };
        Type::Var(id)
    }

    /// Gives the name a type.
    pub fn set_type(&mut self, name: String, ty: Type)
        ensures
            final(self)@ == (SContext { types: old(self)@.types.insert(name@, ty@), ..old(self)@ }),
    {
        insert_type(&mut self.types, name, ty);
    }

    /// The type of the name, if it has one.
    pub fn get_type(&self, name: &str) -> (r: Option<Type>)
        ensures
            r matches Some(t) ==> self@.types.contains_key(name@) && t@ == self@.types[name@],
            r is None ==> !self@.types.contains_key(name@),
    {
        type_of(&self.types, name)
    }

    /// Registers a class under its name.
    pub fn register_class(&mut self, schema: ClassSchema)
        ensures
            final(self)@ == (SContext { classes: old(self)@.classes.insert(schema@.name, schema@), ..old(self)@ }),
    {
        let name = schema.name.clone();
        insert_class(&mut self.classes, name, schema);
    }

    /// The schema of the class, if it has one.
    pub fn get_class(&self, name: &str) -> (r: Option<ClassSchema>)
        ensures
            r matches Some(c) ==> self@.classes.contains_key(name@) && c@ == self@.classes[name@],
            r is None ==> !self@.classes.contains_key(name@),
    {
        class_of(&self.classes, name)
    }

    /// The attribute `attr` of a value of type `ty`, if it has one; classes are followed
    /// into their bases at most as many levels deep as there are classes.
    pub fn has_attribute(&self, ty: &Type, attr: &str) -> (r: Option<Type>)
        ensures
            opt_view(r) == has_attr(self@.classes, ty@, attr@, self@.classes.len()),
    {
        let fuel = class_count(&self.classes);
        self.attr_of(ty, attr, fuel)
    }

    fn attr_of(&self, ty: &Type, attr: &str, fuel: usize) -> (r: Option<Type>)
        ensures
            opt_view(r) == has_attr(self@.classes, ty@, attr@, fuel as nat),
        decreases size(ty@),
    {
        proof {
            crate::types::lemma_children_smaller(ty@);
        }
        match ty {
            Type::Class(name) => self.lookup_class_attribute(name.as_str(), attr, fuel),
            Type::Str => self.lookup_class_attribute("str", attr, fuel),
            Type::List(_) => self.lookup_class_attribute("list", attr, fuel),
            Type::Dict(_, _) => self.lookup_class_attribute("dict", attr, fuel),
            Type::SetOf(_) => self.lookup_class_attribute("set", attr, fuel),
            Type::Union(ts) => {
                let ghost cls = self@.classes;
                let ghost tv = tviews(ts@);
                let mut acc: Option<Type> = None;
                let mut i: usize = 0;
                assert(tv.subrange(0, tv.len() as int) =~= tv);
                while i < ts.len()
                    invariant
                        0 <= i <= ts.len(),
                        tv == tviews(ts@),
                        cls == self@.classes,
                        ty@ == SType::Union(tv),
                        union_attr(cls, tv, attr@, fuel as nat, None) == union_attr(
                            cls,
                            tv.subrange(i as int, tv.len() as int),
                            attr@,
                            fuel as nat,
                            opt_view(acc),
                        ),
                    decreases ts.len() - i,
                {
                    proof {
                        lemma_tviews_index(ts@, i as int);
                        lemma_size_elem(tv, i as int);
                        assert(tv.subrange(i as int, tv.len() as int)[0] == tv[i as int]);
                        assert(tv.subrange(i as int, tv.len() as int).subrange(1, tv.len() - i) =~= tv.subrange(
                            i + 1,
                            tv.len() as int,
                        ));
                    }
                    match self.attr_of(&ts[i], attr, fuel) {
                        Some(a) => {
                            let ghost av = a@;
                            let next = match acc {
                                None => a,
                                Some(e) => {
                                    let ghost ev = e@;
                                    let v: Vec<Type> = vec![e, a];
                                    assert(tviews(v@) =~= seq![ev, av]);
                                    Type::union(v)
                                },
                            };
                            acc = Some(next);
                        },
                        None => {
                            return None;
                        },
                    }
                    i += 1;
                }
                assert(tv.subrange(i as int, tv.len() as int) =~= Seq::<SType>::empty());
                acc
            },
            Type::Intersection(ts) => {
                let ghost cls = self@.classes;
                let ghost tv = tviews(ts@);
                let mut i: usize = 0;
                assert(tv.subrange(0, tv.len() as int) =~= tv);
                while i < ts.len()
                    invariant
                        0 <= i <= ts.len(),
                        tv == tviews(ts@),
                        cls == self@.classes,
                        ty@ == SType::Intersection(tv),
                        first_attr(cls, tv, attr@, fuel as nat) == first_attr(
                            cls,
                            tv.subrange(i as int, tv.len() as int),
                            attr@,
                            fuel as nat,
                        ),
                    decreases ts.len() - i,
                {
                    proof {
                        lemma_tviews_index(ts@, i as int);
                        lemma_size_elem(tv, i as int);
                        assert(tv.subrange(i as int, tv.len() as int)[0] == tv[i as int]);
                        assert(tv.subrange(i as int, tv.len() as int).subrange(1, tv.len() - i) =~= tv.subrange(
                            i + 1,
                            tv.len() as int,
                        ));
                    }
                    let found = self.attr_of(&ts[i], attr, fuel);
                    if found.is_some() {
                        return found;
                    }
                    i += 1;
                }
                None
            },
            Type::Refinement(inner, _) => self.attr_of(inner, attr, fuel),
            Type::Effect(inner, _) => self.attr_of(inner, attr, fuel),
            Type::Dependent(inner, _) => self.attr_of(inner, attr, fuel),
            Type::Nominal(_, inner) => self.attr_of(inner, attr, fuel),
            _ => None,
        }
    }

    /// The attribute `attr` of the class `class_name` or, failing that, of its bases in
    /// order, at most `fuel` levels deep.
    fn lookup_class_attribute(&self, class_name: &str, attr: &str, fuel: usize) -> (r: Option<Type>)
        ensures
            opt_view(r) == lookup_attr(self@.classes, class_name@, attr@, fuel as nat),
        decreases fuel,
    {
        match class_of(&self.classes, class_name) {
            None => None,
            Some(schema) => {
                let own = schema.get_member(attr);
                if own.is_some() {
                    return own;
                }
                if fuel == 0 {
                    return None;
                }
                let ghost cls = self@.classes;
                let ghost bs = schema@.bases;
                let mut i: usize = 0;
                assert(bs.subrange(0, bs.len() as int) =~= bs);
                while i < schema.bases.len()
                    invariant
                        0 <= i <= schema.bases.len(),
                        fuel > 0,
                        cls == self@.classes,
                        cls.contains_key(class_name@),
                        cls[class_name@] == schema@,
                        !schema@.members.contains_key(attr@),
                        bs == schema@.bases,
                        bs == strings_view(schema.bases@),
                        bs.len() == schema.bases.len(),
                        bases_attr(cls, bs, attr@, (fuel - 1) as nat) == bases_attr(
                            cls,
                            bs.subrange(i as int, bs.len() as int),
                            attr@,
                            (fuel - 1) as nat,
                        ),
                    decreases schema.bases.len() - i,
                {
                    proof {
                        assert(bs.subrange(i as int, bs.len() as int)[0] == bs[i as int]);
                        assert(bs[i as int] == schema.bases@[i as int]@);
                        assert(bs.subrange(i as int, bs.len() as int).subrange(1, bs.len() - i) =~= bs.subrange(
                            i + 1,
                            bs.len() as int,
                        ));
                    }
                    let found = self.lookup_class_attribute(schema.bases[i].as_str(), attr, fuel - 1);
                    if found.is_some() {
                        return found;
                    }
                    i += 1;
                }
                None
            },
        }
    }

    /// The names of the attributes that a value of type `ty` offers, for suggestions;
    /// each comes once per class that defines it, in an order that nothing here fixes.
    pub fn get_attributes(&self, ty: &Type) -> (r: Vec<String>)
        ensures
            forall|s: Seq<char>|
                #[trigger] strings_view(r@).contains(s) <==> (attr_class(ty@) is Some
                    && class_attr_names(self@.classes, attr_class(ty@)->0, self@.classes.len()).contains(s)),
    {
        let fuel = class_count(&self.classes);
        match ty {
            Type::Class(name) => self.get_class_attributes(name.as_str(), fuel),
            Type::Str => self.get_class_attributes("str", fuel),
            Type::List(_) => self.get_class_attributes("list", fuel),
            Type::Dict(_, _) => self.get_class_attributes("dict", fuel),
            Type::SetOf(_) => self.get_class_attributes("set", fuel),
            _ => {
                let r: Vec<String> = Vec::new();
                assert(strings_view(r@) =~= Seq::<Seq<char>>::empty());
                r
            },
        }
    }

    fn get_class_attributes(&self, class_name: &str, fuel: usize) -> (r: Vec<String>)
        ensures
            forall|s: Seq<char>|
                #[trigger] strings_view(r@).contains(s) <==> class_attr_names(
                    self@.classes,
                    class_name@,
                    fuel as nat,
                ).contains(s),
        decreases fuel,
    {
        let ghost cls = self@.classes;
        match class_of(&self.classes, class_name) {
            None => {
                let r: Vec<String> = Vec::new();
                assert(strings_view(r@) =~= Seq::<Seq<char>>::empty());
                r
            },
            Some(schema) => {
                let mut attrs = member_names(&schema.members);
                if fuel == 0 {
                    return attrs;
                }
                let ghost own = schema@.members.dom();
                let ghost bs = schema@.bases;
                let ghost f = (fuel - 1) as nat;
                let ghost target = class_attr_names(cls, class_name@, fuel as nat);
                let mut i: usize = 0;
                assert(bs.subrange(0, bs.len() as int) =~= bs);
                while i < schema.bases.len()
                    invariant
                        0 <= i <= schema.bases.len(),
                        fuel > 0,
                        f == fuel - 1,
                        cls == self@.classes,
                        cls.contains_key(class_name@),
                        cls[class_name@] == schema@,
                        bs == schema@.bases,
                        bs == strings_view(schema.bases@),
                        bs.len() == schema.bases.len(),
                        target == own.union(bases_attr_names(cls, bs, f)),
                        forall|s: Seq<char>|
                            #[trigger] target.contains(s) <==> (strings_view(attrs@).contains(s)
                                || bases_attr_names(cls, bs.subrange(i as int, bs.len() as int), f).contains(s)),
                    decreases schema.bases.len() - i,
                {
                    let mut more = self.get_class_attributes(schema.bases[i].as_str(), fuel - 1);
                    let ghost before = attrs@;
                    let ghost added = more@;
                    let ghost sub = bs.subrange(i as int, bs.len() as int);
                    assert(bs[i as int] == schema.bases@[i as int]@);
                    assert(sub[0] == bs[i as int]);
                    assert(sub.subrange(1, sub.len() as int) =~= bs.subrange(i + 1, bs.len() as int));
                    attrs.append(&mut more);
                    assert(strings_view(attrs@) =~= strings_view(before) + strings_view(added));
                    assert forall|s: Seq<char>| #[trigger] target.contains(s) <==> (strings_view(attrs@).contains(s)
                        || bases_attr_names(cls, bs.subrange(i + 1, bs.len() as int), f).contains(s)) by {
                        lemma_concat_contains(strings_view(before), strings_view(added), s);
                    }
                    i += 1;
                }
                assert forall|s: Seq<char>| #[trigger] strings_view(attrs@).contains(s) <==> target.contains(s) by {
                    assert(bs.subrange(i as int, bs.len() as int).len() == 0);
                }
                attrs
            },
        }
    }
}

impl Default for TypeContext {
    fn default() -> (r: Self)
        ensures
            r@.types == Map::<Seq<char>, SType>::empty(),
            r@.classes == builtin_classes(),
            r@.next_var == 0,
    {
        TypeContext::new()
    }
}

/// A concatenation holds what either part holds.
proof fn lemma_concat_contains(a: Seq<Seq<char>>, b: Seq<Seq<char>>, s: Seq<char>)
    ensures
        (a + b).contains(s) <==> a.contains(s) || b.contains(s),
{
    if (a + b).contains(s) {
        let k = choose|k: int| 0 <= k < (a + b).len() && (a + b)[k] == s;
        if k < a.len() {
            assert(a[k] == s);
        } else {
            assert(b[k - a.len()] == s);
        }
    }
    if a.contains(s) {
        let k = choose|k: int| 0 <= k < a.len() && a[k] == s;
        assert((a + b)[k] == s);
    }
    if b.contains(s) {
        let k = choose|k: int| 0 <= k < b.len() && b[k] == s;
        assert((a + b)[a.len() + k] == s);
    }
}

/// The model of an optional type.
pub open spec fn opt_view(o: Option<Type>) -> Option<SType> {
    match o {
        Some(t) => Some(t@),
        None => None,
    }
}

} // verus!
