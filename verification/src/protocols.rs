//! Structural protocols: the method lists that a type must offer.
use vstd::prelude::*;
use crate::types::{Type, SType, tviews, lemma_tviews_index};
use crate::constraints::{ConstraintSolver, Method, methods_view, compose_methods};

verus! {

/// The model of a function type.
pub open spec fn sfn(params: Seq<SType>, ret: SType) -> SType {
    SType::Function(params, Box::new(ret))
}

/// The model of the class `Self`.
pub open spec fn self_class() -> SType {
    SType::Class("Self"@)
}

/// The model of a generic type with one argument.
pub open spec fn generic1(name: Seq<char>, arg: SType) -> SType {
    SType::Generic(name, seq![arg])
}

pub open spec fn sized_spec() -> Seq<(Seq<char>, SType)> {
    seq![("__len__"@, sfn(seq![], SType::Int))]
}

pub open spec fn iterable_spec(e: SType) -> Seq<(Seq<char>, SType)> {
    seq![("__iter__"@, sfn(seq![], generic1("Iterator"@, e)))]
}

pub open spec fn iterator_spec(e: SType) -> Seq<(Seq<char>, SType)> {
    seq![("__iter__"@, sfn(seq![], self_class())), ("__next__"@, sfn(seq![], e))]
}

pub open spec fn callable_spec(params: Seq<SType>, ret: SType) -> Seq<(Seq<char>, SType)> {
    seq![("__call__"@, sfn(params, ret))]
}

pub open spec fn context_manager_spec(r: SType) -> Seq<(Seq<char>, SType)> {
    seq![
        ("__enter__"@, sfn(seq![], r)),
        ("__exit__"@, sfn(seq![SType::Any, SType::Any, SType::Any], SType::NoneType)),
    ]
}

pub open spec fn comparable_spec() -> Seq<(Seq<char>, SType)> {
    let c = sfn(seq![self_class()], SType::Bool);
    seq![
        ("__lt__"@, c),
        ("__le__"@, c),
        ("__gt__"@, c),
        ("__ge__"@, c),
        ("__eq__"@, c),
        ("__ne__"@, c),
    ]
}

pub open spec fn numeric_spec() -> Seq<(Seq<char>, SType)> {
    let b = sfn(seq![self_class()], self_class());
    seq![
        ("__add__"@, b),
        ("__sub__"@, b),
        ("__mul__"@, b),
        ("__truediv__"@, b),
        ("__floordiv__"@, b),
        ("__mod__"@, b),
    ]
}

pub open spec fn hashable_spec() -> Seq<(Seq<char>, SType)> {
    seq![("__hash__"@, sfn(seq![], SType::Int))]
}

pub open spec fn equality_spec() -> Seq<(Seq<char>, SType)> {
    seq![("__eq__"@, sfn(seq![SType::Any], SType::Bool))]
}

pub open spec fn container_spec(e: SType) -> Seq<(Seq<char>, SType)> {
    compose_methods(sized_spec(), iterable_spec(e))
}

pub open spec fn sequence_spec(e: SType) -> Seq<(Seq<char>, SType)> {
    container_spec(e) + seq![
        ("__getitem__"@, sfn(seq![SType::Int], e)),
        ("count"@, sfn(seq![e], SType::Int)),
        ("index"@, sfn(seq![e], SType::Int)),
    ]
}

pub open spec fn mapping_spec(k: SType, v: SType) -> Seq<(Seq<char>, SType)> {
    seq![
        ("__getitem__"@, sfn(seq![k], v)),
        ("__setitem__"@, sfn(seq![k, v], SType::NoneType)),
        ("__delitem__"@, sfn(seq![k], SType::NoneType)),
        ("__contains__"@, sfn(seq![k], SType::Bool)),
        ("keys"@, sfn(seq![], SType::Generic("KeysView"@, seq![]))),
        ("values"@, sfn(seq![], SType::Generic("ValuesView"@, seq![]))),
        ("items"@, sfn(seq![], SType::Generic("ItemsView"@, seq![]))),
    ]
}

pub open spec fn awaitable_spec(r: SType) -> Seq<(Seq<char>, SType)> {
    seq![("__await__"@, sfn(seq![], generic1("Iterator"@, r)))]
}

pub open spec fn async_iterable_spec(e: SType) -> Seq<(Seq<char>, SType)> {
    seq![("__aiter__"@, sfn(seq![], generic1("AsyncIterator"@, e)))]
}

pub open spec fn async_iterator_spec(e: SType) -> Seq<(Seq<char>, SType)> {
    seq![("__aiter__"@, sfn(seq![], self_class())), ("__anext__"@, sfn(seq![], e))]
}

pub open spec fn reversible_spec(e: SType) -> Seq<(Seq<char>, SType)> {
    iterable_spec(e).push(("__reversed__"@, sfn(seq![], generic1("Iterator"@, e))))
}

/// A protocol with a single conversion method returning the given type.
pub open spec fn conversion_spec(name: Seq<char>, ret: SType) -> Seq<(Seq<char>, SType)> {
    seq![(name, sfn(seq![], ret))]
}

/// The protocol of the given name, instantiated with the given type arguments; `None` for
/// an unknown name or too few arguments.
pub open spec fn protocol_spec(name: Seq<char>, args: Seq<SType>) -> Option<
    Seq<(Seq<char>, SType)>,
> {
    if name == "Sized"@ {
        Some(sized_spec())
    } else if name == "Iterable"@ {
        if args.len() >= 1 { Some(iterable_spec(args[0])) } else { None }
    } else if name == "Iterator"@ {
        if args.len() >= 1 { Some(iterator_spec(args[0])) } else { None }
    } else if name == "Container"@ {
        if args.len() >= 1 { Some(container_spec(args[0])) } else { None }
    } else if name == "Sequence"@ {
        if args.len() >= 1 { Some(sequence_spec(args[0])) } else { None }
    } else if name == "Mapping"@ {
        if args.len() >= 2 { Some(mapping_spec(args[0], args[1])) } else { None }
    } else if name == "Comparable"@ {
        Some(comparable_spec())
    } else if name == "Numeric"@ {
        Some(numeric_spec())
    } else if name == "Hashable"@ {
        Some(hashable_spec())
    } else if name == "Equality"@ {
        Some(equality_spec())
    } else if name == "Callable"@ {
        if args.len() >= 2 {
            Some(callable_spec(args.take(args.len() - 1), args.last()))
        } else {
            None
        }
    } else if name == "ContextManager"@ {
        if args.len() >= 1 { Some(context_manager_spec(args[0])) } else { None }
    } else if name == "Awaitable"@ {
        if args.len() >= 1 { Some(awaitable_spec(args[0])) } else { None }
    } else if name == "AsyncIterable"@ {
        if args.len() >= 1 { Some(async_iterable_spec(args[0])) } else { None }
    } else if name == "AsyncIterator"@ {
        if args.len() >= 1 { Some(async_iterator_spec(args[0])) } else { None }
    } else if name == "Reversible"@ {
        if args.len() >= 1 { Some(reversible_spec(args[0])) } else { None }
    } else if name == "SupportsInt"@ {
        Some(conversion_spec("__int__"@, SType::Int))
    } else if name == "SupportsFloat"@ {
        Some(conversion_spec("__float__"@, SType::Float))
    } else if name == "SupportsStr"@ {
        Some(conversion_spec("__str__"@, SType::Str))
    } else if name == "SupportsRepr"@ {
        Some(conversion_spec("__repr__"@, SType::Str))
    } else if name == "SupportsBool"@ {
        Some(conversion_spec("__bool__"@, SType::Bool))
    } else if name == "SupportsBytes"@ {
        Some(conversion_spec("__bytes__"@, SType::Bytes))
    } else {
        None
    }
}

/// Whether two strings hold the same characters.
pub fn text_eq(a: &str, b: &str) -> (r: bool)
    ensures
        r == (a@ == b@),
{
    String::from_str(a) == String::from_str(b)
}

/// A method entry.
fn method(name: &str, ty: Type) -> (r: Method)
    ensures
        r.0@ == name@,
        r.1@ == ty@,
{
    (String::from_str(name), ty)
}

/// A function type.
fn func(params: Vec<Type>, ret: Type) -> (r: Type)
    ensures
        r@ == sfn(tviews(params@), ret@),
{
    Type::Function(params, Box::new(ret))
}

/// A function type without parameters.
fn thunk(ret: Type) -> (r: Type)
    ensures
        r@ == sfn(seq![], ret@),
{
    let r = func(Vec::new(), ret);
    assert(tviews(Seq::<Type>::empty()) =~= Seq::<SType>::empty());
    r
}

/// A function type with one parameter.
fn unary(param: Type, ret: Type) -> (r: Type)
    ensures
        r@ == sfn(seq![param@], ret@),
{
    let mut ps = Vec::new();
    ps.push(param);
    let r = func(ps, ret);
    assert(tviews(ps@) =~= seq![ps@[0]@]);
    r
}

/// A generic type with one argument.
fn generic_of(name: &str, arg: Type) -> (r: Type)
    ensures
        r@ == generic1(name@, arg@),
{
    let mut args = Vec::new();
    args.push(arg);
    assert(tviews(args@) =~= seq![args@[0]@]);
    Type::Generic(String::from_str(name), args)
}

/// A generic type without arguments.
fn generic_none(name: &str) -> (r: Type)
    ensures
        r@ == SType::Generic(name@, seq![]),
{
    let args: Vec<Type> = Vec::new();
    assert(tviews(args@) =~= Seq::<SType>::empty());
    Type::Generic(String::from_str(name), args)
}

/// The class `Self`.
fn self_type() -> (r: Type)
    ensures
        r@ == self_class(),
{
    Type::Class(String::from_str("Self"))
}

/// A protocol with a single conversion method.
fn conversion(name: &str, ret: Type) -> (r: Vec<Method>)
    ensures
        methods_view(r@) == conversion_spec(name@, ret@),
{
    let mut v = Vec::new();
    v.push(method(name, thunk(ret)));
    v
}

/// Common protocol definitions for structural typing.
pub struct ProtocolLibrary;

impl ProtocolLibrary {
    /// Sized protocol: has `__len__`.
    pub fn sized() -> (r: Vec<Method>)
        ensures
            methods_view(r@) == sized_spec(),
    {
        let mut v = Vec::new();
        v.push(method("__len__", thunk(Type::Int)));
        v
    }

    /// Iterable protocol: has `__iter__`.
    pub fn iterable(elem_type: Type) -> (r: Vec<Method>)
        ensures
            methods_view(r@) == iterable_spec(elem_type@),
    {
        let mut v = Vec::new();
        v.push(method("__iter__", thunk(generic_of("Iterator", elem_type))));
        v
    }

    /// Iterator protocol: has `__next__` and `__iter__`.
    pub fn iterator(elem_type: Type) -> (r: Vec<Method>)
        ensures
            methods_view(r@) == iterator_spec(elem_type@),
    {
        let mut v = Vec::new();
        v.push(method("__iter__", thunk(self_type())));
        v.push(method("__next__", thunk(elem_type)));
        v
    }

    /// Callable protocol: has `__call__`.
    pub fn callable(param_types: Vec<Type>, return_type: Type) -> (r: Vec<Method>)
        ensures
            methods_view(r@) == callable_spec(tviews(param_types@), return_type@),
    {
        let mut v = Vec::new();
        v.push(method("__call__", func(param_types, return_type)));
        v
    }

    /// Context manager protocol: has `__enter__` and `__exit__`.
    pub fn context_manager(resource_type: Type) -> (r: Vec<Method>)
        ensures
            methods_view(r@) == context_manager_spec(resource_type@),
    {
        let mut ps = Vec::new();
        ps.push(Type::Any);
        ps.push(Type::Any);
        ps.push(Type::Any);
        assert(tviews(ps@) =~= seq![SType::Any, SType::Any, SType::Any]);
        let mut v = Vec::new();
        v.push(method("__enter__", thunk(resource_type)));
        v.push(method("__exit__", func(ps, Type::NoneType)));
        v
    }

    /// Comparable protocol: has the comparison operators.
    pub fn comparable() -> (r: Vec<Method>)
        ensures
            methods_view(r@) == comparable_spec(),
    {
        let comparison_type = unary(self_type(), Type::Bool);
        let mut v = Vec::new();
        v.push(method("__lt__", comparison_type.clone()));
        v.push(method("__le__", comparison_type.clone()));
        v.push(method("__gt__", comparison_type.clone()));
        v.push(method("__ge__", comparison_type.clone()));
        v.push(method("__eq__", comparison_type.clone()));
        v.push(method("__ne__", comparison_type));
        v
    }

    /// Numeric protocol: has the arithmetic operators.
    pub fn numeric() -> (r: Vec<Method>)
        ensures
            methods_view(r@) == numeric_spec(),
    {
        let binary_op = unary(self_type(), self_type());
        let mut v = Vec::new();
        v.push(method("__add__", binary_op.clone()));
        v.push(method("__sub__", binary_op.clone()));
        v.push(method("__mul__", binary_op.clone()));
        v.push(method("__truediv__", binary_op.clone()));
        v.push(method("__floordiv__", binary_op.clone()));
        v.push(method("__mod__", binary_op));
        v
    }

    /// Hashable protocol: has `__hash__`.
    pub fn hashable() -> (r: Vec<Method>)
        ensures
            methods_view(r@) == hashable_spec(),
    {
        let mut v = Vec::new();
        v.push(method("__hash__", thunk(Type::Int)));
        v
    }

    /// Equality protocol: has `__eq__`.
    pub fn equality() -> (r: Vec<Method>)
        ensures
            methods_view(r@) == equality_spec(),
    {
        let mut v = Vec::new();
        v.push(method("__eq__", unary(Type::Any, Type::Bool)));
        v
    }

    /// Container protocol: Sized composed with Iterable.
    pub fn container(elem_type: Type) -> (r: Vec<Method>)
        ensures
            methods_view(r@) == container_spec(elem_type@),
    {
        let s = Self::sized();
        let i = Self::iterable(elem_type);
        let r = ConstraintSolver::compose_protocols(s.as_slice(), i.as_slice());
        assert(methods_view(s@) =~~= sized_spec());
        assert(methods_view(i@) =~~= iterable_spec(elem_type@));
        r
    }

    /// Sequence protocol: an indexable container.
    pub fn sequence(elem_type: Type) -> (r: Vec<Method>)
        ensures
            methods_view(r@) == sequence_spec(elem_type@),
    {
        let mut methods = Self::container(elem_type.clone());
        let ghost c = methods_view(methods@);
        methods.push(method("__getitem__", unary(Type::Int, elem_type.clone())));
        methods.push(method("count", unary(elem_type.clone(), Type::Int)));
        methods.push(method("index", unary(elem_type, Type::Int)));
        assert(methods_view(methods@) =~~= c + seq![
            methods_view(methods@)[c.len() as int],
            methods_view(methods@)[c.len() as int + 1],
            methods_view(methods@)[c.len() as int + 2],
        ]);
        methods
    }

    /// Mapping protocol: a dict-like interface.
    pub fn mapping(key_type: Type, value_type: Type) -> (r: Vec<Method>)
        ensures
            methods_view(r@) == mapping_spec(key_type@, value_type@),
    {
        let mut kv = Vec::new();
        kv.push(key_type.clone());
        kv.push(value_type.clone());
        assert(tviews(kv@) =~= seq![key_type@, value_type@]);
        let mut v = Vec::new();
        v.push(method("__getitem__", unary(key_type.clone(), value_type)));
        v.push(method("__setitem__", func(kv, Type::NoneType)));
        v.push(method("__delitem__", unary(key_type.clone(), Type::NoneType)));
        v.push(method("__contains__", unary(key_type, Type::Bool)));
        v.push(method("keys", thunk(generic_none("KeysView"))));
        v.push(method("values", thunk(generic_none("ValuesView"))));
        v.push(method("items", thunk(generic_none("ItemsView"))));
        v
    }

    /// Awaitable protocol: can be awaited.
    pub fn awaitable(result_type: Type) -> (r: Vec<Method>)
        ensures
            methods_view(r@) == awaitable_spec(result_type@),
    {
        let mut v = Vec::new();
        v.push(method("__await__", thunk(generic_of("Iterator", result_type))));
        v
    }

    /// AsyncIterable protocol: has `__aiter__`.
    pub fn async_iterable(elem_type: Type) -> (r: Vec<Method>)
        ensures
            methods_view(r@) == async_iterable_spec(elem_type@),
    {
        let mut v = Vec::new();
        v.push(method("__aiter__", thunk(generic_of("AsyncIterator", elem_type))));
        v
    }

    /// AsyncIterator protocol: has `__aiter__` and `__anext__`.
    pub fn async_iterator(elem_type: Type) -> (r: Vec<Method>)
        ensures
            methods_view(r@) == async_iterator_spec(elem_type@),
    {
        let mut v = Vec::new();
        v.push(method("__aiter__", thunk(self_type())));
        v.push(method("__anext__", thunk(elem_type)));
        v
    }

    /// Reversible protocol: iterable with `__reversed__`.
    pub fn reversible(elem_type: Type) -> (r: Vec<Method>)
        ensures
            methods_view(r@) == reversible_spec(elem_type@),
    {
        let mut methods = Self::iterable(elem_type.clone());
        methods.push(method("__reversed__", thunk(generic_of("Iterator", elem_type))));
        methods
    }

    /// SupportsInt protocol: has `__int__`.
    pub fn supports_int() -> (r: Vec<Method>)
        ensures
            methods_view(r@) == conversion_spec("__int__"@, SType::Int),
    {
        conversion("__int__", Type::Int)
    }

    /// SupportsFloat protocol: has `__float__`.
    pub fn supports_float() -> (r: Vec<Method>)
        ensures
            methods_view(r@) == conversion_spec("__float__"@, SType::Float),
    {
        conversion("__float__", Type::Float)
    }

    /// SupportsStr protocol: has `__str__`.
    pub fn supports_str() -> (r: Vec<Method>)
        ensures
            methods_view(r@) == conversion_spec("__str__"@, SType::Str),
    {
        conversion("__str__", Type::Str)
    }

    /// SupportsRepr protocol: has `__repr__`.
    pub fn supports_repr() -> (r: Vec<Method>)
        ensures
            methods_view(r@) == conversion_spec("__repr__"@, SType::Str),
    {
        conversion("__repr__", Type::Str)
    }

    /// SupportsBool protocol: has `__bool__`.
    pub fn supports_bool() -> (r: Vec<Method>)
        ensures
            methods_view(r@) == conversion_spec("__bool__"@, SType::Bool),
    {
        conversion("__bool__", Type::Bool)
    }

    /// SupportsBytes protocol: has `__bytes__`.
    pub fn supports_bytes() -> (r: Vec<Method>)
        ensures
            methods_view(r@) == conversion_spec("__bytes__"@, SType::Bytes),
    {
        conversion("__bytes__", Type::Bytes)
    }

    /// The protocol of the given name, instantiated with the given type arguments; `None`
    /// for an unknown name or too few arguments.
    pub fn get_protocol(name: &str, type_args: &[Type]) -> (r: Option<Vec<Method>>)
        ensures
            r is Some <==> protocol_spec(name@, tviews(type_args@)) is Some,
            r matches Some(m) ==> Some(methods_view(m@)) == protocol_spec(name@, tviews(type_args@)),
    {
        let ghost args = tviews(type_args@);
        assert(args.len() == type_args.len());
        if type_args.len() >= 1 {
            proof {
                lemma_tviews_index(type_args@, 0);
            }
        }
        if type_args.len() >= 2 {
            proof {
                lemma_tviews_index(type_args@, 1);
            }
        }
        if text_eq(name, "Sized") {
            Some(Self::sized())
        } else if text_eq(name, "Iterable") {
            if type_args.len() >= 1 { Some(Self::iterable(type_args[0].clone())) } else { None }
        } else if text_eq(name, "Iterator") {
            if type_args.len() >= 1 { Some(Self::iterator(type_args[0].clone())) } else { None }
        } else if text_eq(name, "Container") {
            if type_args.len() >= 1 { Some(Self::container(type_args[0].clone())) } else { None }
        } else if text_eq(name, "Sequence") {
            if type_args.len() >= 1 { Some(Self::sequence(type_args[0].clone())) } else { None }
        } else if text_eq(name, "Mapping") {
            if type_args.len() >= 2 {
                Some(Self::mapping(type_args[0].clone(), type_args[1].clone()))
            } else {
                None
            }
        } else if text_eq(name, "Comparable") {
            Some(Self::comparable())
        } else if text_eq(name, "Numeric") {
            Some(Self::numeric())
        } else if text_eq(name, "Hashable") {
            Some(Self::hashable())
        } else if text_eq(name, "Equality") {
            Some(Self::equality())
        } else if text_eq(name, "Callable") {
            if type_args.len() >= 2 {
                let n = type_args.len() - 1;
                let params = clone_prefix(type_args, n);
                proof {
                    lemma_tviews_index(type_args@, n as int);
                    assert(tviews(type_args@.take(n as int)) =~= args.take(n as int));
                }
                Some(Self::callable(params, type_args[n].clone()))
            } else {
                None
            }
        } else if text_eq(name, "ContextManager") {
            if type_args.len() >= 1 {
                Some(Self::context_manager(type_args[0].clone()))
            } else {
                None
            }
        } else if text_eq(name, "Awaitable") {
            if type_args.len() >= 1 { Some(Self::awaitable(type_args[0].clone())) } else { None }
        } else if text_eq(name, "AsyncIterable") {
            if type_args.len() >= 1 {
                Some(Self::async_iterable(type_args[0].clone()))
            } else {
                None
            }
        } else if text_eq(name, "AsyncIterator") {
            if type_args.len() >= 1 {
                Some(Self::async_iterator(type_args[0].clone()))
            } else {
                None
            }
        } else if text_eq(name, "Reversible") {
            if type_args.len() >= 1 { Some(Self::reversible(type_args[0].clone())) } else { None }
        } else if text_eq(name, "SupportsInt") {
            Some(Self::supports_int())
        } else if text_eq(name, "SupportsFloat") {
            Some(Self::supports_float())
        } else if text_eq(name, "SupportsStr") {
            Some(Self::supports_str())
        } else if text_eq(name, "SupportsRepr") {
            Some(Self::supports_repr())
        } else if text_eq(name, "SupportsBool") {
            Some(Self::supports_bool())
        } else if text_eq(name, "SupportsBytes") {
            Some(Self::supports_bytes())
        } else {
            None
        }
    }
}

/// Copies the first `n` types of a list.
fn clone_prefix(v: &[Type], n: usize) -> (r: Vec<Type>)
    requires
        n <= v@.len(),
    ensures
        tviews(r@) == tviews(v@.take(n as int)),
{
    let mut r: Vec<Type> = Vec::new();
    let mut i: usize = 0;
    while i < n
        invariant
            0 <= i <= n,
            n <= v@.len(),
            r.len() == i,
            forall|j: int| 0 <= j < i ==> r@[j]@ == v@[j]@,
        decreases n - i,
    {
        r.push(v[i].clone());
        i += 1;
    }
    assert(tviews(r@) =~= tviews(v@.take(n as int)));
    r
}

/// Protocol checker for type compatibility.
pub struct ProtocolChecker;

impl ProtocolChecker {
    /// Whether a type implements a named protocol: an unknown protocol is not implemented,
    /// and the solver's protocol check decides a known one (it defers every protocol, so
    /// none is reported implemented).
    pub fn implements_protocol(
        ty: &Type,
        protocol_name: &str,
        type_args: &[Type],
        solver: &ConstraintSolver,
    ) -> (r: bool)
        ensures
            !r,
    {
        if let Some(methods) = ProtocolLibrary::get_protocol(protocol_name, type_args) {
            match solver.check_protocol(ty, methods.as_slice()) {
                Ok(b) => b,
                Err(_) => false,
            }
        } else {
            false
        }
    }

    /// The protocols, among those without type arguments, that a type implements.
    pub fn implemented_protocols(ty: &Type, solver: &ConstraintSolver) -> (r: Vec<String>)
        ensures
            r@.len() == 0,
    {
        let mut names: Vec<&str> = Vec::new();
        names.push("Sized");
        names.push("Hashable");
        names.push("Equality");
        names.push("Comparable");
        names.push("Numeric");
        names.push("SupportsInt");
        names.push("SupportsFloat");
        names.push("SupportsStr");
        names.push("SupportsRepr");
        names.push("SupportsBool");
        names.push("SupportsBytes");
        let no_args: Vec<Type> = Vec::new();
        let mut found: Vec<String> = Vec::new();
        let mut i: usize = 0;
        while i < names.len()
            invariant
                0 <= i <= names.len(),
                found@.len() == 0,
            decreases names.len() - i,
        {
            if Self::implements_protocol(ty, names[i], no_args.as_slice(), solver) {
                found.push(String::from_str(names[i]));
            }
            i += 1;
        }
        found
    }
}

} // verus!
