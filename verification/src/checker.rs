//! The type checker of Python modules: types from annotations, compatibility of types,
//! and the checking of statements and expressions.
use vstd::prelude::*;
use crate::types::{Type, SType, tviews, lemma_tviews_index, size, lemma_size_elem,
    lemma_children_smaller, SPredicate, SPredExpr, CompareOp};
use crate::equality::lemma_view_tag;
use crate::pyast::{Expr, Constant, Operator, UnaryOp, Comprehension, Stmt, Param, Module};
use crate::types::SEffect;
use crate::context::{SClass, has_attr, class_attr_names, attr_class};
use crate::subtype::{subtype, union_of};
use crate::constraints::{SConstraint, SolverState};
use crate::display::{type_str, decimal, join};
use crate::debug::type_dbg;
use crate::errors::similar_names;
use crate::ops::effects_pure;
use crate::context::{TypeContext, builtin_classes, opt_view};
use crate::effects::EffectAnalyzer;
use crate::advanced::AdvancedTypeAnalyzer;
use crate::variance::VarianceAnalyzer;
use crate::constraints::{ConstraintSolver, Constraint};
use crate::assoc::{keyed_map, lemma_keyed_get, lemma_keyed_absent, lemma_keyed_set_last};
use crate::display::{write_u64, write_type};
use crate::debug::write_type_dbg;
use crate::errors::{close_names, strings_view, unmeasurable};
use crate::clone::clone_types;
use crate::errors::{STypeError, errors_view};
use crate::advanced::productive;
use crate::refinement::{JsonValue, holds, check_ok};
use crate::effects::analyze_all;
use crate::constraints::{run, exact_errors, SSolveError};
use crate::types::EffectSet;
use crate::protocols::text_eq;
use crate::refinement::RefinementAnalyzer;

verus! {

/// The type `int` refined to positive values.
pub open spec fn positive_type() -> SType {
    SType::Refinement(
        Box::new(SType::Int),
        SPredicate::Compare(CompareOp::Gt, SPredExpr::Value, SPredExpr::Literal(0)),
    )
}

/// The type `int` refined to negative values.
pub open spec fn negative_type() -> SType {
    SType::Refinement(
        Box::new(SType::Int),
        SPredicate::Compare(CompareOp::Lt, SPredExpr::Value, SPredExpr::Literal(0)),
    )
}

/// The type `str` refined to non-empty values.
pub open spec fn non_empty_type() -> SType {
    SType::Refinement(
        Box::new(SType::Str),
        SPredicate::Compare(CompareOp::Gt, SPredExpr::Property("len"@), SPredExpr::Literal(0)),
    )
}

/// The type `int` refined to `min..=max`.
pub open spec fn bounded_type(min: i64, max: i64) -> SType {
    SType::Refinement(
        Box::new(SType::Int),
        SPredicate::And(
            seq![
                SPredicate::Compare(CompareOp::Ge, SPredExpr::Value, SPredExpr::Literal(min)),
                SPredicate::Compare(CompareOp::Le, SPredExpr::Value, SPredExpr::Literal(max)),
            ],
        ),
    )
}

/// The value of an integer literal that fits in an `i64`.
pub open spec fn int_literal(e: Expr) -> Option<i64> {
    match e {
        Expr::Constant(Constant::Int(v)) => v,
        _ => None,
    }
}

/// The type that an annotation denotes.
pub open spec fn annotation_type(e: Expr) -> SType
    decreases e,
{
    match e {
        Expr::Name(id) => {
            let n = id@;
            if n == "int"@ {
                SType::Int
            } else if n == "float"@ {
                SType::Float
            } else if n == "str"@ {
                SType::Str
            } else if n == "bool"@ {
                SType::Bool
            } else if n == "bytes"@ {
                SType::Bytes
            } else if n == "None"@ {
                SType::NoneType
            } else if n == "Any"@ {
                SType::Any
            } else if n == "Positive"@ {
                positive_type()
            } else if n == "Negative"@ {
                negative_type()
            } else if n == "NonEmpty"@ {
                non_empty_type()
            } else {
                SType::Class(n)
            }
        },
        Expr::Subscript(v, slice) => match *v {
            Expr::Name(id) => {
                let n = id@;
                if n == "list"@ || n == "List"@ {
                    SType::List(Box::new(annotation_type(*slice)))
                } else if n == "set"@ || n == "Set"@ {
                    SType::SetOf(Box::new(annotation_type(*slice)))
                } else if n == "tuple"@ || n == "Tuple"@ {
                    match *slice {
                        Expr::Tuple(es) => SType::Tuple(annotation_types(es@)),
                        _ => SType::Tuple(seq![annotation_type(*slice)]),
                    }
                } else if n == "dict"@ || n == "Dict"@ {
                    match *slice {
                        Expr::Tuple(es) => if es.len() == 2 {
                            SType::Dict(
                                Box::new(annotation_type(es@[0])),
                                Box::new(annotation_type(es@[1])),
                            )
                        } else {
                            SType::Dict(Box::new(SType::Any), Box::new(SType::Any))
                        },
                        _ => SType::Dict(Box::new(SType::Any), Box::new(SType::Any)),
                    }
                } else if n == "Union"@ {
                    match *slice {
                        Expr::Tuple(es) => SType::Union(annotation_types(es@)),
                        _ => SType::Union(seq![annotation_type(*slice)]),
                    }
                } else if n == "Optional"@ {
                    SType::Union(seq![annotation_type(*slice), SType::NoneType])
                } else if n == "EffectType"@ || n == "RefinementType"@ {
                    annotation_type(*slice)
                } else if n == "RecursiveType"@ {
                    match *slice {
                        Expr::Constant(Constant::Str(s)) => SType::Class(s@),
                        _ => SType::Any,
                    }
                } else {
                    SType::Generic(n, seq![annotation_type(*slice)])
                }
            },
            _ => SType::Any,
        },
        Expr::BinOp(l, op, r) => if op == Operator::BitOr {
            SType::Union(seq![annotation_type(*l), annotation_type(*r)])
        } else {
            SType::Any
        },
        Expr::Call(f, args) => match *f {
            Expr::Name(id) => if id@ == "Bounded"@ {
                if args.len() == 2 && int_literal(args@[0]) is Some && int_literal(args@[1]) is Some {
                    bounded_type(int_literal(args@[0])->0, int_literal(args@[1])->0)
                } else {
                    SType::Int
                }
            } else {
                SType::Any
            },
            _ => SType::Any,
        },
        _ => SType::Any,
    }
}

/// The types that a list of annotations denotes.
pub open spec fn annotation_types(es: Seq<Expr>) -> Seq<SType>
    decreases es,
{
    Seq::new(es.len(), |i: int| if 0 <= i < es.len() { annotation_type(es[i]) } else { SType::Any })
}

/// The type that an annotation denotes: builtin names, `typing` forms (`List`, `Dict`,
/// `Union`, `Optional`, ...), `A | B`, refinement names and `Bounded(lo, hi)`; a name it
/// does not know is a class, any other form is `Any`.
pub fn type_from_annotation(expr: &Expr) -> (r: Type)
    ensures
        r@ == annotation_type(*expr),
    decreases expr,
{
    match expr {
        Expr::Name(id) => {
            let n = id.as_str();
            if text_eq(n, "int") {
                Type::Int
            } else if text_eq(n, "float") {
                Type::Float
            } else if text_eq(n, "str") {
                Type::Str
            } else if text_eq(n, "bool") {
                Type::Bool
            } else if text_eq(n, "bytes") {
                Type::Bytes
            } else if text_eq(n, "None") {
                Type::NoneType
            } else if text_eq(n, "Any") {
                Type::Any
            } else if text_eq(n, "Positive") {
                RefinementAnalyzer::positive_int()
            } else if text_eq(n, "Negative") {
                RefinementAnalyzer::negative_int()
            } else if text_eq(n, "NonEmpty") {
                RefinementAnalyzer::non_empty_str()
            } else {
                Type::Class(id.clone())
            }
        },
        Expr::Subscript(v, slice) => match &**v {
            Expr::Name(id) => {
                let n = id.as_str();
                if text_eq(n, "list") || text_eq(n, "List") {
                    Type::List(Box::new(type_from_annotation(slice)))
                } else if text_eq(n, "set") || text_eq(n, "Set") {
                    Type::SetOf(Box::new(type_from_annotation(slice)))
                } else if text_eq(n, "tuple") || text_eq(n, "Tuple") {
                    match &**slice {
                        Expr::Tuple(es) => Type::Tuple(types_from_annotations(es)),
                        _ => {
                            let t = type_from_annotation(slice);
                            let ghost tv = t@;
                            let v = vec![t];
                            assert(tviews(v@) =~= seq![tv]);
                            Type::Tuple(v)
                        },
                    }
                } else if text_eq(n, "dict") || text_eq(n, "Dict") {
                    match &**slice {
                        Expr::Tuple(es) => if es.len() == 2 {
                            let k = type_from_annotation(&es[0]);
                            let w = type_from_annotation(&es[1]);
                            Type::Dict(Box::new(k), Box::new(w))
                        } else {
                            Type::Dict(Box::new(Type::Any), Box::new(Type::Any))
                        },
                        _ => Type::Dict(Box::new(Type::Any), Box::new(Type::Any)),
                    }
                } else if text_eq(n, "Union") {
                    match &**slice {
                        Expr::Tuple(es) => Type::Union(types_from_annotations(es)),
                        _ => {
                            let t = type_from_annotation(slice);
                            let ghost tv = t@;
                            let v = vec![t];
                            assert(tviews(v@) =~= seq![tv]);
                            Type::Union(v)
                        },
                    }
                } else if text_eq(n, "Optional") {
                    let t = type_from_annotation(slice);
                    let ghost tv = t@;
                    let v = vec![t, Type::NoneType];
                    assert(tviews(v@) =~= seq![tv, SType::NoneType]);
                    Type::Union(v)
                } else if text_eq(n, "EffectType") || text_eq(n, "RefinementType") {
                    type_from_annotation(slice)
                } else if text_eq(n, "RecursiveType") {
                    match &**slice {
                        Expr::Constant(Constant::Str(s)) => Type::Class(s.clone()),
                        _ => Type::Any,
                    }
                } else {
                    let t = type_from_annotation(slice);
                    let ghost tv = t@;
                    let v = vec![t];
                    assert(tviews(v@) =~= seq![tv]);
                    Type::Generic(id.clone(), v)
                }
            },
            _ => Type::Any,
        },
        Expr::BinOp(l, op, r) => {
            if let Operator::BitOr = op {
                let a = type_from_annotation(l);
                let b = type_from_annotation(r);
                let ghost av = a@;
                let ghost bv = b@;
                let v = vec![a, b];
                assert(tviews(v@) =~= seq![av, bv]);
                Type::Union(v)
            } else {
                Type::Any
            }
        },
        Expr::Call(f, args) => match &**f {
            Expr::Name(id) => if text_eq(id.as_str(), "Bounded") {
                if args.len() == 2 {
                    match (&args[0], &args[1]) {
                        (Expr::Constant(Constant::Int(Some(lo))), Expr::Constant(Constant::Int(Some(hi)))) => {
                            RefinementAnalyzer::bounded_int(*lo, *hi)
                        },
                        _ => Type::Int,
                    }
                } else {
                    Type::Int
                }
            } else {
                Type::Any
            },
            _ => Type::Any,
        },
        _ => Type::Any,
    }
}

/// The types that a list of annotations denotes.
fn types_from_annotations(es: &Vec<Expr>) -> (r: Vec<Type>)
    ensures
        tviews(r@) == annotation_types(es@),
    decreases es,
{
    let mut out: Vec<Type> = Vec::new();
    let mut i: usize = 0;
    while i < es.len()
        invariant
            0 <= i <= es.len(),
            out.len() == i,
            forall|j: int| 0 <= j < i ==> #[trigger] out@[j]@ == annotation_type(es@[j]),
        decreases es.len() - i,
    {
        let t = type_from_annotation(&es[i]);
        out.push(t);
        i += 1;
    }
    proof {
        assert forall|j: int| 0 <= j < es.len() implies tviews(out@)[j] == annotation_types(es@)[j] by {
            lemma_tviews_index(out@, j);
        }
        assert(tviews(out@) =~= annotation_types(es@));
    }
    out
}


/// Both types are the same of `int`, `float`, `str`, `bool`, `bytes` and `None`.
pub open spec fn same_primitive(a: SType, b: SType) -> bool {
    ||| (a is Int && b is Int)
    ||| (a is Float && b is Float)
    ||| (a is Str && b is Str)
    ||| (a is Bool && b is Bool)
    ||| (a is Bytes && b is Bytes)
    ||| (a is NoneType && b is NoneType)
}

/// Whether a value of type `actual` may stand where `expected` is wanted: equal
/// primitives, `Any` on either side, `int` for `float`, collections and functions member
/// by member, a member of an expected union, equal classes, generics with equal names and
/// arguments, and type variables, which the solver resolves later.
pub open spec fn compatible(a: SType, b: SType) -> bool
    decreases size(a) + size(b),
    via compatible_decreases
{
    if same_primitive(a, b) || a is Any || b is Any || (a is Int && b is Float) {
        true
    } else {
        match (a, b) {
            (SType::List(x), SType::List(y)) => compatible(*x, *y),
            (SType::SetOf(x), SType::SetOf(y)) => compatible(*x, *y),
            (SType::Dict(k1, v1), SType::Dict(k2, v2)) => compatible(*k1, *k2) && compatible(*v1, *v2),
            (SType::Tuple(p), SType::Tuple(q)) => p.len() == q.len() && forall|i: int|
                0 <= i < p.len() ==> compatible(#[trigger] p[i], q[i]),
            (SType::Function(p1, r1), SType::Function(p2, r2)) => p1.len() == p2.len() && (forall|i: int|
                0 <= i < p1.len() ==> compatible(#[trigger] p1[i], p2[i])) && compatible(*r1, *r2),
            _ => match b {
                SType::Union(es) => exists|i: int| 0 <= i < es.len() && compatible(a, #[trigger] es[i]),
                _ => match (a, b) {
                    (SType::Class(x), SType::Class(y)) => x == y,
                    (SType::Generic(na, ta), SType::Generic(nb, tb)) => na == nb && ta.len() == tb.len()
                        && forall|i: int| 0 <= i < ta.len() ==> compatible(#[trigger] ta[i], tb[i]),
                    _ => a is Var || b is Var,
                },
            },
        }
    }
}

#[via_fn]
proof fn compatible_decreases(a: SType, b: SType) {
    lemma_children_smaller(a);
    lemma_children_smaller(b);
}

/// Whether a value of type `actual` may stand where `expected` is wanted.
#[verifier::rlimit(100)]
#[verifier::spinoff_prover]
pub fn is_compatible(actual: &Type, expected: &Type) -> (r: bool)
    ensures
        r == compatible(actual@, expected@),
    decreases size(actual@) + size(expected@), 1nat,
{
    proof {
        lemma_view_tag(*actual);
        lemma_view_tag(*expected);
        lemma_children_smaller(actual@);
        lemma_children_smaller(expected@);
    }
    match (actual, expected) {
        (Type::Int, Type::Int) | (Type::Float, Type::Float) | (Type::Str, Type::Str)
        | (Type::Bool, Type::Bool) | (Type::Bytes, Type::Bytes) | (Type::NoneType, Type::NoneType) => {
            return true;
        },
        (Type::Any, _) | (_, Type::Any) | (Type::Int, Type::Float) => {
            return true;
        },
        _ => {},
    }
    match (actual, expected) {
        (Type::List(x), Type::List(y)) => {
            assert(!same_primitive(actual@, expected@) && actual@ !is Any && expected@ !is Any);
            let r = is_compatible(x, y);
            assert(actual@ == SType::List(Box::new(x@)));
            assert(compatible(actual@, expected@) == compatible(x@, y@));
            r
        },
        (Type::SetOf(x), Type::SetOf(y)) => {
            assert(!same_primitive(actual@, expected@) && actual@ !is Any && expected@ !is Any);
            let r = is_compatible(x, y);
            assert(r == compatible(actual@, expected@));
            r
        },
        (Type::Dict(k1, v1), Type::Dict(k2, v2)) => {
            assert(!same_primitive(actual@, expected@) && actual@ !is Any && expected@ !is Any);
            let r = is_compatible(k1, k2) && is_compatible(v1, v2);
            assert(r == compatible(actual@, expected@));
            r
        },
        (Type::Tuple(p), Type::Tuple(q)) => {
            assert(tviews(p@).len() == p@.len() && tviews(q@).len() == q@.len());
            let r = p.len() == q.len() && all_compatible(p, q, Ghost(actual@), Ghost(expected@));
            assert(r == compatible(actual@, expected@));
            r
        },
        (Type::Function(p1, r1), Type::Function(p2, r2)) => {
            assert(tviews(p1@).len() == p1@.len() && tviews(p2@).len() == p2@.len());
            let r = p1.len() == p2.len() && all_compatible(p1, p2, Ghost(actual@), Ghost(expected@))
                && is_compatible(r1, r2);
            assert(r == compatible(actual@, expected@));
            r
        },
        (_, Type::Union(es)) => {
            let mut i: usize = 0;
            while i < es.len()
                invariant
                    0 <= i <= es.len(),
                    expected@ == SType::Union(tviews(es@)),
                    forall|j: int| 0 <= j < i ==> !compatible(actual@, #[trigger] tviews(es@)[j]),
                    forall|j: int| 0 <= j < es.len() ==> size(#[trigger] tviews(es@)[j]) < size(expected@),
                decreases es.len() - i,
            {
                proof {
                    lemma_tviews_index(es@, i as int);
                }
                if is_compatible(actual, &es[i]) {
                    return true;
                }
                i += 1;
            }
            assert(!compatible(actual@, expected@));
            false
        },
        (Type::Class(x), Type::Class(y)) => {
            let r = text_eq(x.as_str(), y.as_str());
            assert(r == compatible(actual@, expected@));
            r
        },
        (Type::Generic(na, ta), Type::Generic(nb, tb)) => {
            assert(tviews(ta@).len() == ta@.len() && tviews(tb@).len() == tb@.len());
            let r = text_eq(na.as_str(), nb.as_str()) && ta.len() == tb.len() && all_compatible(ta, tb, Ghost(actual@), Ghost(expected@));
            assert(r == compatible(actual@, expected@));
            r
        },
        (Type::Var(_), _) | (_, Type::Var(_)) => {
            assert(compatible(actual@, expected@));
            true
        },
        _ => {
            assert(!compatible(actual@, expected@));
            false
        },
    }
}

/// Whether each type of `p` is compatible with the type of `q` at the same place; the
/// lists are held by `a` and `b`.
fn all_compatible(p: &Vec<Type>, q: &Vec<Type>, Ghost(a): Ghost<SType>, Ghost(b): Ghost<SType>) -> (r: bool)
    requires
        p.len() == q.len(),
        forall|j: int| 0 <= j < p.len() ==> size(#[trigger] tviews(p@)[j]) < size(a),
        forall|j: int| 0 <= j < q.len() ==> size(#[trigger] tviews(q@)[j]) < size(b),
    ensures
        r == forall|j: int| 0 <= j < p.len() ==> compatible(#[trigger] tviews(p@)[j], tviews(q@)[j]),
    decreases size(a) + size(b), 0nat,
{
    let mut i: usize = 0;
    while i < p.len()
        invariant
            0 <= i <= p.len(),
            p.len() == q.len(),
            forall|j: int| 0 <= j < p.len() ==> size(#[trigger] tviews(p@)[j]) < size(a),
            forall|j: int| 0 <= j < q.len() ==> size(#[trigger] tviews(q@)[j]) < size(b),
            forall|j: int| 0 <= j < i ==> compatible(#[trigger] tviews(p@)[j], tviews(q@)[j]),
        decreases p.len() - i,
    {
        proof {
            lemma_tviews_index(p@, i as int);
            lemma_tviews_index(q@, i as int);
        }
        if !is_compatible(&p[i], &q[i]) {
            return false;
        }
        i += 1;
    }
    true
}


/// What checking reads but does not change: the classes of the context and the effects
/// found for the module's functions.
pub struct Env {
    pub classes: Map<Seq<char>, SClass>,
    pub effects: Map<Seq<char>, Seq<SEffect>>,
}

/// An error that checking records: a message, or a missing attribute, whose message
/// suggests close names of the attributes the type has, in an order that is not fixed.
pub enum SErr {
    Text(Seq<char>),
    NoAttr(SType, Seq<char>, Set<Seq<char>>),
}

/// The state that checking threads through: the types of names, the next fresh
/// variable, the errors, the attributes assigned to classes through `self`, the class
/// and declared return type being checked, and the constraint solver.
pub struct SChk {
    pub types: Map<Seq<char>, SType>,
    pub next: u64,
    pub errors: Seq<SErr>,
    pub attrs: Map<Seq<char>, Map<Seq<char>, SType>>,
    pub cur_class: Option<Seq<char>>,
    pub ret: Option<SType>,
    pub solver: SolverState,
}

pub open spec fn next_after(n: u64) -> u64 {
    if n == u64::MAX {
        0
    } else {
        (n + 1) as u64
    }
}

/// A fresh type variable.
pub open spec fn with_fresh(st: SChk) -> (SChk, SType) {
    (SChk { next: next_after(st.next), ..st }, SType::Var(st.next))
}

pub open spec fn with_type(st: SChk, name: Seq<char>, t: SType) -> SChk {
    SChk { types: st.types.insert(name, t), ..st }
}

pub open spec fn with_err(st: SChk, e: SErr) -> SChk {
    SChk { errors: st.errors.push(e), ..st }
}

pub open spec fn with_constraint(st: SChk, c: SConstraint) -> SChk {
    SChk { solver: SolverState { pending: st.solver.pending.push(c), ..st.solver }, ..st }
}

/// The type of a literal.
pub open spec fn const_type(c: Constant) -> SType {
    match c {
        Constant::NoneValue => SType::NoneType,
        Constant::Bool(_) => SType::Bool,
        Constant::Int(_) => SType::Int,
        Constant::Float => SType::Float,
        Constant::Str(_) => SType::Str,
        Constant::Bytes => SType::Bytes,
        _ => SType::Any,
    }
}

pub open spec fn is_num(t: SType) -> bool {
    t is Int || t is Float
}

/// The type of a binary operation: arithmetic on numbers, `+` on strings and lists,
/// `*` of a string by an int, true division to `float`, floor division to `int`.
pub open spec fn binop_type(op: Operator, l: SType, r: SType) -> SType {
    if op == Operator::Add {
        if l is Int && r is Int {
            SType::Int
        } else if is_num(l) && is_num(r) {
            SType::Float
        } else if l is Str && r is Str {
            SType::Str
        } else if l is List && r is List {
            l
        } else {
            SType::Any
        }
    } else if op == Operator::Mult {
        if l is Int && r is Int {
            SType::Int
        } else if is_num(l) && is_num(r) {
            SType::Float
        } else if (l is Str && r is Int) || (l is Int && r is Str) {
            SType::Str
        } else {
            SType::Any
        }
    } else if op == Operator::Sub || op == Operator::Mod || op == Operator::Pow {
        if l is Int && r is Int {
            SType::Int
        } else if is_num(l) && is_num(r) {
            SType::Float
        } else {
            SType::Any
        }
    } else if op == Operator::Div {
        SType::Float
    } else if op == Operator::FloorDiv {
        SType::Int
    } else {
        SType::Any
    }
}

/// The arithmetic operators that keep to the numeric tower.
pub open spec fn is_arith(op: Operator) -> bool {
    op == Operator::Add || op == Operator::Sub || op == Operator::Mult || op == Operator::Mod
        || op == Operator::Pow
}

/// Arithmetic on numbers follows the numeric tower: for `+`, `-`, `*`, `%` and `**` on
/// two numbers the result is `int` exactly when both operands are ints and `float`
/// otherwise, whichever of these operators it is; true division always gives `float`
/// and floor division `int`.
pub proof fn lemma_binop_numeric(op: Operator, op2: Operator, l: SType, r: SType)
    requires
        is_num(l),
        is_num(r),
    ensures
        is_arith(op) ==> binop_type(op, l, r) == (if l is Int && r is Int {
            SType::Int
        } else {
            SType::Float
        }),
        is_arith(op) && is_arith(op2) ==> binop_type(op, l, r) == binop_type(op2, l, r),
        binop_type(Operator::Div, l, r) == SType::Float,
        binop_type(Operator::FloorDiv, l, r) == SType::Int,
{
}

/// Sequences: `+` joins two strings into a string and two lists into a list of the left
/// operand's type, and `*` repeats a string by an int, in either order, into a string;
/// a string or list is never joined with a number by `+`.
pub proof fn lemma_binop_sequences(l: SType, r: SType)
    ensures
        l is Str && r is Str ==> binop_type(Operator::Add, l, r) == SType::Str,
        l is List && r is List ==> binop_type(Operator::Add, l, r) == l,
        (l is Str && r is Int) || (l is Int && r is Str) ==> binop_type(Operator::Mult, l, r) == SType::Str,
        (l is Str || l is List) && is_num(r) ==> binop_type(Operator::Add, l, r) == SType::Any,
{
}

/// The element type of iterating a value of type `t`, when the checker knows it.
pub open spec fn iter_elem(t: SType) -> Option<SType> {
    match t {
        SType::List(x) => Some(*x),
        SType::SetOf(x) => Some(*x),
        SType::Tuple(ts) => if ts.len() > 0 {
            Some(union_of(ts))
        } else {
            None
        },
        SType::Dict(k, _) => Some(*k),
        SType::Str => Some(SType::Str),
        _ => None,
    }
}

/// The type of a subscript of a value of type `t`, when the checker knows it.
pub open spec fn subscript_elem(t: SType) -> Option<SType> {
    match t {
        SType::List(x) => Some(*x),
        SType::Dict(_, w) => Some(*w),
        SType::Tuple(ts) => Some(
            if ts.len() == 0 {
                SType::Any
            } else if ts.len() == 1 {
                ts[0]
            } else {
                union_of(ts)
            },
        ),
        SType::Str => Some(SType::Str),
        _ => None,
    }
}

pub open spec fn count_msg(expected: nat, found: nat) -> Seq<char> {
    "Function call argument count mismatch: expected "@ + decimal(expected) + ", got "@ + decimal(found)
}

pub open spec fn arg_msg(i: nat, expected: SType, found: SType) -> Seq<char> {
    "Argument "@ + decimal(i) + " type mismatch: expected "@ + type_dbg(expected) + ", got "@ + type_dbg(found)
}

/// The names of the attributes a value of type `t` offers.
pub open spec fn attr_names_of(env: Env, t: SType) -> Set<Seq<char>> {
    if attr_class(t) is Some {
        class_attr_names(env.classes, attr_class(t)->0, env.classes.len())
    } else {
        Set::empty()
    }
}

/// The type of the attribute `attr` of a value of type `vt`: one assigned through
/// `self` in its class, else one the context knows; for a class without it a fresh
/// variable, for other types an error and a fresh variable.
pub open spec fn attr_result(env: Env, st: SChk, vt: SType, attr: Seq<char>) -> (SChk, SType) {
    if vt is Class && st.attrs.contains_key(vt->Class_0) && st.attrs[vt->Class_0].contains_key(attr) {
        (st, st.attrs[vt->Class_0][attr])
    } else {
        match has_attr(env.classes, vt, attr, env.classes.len()) {
            Some(t) => (st, t),
            None => if vt is Class {
                with_fresh(st)
            } else {
                with_fresh(with_err(st, SErr::NoAttr(vt, attr, attr_names_of(env, vt))))
            },
        }
    }
}

/// Inference of the type of an expression.
pub open spec fn infer(env: Env, st: SChk, e: Expr) -> (SChk, SType)
    decreases e,
{
    match e {
        Expr::Constant(c) => (st, const_type(c)),
        Expr::Name(id) => if st.types.contains_key(id@) {
            (st, st.types[id@])
        } else {
            with_fresh(st)
        },
        Expr::BinOp(l, op, r) => {
            let (s1, lt) = infer(env, st, *l);
            let (s2, rt) = infer(env, s1, *r);
            (s2, binop_type(op, lt, rt))
        },
        Expr::Compare(_, _) => (st, SType::Bool),
        Expr::UnaryOp(op, x) => if op == UnaryOp::Not {
            (st, SType::Bool)
        } else if op == UnaryOp::Invert {
            (st, SType::Int)
        } else {
            infer(env, st, *x)
        },
        Expr::BoolOp(_) => (st, SType::Bool),
        Expr::List(es) => if es.len() == 0 {
            let (s1, v) = with_fresh(st);
            (s1, SType::List(Box::new(v)))
        } else {
            let (s1, ts) = infer_all(env, st, es@);
            (s1, SType::List(Box::new(union_of(ts))))
        },
        Expr::SetExpr(es) => if es.len() == 0 {
            let (s1, v) = with_fresh(st);
            (s1, SType::SetOf(Box::new(v)))
        } else {
            let (s1, ts) = infer_all(env, st, es@);
            (s1, SType::SetOf(Box::new(union_of(ts))))
        },
        Expr::ListComp(elt, gens) => {
            let s1 = bind_gens(env, st, gens@);
            let (s2, t) = infer(env, s1, *elt);
            (s2, SType::List(Box::new(t)))
        },
        Expr::SetComp(elt, gens) => {
            let s1 = bind_gens(env, st, gens@);
            let (s2, t) = infer(env, s1, *elt);
            (s2, SType::SetOf(Box::new(t)))
        },
        Expr::DictComp(k, v, gens) => {
            let s1 = bind_gens(env, st, gens@);
            let (s2, kt) = infer(env, s1, *k);
            let (s3, vt) = infer(env, s2, *v);
            (s3, SType::Dict(Box::new(kt), Box::new(vt)))
        },
        Expr::Tuple(es) => {
            let (s1, ts) = infer_all(env, st, es@);
            (s1, SType::Tuple(ts))
        },
        Expr::Dict(ks, vs) => {
            let (s1, kts) = infer_keys(env, st, ks@);
            let (s2, vts) = infer_all(env, s1, vs@);
            let (s3, kt) = if kts.len() == 0 {
                with_fresh(s2)
            } else {
                (s2, union_of(kts))
            };
            let (s4, vt) = if vts.len() == 0 {
                with_fresh(s3)
            } else {
                (s3, union_of(vts))
            };
            (s4, SType::Dict(Box::new(kt), Box::new(vt)))
        },
        Expr::Call(f, args) => {
            let (s1, ft) = infer(env, st, *f);
            match ft {
                SType::Function(ps, ret) => {
                    let s2 = if args.len() != ps.len() {
                        with_err(s1, SErr::Text(count_msg(ps.len(), args.len() as nat)))
                    } else {
                        s1
                    };
                    (check_args(env, s2, args@, ps, 0), *ret)
                },
                _ => with_fresh(s1),
            }
        },
        Expr::Subscript(v, _) => {
            let (s1, vt) = infer(env, st, *v);
            match subscript_elem(vt) {
                Some(t) => (s1, t),
                None => with_fresh(s1),
            }
        },
        Expr::Attribute(v, attr) => {
            let (s1, vt) = infer(env, st, *v);
            attr_result(env, s1, vt, attr@)
        },
        _ => (st, SType::Any),
    }
}

/// Inference of each expression in turn.
pub open spec fn infer_all(env: Env, st: SChk, es: Seq<Expr>) -> (SChk, Seq<SType>)
    decreases es,
{
    if es.len() == 0 {
        (st, Seq::empty())
    } else {
        let (s1, t) = infer(env, st, es[0]);
        let (s2, ts) = infer_all(env, s1, es.subrange(1, es.len() as int));
        (s2, seq![t] + ts)
    }
}

/// Inference of each dict key in turn, skipping `**` entries.
pub open spec fn infer_keys(env: Env, st: SChk, ks: Seq<Option<Expr>>) -> (SChk, Seq<SType>)
    decreases ks,
{
    if ks.len() == 0 {
        (st, Seq::empty())
    } else {
        let (s1, first) = match ks[0] {
            Some(k) => {
                let (a, t) = infer(env, st, k);
                (a, seq![t])
            },
            None => (st, Seq::empty()),
        };
        let (s2, ts) = infer_keys(env, s1, ks.subrange(1, ks.len() as int));
        (s2, first + ts)
    }
}

/// The loop variables of comprehension clauses get the element types of what they iterate.
pub open spec fn bind_gens(env: Env, st: SChk, gs: Seq<Comprehension>) -> SChk
    decreases gs,
{
    if gs.len() == 0 {
        st
    } else {
        let (s1, it) = infer(env, st, gs[0].iter);
        let (s2, elem) = match iter_elem(it) {
            Some(t) => (s1, t),
            None => with_fresh(s1),
        };
        let s3 = match gs[0].target {
            Expr::Name(id) => with_type(s2, id@, elem),
            _ => s2,
        };
        bind_gens(env, s3, gs.subrange(1, gs.len() as int))
    }
}

/// The arguments paired with parameters, each inferred and held against its parameter;
/// `i` numbers the first pair.
pub open spec fn check_args(env: Env, st: SChk, args: Seq<Expr>, ps: Seq<SType>, i: nat) -> SChk
    decreases args,
{
    if args.len() == 0 || ps.len() == 0 {
        st
    } else {
        let (s1, at) = infer(env, st, args[0]);
        let s2 = if subtype(at, ps[0]) {
            s1
        } else {
            with_err(s1, SErr::Text(arg_msg(i, ps[0], at)))
        };
        check_args(env, s2, args.subrange(1, args.len() as int), ps.subrange(1, ps.len() as int), i + 1)
    }
}


/// The type of a binary operation as synthesis sees it: arithmetic on ints stays `int`,
/// with a float it is `float`; `+` joins strings and lists; bitwise operations on ints.
pub open spec fn synth_binop(op: Operator, l: SType, r: SType) -> SType {
    let arith = op == Operator::Add || op == Operator::Sub || op == Operator::Mult || op == Operator::Div
        || op == Operator::Mod || op == Operator::Pow || op == Operator::FloorDiv;
    let bits = op == Operator::BitOr || op == Operator::BitXor || op == Operator::BitAnd || op
        == Operator::LShift || op == Operator::RShift;
    if arith && l is Int && r is Int {
        SType::Int
    } else if arith && (l is Float || r is Float) {
        SType::Float
    } else if op == Operator::Add && l is Str && r is Str {
        SType::Str
    } else if op == Operator::Add && l is List && r is List {
        SType::List(Box::new(union_of(seq![*(l->List_0), *(r->List_0)])))
    } else if bits && l is Int && r is Int {
        SType::Int
    } else {
        SType::Any
    }
}

/// The type of a literal as synthesis sees it: a tuple literal has the types of its items.
pub open spec fn synth_const(c: Constant) -> SType {
    match c {
        Constant::Tuple(items) => SType::Tuple(
            Seq::new(items.len() as nat, |i: int| const_type(items@[i])),
        ),
        _ => const_type(c),
    }
}

/// The index of a literal subscript as synthesis reads it: the value when it fits in a
/// `u32`, else 0.
pub open spec fn literal_index(v: Option<i64>) -> int {
    match v {
        Some(n) => if 0 <= n <= u32::MAX {
            n as int
        } else {
            0
        },
        None => 0,
    }
}

/// Synthesis of the type of an expression, bottom-up, as bidirectional checking does it.
pub open spec fn synth(env: Env, st: SChk, e: Expr) -> (SChk, SType)
    decreases e,
{
    match e {
        Expr::Constant(c) => (st, synth_const(c)),
        Expr::Name(id) => if st.types.contains_key(id@) {
            (st, st.types[id@])
        } else {
            with_fresh(st)
        },
        Expr::BinOp(l, op, r) => {
            let (s1, lt) = synth(env, st, *l);
            let (s2, rt) = synth(env, s1, *r);
            (s2, synth_binop(op, lt, rt))
        },
        Expr::UnaryOp(op, x) => {
            let (s1, t) = synth(env, st, *x);
            (
                s1,
                if op == UnaryOp::Not {
                    SType::Bool
                } else if op == UnaryOp::Invert {
                    if t is Int {
                        SType::Int
                    } else {
                        SType::Any
                    }
                } else {
                    t
                },
            )
        },
        Expr::BoolOp(vs) => {
            let (s1, ts) = synth_all(env, st, vs@);
            (s1, union_of(ts))
        },
        Expr::Compare(_, _) => (st, SType::Bool),
        Expr::Call(f, args) => {
            let (s1, ft) = synth(env, st, *f);
            match ft {
                SType::Function(ps, ret) => (synth_args(env, s1, args@, ps), *ret),
                SType::Class(n) => (s1, SType::Class(n)),
                _ => match *f {
                    Expr::Name(n) => synth_builtin_call(env, s1, n@, args@),
                    _ => with_fresh(s1),
                },
            }
        },
        Expr::List(es) => if es.len() == 0 {
            let (s1, v) = with_fresh(st);
            (s1, SType::List(Box::new(v)))
        } else {
            let (s1, ts) = synth_all(env, st, es@);
            (s1, SType::List(Box::new(union_of(ts))))
        },
        Expr::Tuple(es) => {
            let (s1, ts) = synth_all(env, st, es@);
            (s1, SType::Tuple(ts))
        },
        Expr::Dict(ks, vs) => {
            let (s1, kts) = synth_keys(env, st, ks@);
            let (s2, vts) = synth_all(env, s1, vs@);
            let (s3, kt) = if kts.len() == 0 {
                with_fresh(s2)
            } else {
                (s2, union_of(kts))
            };
            let (s4, vt) = if vts.len() == 0 {
                with_fresh(s3)
            } else {
                (s3, union_of(vts))
            };
            (s4, SType::Dict(Box::new(kt), Box::new(vt)))
        },
        Expr::SetExpr(es) => {
            let (s1, ts) = synth_all(env, st, es@);
            (s1, SType::SetOf(Box::new(union_of(ts))))
        },
        Expr::ListComp(elt, gens) => {
            let s1 = synth_gens(env, st, gens@);
            let (s2, t) = synth(env, s1, *elt);
            (s2, SType::List(Box::new(t)))
        },
        Expr::DictComp(k, v, gens) => {
            let s1 = synth_gens(env, st, gens@);
            let (s2, kt) = synth(env, s1, *k);
            let (s3, vt) = synth(env, s2, *v);
            (s3, SType::Dict(Box::new(kt), Box::new(vt)))
        },
        Expr::SetComp(elt, gens) => {
            let s1 = synth_gens(env, st, gens@);
            let (s2, t) = synth(env, s1, *elt);
            (s2, SType::SetOf(Box::new(t)))
        },
        Expr::GeneratorExp(elt, gens) => {
            let s1 = synth_gens(env, st, gens@);
            let (s2, t) = synth(env, s1, *elt);
            (s2, SType::Generic("Generator"@, seq![t]))
        },
        Expr::Lambda(params, body) => {
            let (s1, pts) = fresh_vars(st, params.len() as nat);
            let (s2, bt) = synth(env, s1, *body);
            (s2, SType::Function(pts, Box::new(bt)))
        },
        Expr::IfExp(t, b, o) => {
            let (s1, _) = synth(env, st, *t);
            let (s2, bt) = synth(env, s1, *b);
            let (s3, ot) = synth(env, s2, *o);
            (s3, union_of(seq![bt, ot]))
        },
        Expr::Subscript(v, sl) => {
            let (s1, vt) = synth(env, st, *v);
            let (s2, _) = synth(env, s1, *sl);
            match vt {
                SType::List(x) => (s2, *x),
                SType::Tuple(elems) => match *sl {
                    Expr::Constant(Constant::Int(n)) => (
                        s2,
                        if literal_index(n) < elems.len() {
                            elems[literal_index(n)]
                        } else {
                            SType::Any
                        },
                    ),
                    _ => (s2, union_of(elems)),
                },
                SType::Dict(_, w) => (s2, *w),
                SType::Str => (s2, SType::Str),
                _ => with_fresh(s2),
            }
        },
        Expr::Attribute(v, attr) => {
            let (s1, vt) = synth(env, st, *v);
            match has_attr(env.classes, vt, attr@, env.classes.len()) {
                Some(t) => (s1, t),
                None => with_fresh(s1),
            }
        },
        Expr::Slice => (st, SType::Class("slice"@)),
        Expr::NamedExpr(v) => synth(env, st, *v),
        Expr::Starred(v) => synth(env, st, *v),
        Expr::Await(v) => synth(env, st, *v),
        Expr::Yield(v) => match v {
            Some(x) => synth(env, st, *x),
            None => (st, SType::NoneType),
        },
        Expr::YieldFrom(v) => synth(env, st, *v),
        Expr::FormattedValue(v) => {
            let (s1, _) = synth(env, st, *v);
            (s1, SType::Str)
        },
        Expr::JoinedStr => (st, SType::Str),
    }
}

/// `n` fresh variables in turn.
pub open spec fn fresh_vars(st: SChk, n: nat) -> (SChk, Seq<SType>)
    decreases n,
{
    if n == 0 {
        (st, Seq::empty())
    } else {
        let (s1, vs) = fresh_vars(st, (n - 1) as nat);
        let (s2, v) = with_fresh(s1);
        (s2, vs.push(v))
    }
}

/// Synthesis of each expression in turn.
pub open spec fn synth_all(env: Env, st: SChk, es: Seq<Expr>) -> (SChk, Seq<SType>)
    decreases es, 0nat,
{
    if es.len() == 0 {
        (st, Seq::empty())
    } else {
        let (s1, t) = synth(env, st, es[0]);
        let (s2, ts) = synth_all(env, s1, es.subrange(1, es.len() as int));
        (s2, seq![t] + ts)
    }
}

/// Synthesis of each dict key in turn, skipping `**` entries.
pub open spec fn synth_keys(env: Env, st: SChk, ks: Seq<Option<Expr>>) -> (SChk, Seq<SType>)
    decreases ks,
{
    if ks.len() == 0 {
        (st, Seq::empty())
    } else {
        let (s1, first) = match ks[0] {
            Some(k) => {
                let (a, t) = synth(env, st, k);
                (a, seq![t])
            },
            None => (st, Seq::empty()),
        };
        let (s2, ts) = synth_keys(env, s1, ks.subrange(1, ks.len() as int));
        (s2, first + ts)
    }
}

/// Synthesis of the arguments paired with parameters.
pub open spec fn synth_args(env: Env, st: SChk, args: Seq<Expr>, ps: Seq<SType>) -> SChk
    decreases args,
{
    if args.len() == 0 || ps.len() == 0 {
        st
    } else {
        let (s1, _) = synth(env, st, args[0]);
        synth_args(env, s1, args.subrange(1, args.len() as int), ps.subrange(1, ps.len() as int))
    }
}

/// Synthesis of the clauses of a comprehension: what each iterates, then its conditions.
pub open spec fn synth_gens(env: Env, st: SChk, gs: Seq<Comprehension>) -> SChk
    decreases gs,
{
    if gs.len() == 0 {
        st
    } else {
        let (s1, _) = synth(env, st, gs[0].iter);
        let (s2, _) = synth_all(env, s1, gs[0].ifs@);
        synth_gens(env, s2, gs.subrange(1, gs.len() as int))
    }
}

/// The type of a call of a name that is not typed as a function or class: the
/// conversions and constructors of builtins, `len`, iterator classes, else a fresh
/// variable.
pub open spec fn synth_builtin_call(env: Env, st: SChk, name: Seq<char>, args: Seq<Expr>) -> (SChk, SType)
    decreases args, 1nat,
{
    if name == "int"@ {
        (st, SType::Int)
    } else if name == "float"@ {
        (st, SType::Float)
    } else if name == "str"@ {
        (st, SType::Str)
    } else if name == "bool"@ {
        (st, SType::Bool)
    } else if name == "list"@ {
        if args.len() > 0 {
            let (s1, t) = synth(env, st, args[0]);
            (s1, SType::List(Box::new(t)))
        } else {
            let (s1, v) = with_fresh(st);
            (s1, SType::List(Box::new(v)))
        }
    } else if name == "dict"@ {
        let (s1, k) = with_fresh(st);
        let (s2, v) = with_fresh(s1);
        (s2, SType::Dict(Box::new(k), Box::new(v)))
    } else if name == "set"@ {
        let (s1, v) = with_fresh(st);
        (s1, SType::SetOf(Box::new(v)))
    } else if name == "tuple"@ {
        let (s1, ts) = synth_all(env, st, args);
        (s1, SType::Tuple(ts))
    } else if name == "len"@ {
        (st, SType::Int)
    } else if name == "range"@ || name == "enumerate"@ || name == "zip"@ || name == "map"@ || name
        == "filter"@ {
        (st, SType::Class(name))
    } else {
        with_fresh(st)
    }
}


/// The types of parameters: from their annotations, else fresh variables, in order.
pub open spec fn param_types(st: SChk, ps: Seq<Param>) -> (SChk, Seq<SType>)
    decreases ps.len(),
{
    if ps.len() == 0 {
        (st, Seq::empty())
    } else {
        let (s1, ts) = param_types(st, ps.drop_last());
        match ps.last().annotation {
            Some(a) => (s1, ts.push(annotation_type(a))),
            None => {
                let (s2, v) = with_fresh(s1);
                (s2, ts.push(v))
            },
        }
    }
}

/// Each parameter name gets its type, in order.
pub open spec fn bind_params(st: SChk, ps: Seq<Param>, ts: Seq<SType>) -> SChk
    decreases ps.len(),
{
    if ps.len() == 0 || ts.len() == 0 {
        st
    } else {
        with_type(
            bind_params(st, ps.drop_last(), ts.drop_last()),
            ps.last().name@,
            ts.last(),
        )
    }
}

/// A function type with the effects found for the function when they are not pure.
pub open spec fn annotate(effects: Map<Seq<char>, Seq<SEffect>>, name: Seq<char>, base: SType) -> SType {
    if effects.contains_key(name) && !effects_pure(effects[name]) {
        SType::Effect(Box::new(base), effects[name])
    } else {
        base
    }
}

/// Whether `e` is the name `self`.
pub open spec fn is_self(e: Expr) -> bool {
    match e {
        Expr::Name(id) => id@ == "self"@,
        _ => false,
    }
}

/// The assignment of a value of type `vt` to each target in turn: a name with a type is
/// checked against it (bidirectionally) and constrained below it, a new name gets `vt`,
/// `self.attr` in a class records the attribute.
pub open spec fn assign_targets(env: Env, st: SChk, ts: Seq<Expr>, value: Expr, vt: SType) -> SChk
    decreases ts.len(),
{
    if ts.len() == 0 {
        st
    } else {
        let s1 = assign_targets(env, st, ts.drop_last(), value, vt);
        match ts.last() {
            Expr::Name(id) => if s1.types.contains_key(id@) {
                let ann = s1.types[id@];
                let (s2, syn) = synth(env, s1, value);
                let s3 = if subtype(syn, ann) {
                    s2
                } else {
                    with_err(s2, SErr::Text("Type mismatch in assignment to "@ + id@))
                };
                with_constraint(s3, SConstraint::Subtype(vt, ann))
            } else {
                with_type(s1, id@, vt)
            },
            Expr::Attribute(b, attr) => if is_self(*b) && s1.cur_class is Some && s1.attrs.contains_key(
                s1.cur_class->0,
            ) {
                SChk {
                    attrs: s1.attrs.insert(
                        s1.cur_class->0,
                        s1.attrs[s1.cur_class->0].insert(attr@, vt),
                    ),
                    ..s1
                }
            } else {
                s1
            },
            _ => s1,
        }
    }
}

pub open spec fn ann_msg(vt: SType, target: Expr, at: SType) -> Seq<char> {
    match target {
        Expr::Name(id) => "Type mismatch: cannot assign "@ + type_str(vt) + " to variable '"@ + id@
            + "' of type "@ + type_str(at),
        _ => "Type mismatch: cannot assign "@ + type_str(vt) + " to type "@ + type_str(at),
    }
}

pub open spec fn ret_msg(expected: SType, found: SType) -> Seq<char> {
    "Return type mismatch: expected "@ + type_dbg(expected) + ", got "@ + type_dbg(found)
}

pub open spec fn no_value_msg(expected: SType) -> Seq<char> {
    "Expected return value of type "@ + type_dbg(expected) + ", got None"@
}

/// The checking of a statement.
pub open spec fn check_stmt(env: Env, st: SChk, s: Stmt) -> SChk
    decreases s,
{
    match s {
        Stmt::FunctionDef { name, params, result, body } => {
            let (s1, pts) = param_types(st, params@);
            let (s2, rt, has) = match result {
                Some(r) => (s1, annotation_type(r), true),
                None => {
                    let (a, v) = with_fresh(s1);
                    (a, v, false)
                },
            };
            let s3 = bind_params(s2, params@, pts);
            let s4 = SChk { ret: if has { Some(rt) } else { None }, ..s3 };
            let s5 = check_stmts(env, s4, body@);
            let s6 = SChk { ret: s3.ret, ..s5 };
            with_type(s6, name@, annotate(env.effects, name@, SType::Function(pts, Box::new(rt))))
        },
        Stmt::Assign { targets, value } => {
            let (s1, vt) = infer(env, st, value);
            assign_targets(env, s1, targets@, value, vt)
        },
        Stmt::AnnAssign { target, annotation, value } => {
            let at = annotation_type(annotation);
            let s1 = match value {
                Some(v) => {
                    let (a, vt) = infer(env, st, v);
                    let b = if compatible(vt, at) {
                        a
                    } else {
                        with_err(a, SErr::Text(ann_msg(vt, target, at)))
                    };
                    with_constraint(b, SConstraint::Subtype(vt, at))
                },
                None => st,
            };
            match target {
                Expr::Name(id) => with_type(s1, id@, at),
                _ => s1,
            }
        },
        Stmt::Return(v) => match v {
            Some(x) => {
                let (s1, t) = infer(env, st, x);
                match s1.ret {
                    Some(expected) => if subtype(t, expected) {
                        s1
                    } else {
                        with_err(s1, SErr::Text(ret_msg(expected, t)))
                    },
                    None => s1,
                }
            },
            None => match st.ret {
                Some(expected) => if expected is NoneType {
                    st
                } else {
                    with_err(st, SErr::Text(no_value_msg(expected)))
                },
                None => st,
            },
        },
        Stmt::Expr(e) => infer(env, st, e).0,
        Stmt::ClassDef { name, body } => {
            let s1 = with_type(st, name@, SType::Class(name@));
            let s2 = SChk { cur_class: Some(name@), attrs: s1.attrs.insert(name@, Map::empty()), ..s1 };
            let s3 = check_stmts(env, s2, body@);
            SChk { cur_class: st.cur_class, ..s3 }
        },
        Stmt::For { target, iter, body, orelse } => {
            let (s1, it) = infer(env, st, iter);
            let (s2, elem) = match iter_elem(it) {
                Some(t) => (s1, t),
                None => with_fresh(s1),
            };
            let s3 = match target {
                Expr::Name(id) => with_type(s2, id@, elem),
                _ => s2,
            };
            check_stmts(env, check_stmts(env, s3, body@), orelse@)
        },
        Stmt::While { test, body, orelse } => {
            let (s1, _) = infer(env, st, test);
            check_stmts(env, check_stmts(env, s1, body@), orelse@)
        },
        Stmt::If { test, body, orelse } => {
            let (s1, _) = infer(env, st, test);
            check_stmts(env, check_stmts(env, s1, body@), orelse@)
        },
        _ => st,
    }
}

/// The checking of statements in turn.
pub open spec fn check_stmts(env: Env, st: SChk, ss: Seq<Stmt>) -> SChk
    decreases ss,
{
    if ss.len() == 0 {
        st
    } else {
        check_stmts(env, check_stmt(env, st, ss[0]), ss.subrange(1, ss.len() as int))
    }
}


/// The type of a literal.
pub(crate) fn const_type_exec(c: &Constant) -> (r: Type)
    ensures
        r@ == const_type(*c),
{
    match c {
        Constant::NoneValue => Type::NoneType,
        Constant::Bool(_) => Type::Bool,
        Constant::Int(_) => Type::Int,
        Constant::Float => Type::Float,
        Constant::Str(_) => Type::Str,
        Constant::Bytes => Type::Bytes,
        _ => Type::Any,
    }
}

pub(crate) fn is_num_exec(t: &Type) -> (r: bool)
    ensures
        r == is_num(t@),
{
    match t {
        Type::Int | Type::Float => true,
        _ => false,
    }
}

/// The type of a binary operation.
fn binop_type_exec(op: &Operator, l: Type, r: Type) -> (res: Type)
    ensures
        res@ == binop_type(*op, l@, r@),
{
    proof {
        lemma_view_tag(l);
        lemma_view_tag(r);
    }
    let li = match &l {
        Type::Int => true,
        _ => false,
    };
    let ri = match &r {
        Type::Int => true,
        _ => false,
    };
    let ls = match &l {
        Type::Str => true,
        _ => false,
    };
    let rs = match &r {
        Type::Str => true,
        _ => false,
    };
    let nums = is_num_exec(&l) && is_num_exec(&r);
    match op {
        Operator::Add => {
            let ll = match &l {
                Type::List(_) => true,
                _ => false,
            };
            let rl = match &r {
                Type::List(_) => true,
                _ => false,
            };
            if li && ri {
                Type::Int
            } else if nums {
                Type::Float
            } else if ls && rs {
                Type::Str
            } else if ll && rl {
                l
            } else {
                Type::Any
            }
        },
        Operator::Mult => {
            if li && ri {
                Type::Int
            } else if nums {
                Type::Float
            } else if (ls && ri) || (li && rs) {
                Type::Str
            } else {
                Type::Any
            }
        },
        Operator::Sub | Operator::Mod | Operator::Pow => {
            if li && ri {
                Type::Int
            } else if nums {
                Type::Float
            } else {
                Type::Any
            }
        },
        Operator::Div => Type::Float,
        Operator::FloorDiv => Type::Int,
        _ => Type::Any,
    }
}

/// The type of a literal as synthesis sees it.
fn synth_const_exec(c: &Constant) -> (r: Type)
    ensures
        r@ == synth_const(*c),
{
    match c {
        Constant::Tuple(items) => {
            let mut out: Vec<Type> = Vec::new();
            let mut i: usize = 0;
            while i < items.len()
                invariant
                    0 <= i <= items.len(),
                    out.len() == i,
                    forall|j: int| 0 <= j < i ==> #[trigger] out@[j]@ == const_type(items@[j]),
                decreases items.len() - i,
            {
                out.push(const_type_exec(&items[i]));
                i += 1;
            }
            proof {
                assert forall|j: int| 0 <= j < items.len() implies tviews(out@)[j] == Seq::new(
                    items.len() as nat,
                    |m: int| const_type(items@[m]),
                )[j] by {
                    lemma_tviews_index(out@, j);
                }
                assert(tviews(out@) =~= Seq::new(items.len() as nat, |m: int| const_type(items@[m])));
            }
            Type::Tuple(out)
        },
        _ => const_type_exec(c),
    }
}

/// The type of a binary operation as synthesis sees it.
fn synth_binop_exec(op: &Operator, l: Type, r: Type) -> (res: Type)
    ensures
        res@ == synth_binop(*op, l@, r@),
{
    proof {
        lemma_view_tag(l);
        lemma_view_tag(r);
    }
    let arith = match op {
        Operator::Add | Operator::Sub | Operator::Mult | Operator::Div | Operator::Mod | Operator::Pow
        | Operator::FloorDiv => true,
        _ => false,
    };
    let bits = match op {
        Operator::BitOr | Operator::BitXor | Operator::BitAnd | Operator::LShift | Operator::RShift => true,
        _ => false,
    };
    let add = match op {
        Operator::Add => true,
        _ => false,
    };
    let li = match &l {
        Type::Int => true,
        _ => false,
    };
    let ri = match &r {
        Type::Int => true,
        _ => false,
    };
    let lf = match &l {
        Type::Float => true,
        _ => false,
    };
    let rf = match &r {
        Type::Float => true,
        _ => false,
    };
    let ls = match &l {
        Type::Str => true,
        _ => false,
    };
    let rs = match &r {
        Type::Str => true,
        _ => false,
    };
    if arith && li && ri {
        Type::Int
    } else if arith && (lf || rf) {
        Type::Float
    } else if add && ls && rs {
        Type::Str
    } else if add {
        match (l, r) {
            (Type::List(a), Type::List(b)) => {
                let ghost av = a@;
                let ghost bv = b@;
                let v = vec![*a, *b];
                assert(tviews(v@) =~= seq![av, bv]);
                Type::List(Box::new(Type::union(v)))
            },
            (l2, r2) => {
                if bits {
                    Type::Int
                } else {
                    Type::Any
                }
            },
        }
    } else if bits && li && ri {
        Type::Int
    } else {
        Type::Any
    }
}

fn count_text(expected: usize, found: usize) -> (r: String)
    ensures
        r@ == count_msg(expected as nat, found as nat),
{
    let mut s = String::new();
    s.append("Function call argument count mismatch: expected ");
    write_u64(&mut s, expected as u64);
    s.append(", got ");
    write_u64(&mut s, found as u64);
    assert(s@ =~= count_msg(expected as nat, found as nat));
    s
}

fn arg_text(i: usize, expected: &Type, found: &Type) -> (r: String)
    ensures
        r@ == arg_msg(i as nat, expected@, found@),
{
    let mut s = String::new();
    s.append("Argument ");
    write_u64(&mut s, i as u64);
    s.append(" type mismatch: expected ");
    write_type_dbg(expected, &mut s);
    s.append(", got ");
    write_type_dbg(found, &mut s);
    assert(s@ =~= arg_msg(i as nat, expected@, found@));
    s
}

/// The parts joined by `", "`.
fn join_names(parts: &Vec<String>) -> (r: String)
    ensures
        r@ == join(strings_view(parts@), ", "@),
{
    let ghost sv = strings_view(parts@);
    let mut s = String::new();
    let mut i: usize = 0;
    while i < parts.len()
        invariant
            0 <= i <= parts.len(),
            sv == strings_view(parts@),
            s@ == join(sv.take(i as int), ", "@),
        decreases parts.len() - i,
    {
        proof {
            crate::display::lemma_join_push(sv.take(i as int), ", "@, sv[i as int]);
            assert(sv.take(i as int).push(sv[i as int]) =~= sv.take(i + 1));
        }
        if i > 0 {
            s.append(", ");
        }
        s.append(parts[i].as_str());
        i += 1;
    }
    assert(sv.take(parts.len() as int) =~= sv);
    s
}

/// The message for a missing attribute, with close names among `available` suggested.
pub(crate) fn attr_error_message(vt: &Type, attr: &str, available: &Vec<String>, Ghost(names): Ghost<Set<Seq<char>>>) -> (r: String)
    requires
        forall|x: Seq<char>| #[trigger] strings_view(available@).contains(x) <==> names.contains(x),
    ensures
        attr_msg_ok(r@, vt@, attr@, names),
{
    let ghost cs = strings_view(available@);
    let similar = close_names(attr, available);
    let mut s = String::new();
    s.append("Type '");
    write_type(vt, &mut s);
    s.append("' has no attribute '");
    s.append(attr);
    s.append("'");
    if similar.len() > 0 {
        s.append(". Did you mean: ");
        let joined = join_names(&similar);
        s.append(joined.as_str());
        s.append("?");
    }
    proof {
        assert(lists_names(cs, names));
        if strings_view(similar@) == similar_names(attr@, cs, 2) {
            assert(s@ =~= attr_text(vt@, attr@, similar_names(attr@, cs, 2)));
        } else {
            assert(strings_view(similar@) =~= Seq::<Seq<char>>::empty());
            assert(s@ =~= attr_text(vt@, attr@, Seq::empty()));
        }
    }
    s
}

/// The errors that checking `body` reports, from the state `st`, with the classes
/// `classes` and the function effects `fx` known before.
pub open spec fn check_errs(
    classes: Map<Seq<char>, SClass>,
    fx: Map<Seq<char>, Seq<SEffect>>,
    st: SChk,
    body: Seq<Stmt>,
) -> Seq<SErr> {
    let env = Env { classes, effects: analyze_all(fx, st.types, body) };
    let s1 = check_stmts(env, SChk { errors: Seq::empty(), ..st }, body);
    let fin = run(s1.solver, true, 0, None);
    if fin.errors.len() == 0 {
        s1.errors
    } else {
        s1.errors.push(SErr::Text("Constraint solving failed: "@ + crate::debug::errors_dbg(exact_errors(fin.errors))))
    }
}

/// The state of a checker made in a fresh context.
pub open spec fn fresh_chk() -> SChk {
    SChk {
        types: Map::empty(),
        next: 0,
        errors: Seq::empty(),
        attrs: Map::empty(),
        cur_class: None,
        ret: None,
        solver: SolverState { pending: Seq::empty(), bounds: Map::empty(), errors: Seq::empty() },
    }
}

/// The errors that a checker made in a fresh context reports on a module body.
pub open spec fn fresh_check_errs(body: Seq<Stmt>) -> Seq<SErr> {
    check_errs(crate::context::builtin_classes(), Map::empty(), fresh_chk(), body)
}


/// The text of a missing-attribute error with the given suggestions.
pub open spec fn attr_text(t: SType, attr: Seq<char>, sim: Seq<Seq<char>>) -> Seq<char> {
    "Type '"@ + type_str(t) + "' has no attribute '"@ + attr + "'"@ + if sim.len() == 0 {
        Seq::<char>::empty()
    } else {
        ". Did you mean: "@ + join(sim, ", "@) + "?"@
    }
}

/// `cs` holds exactly the names.
pub open spec fn lists_names(cs: Seq<Seq<char>>, names: Set<Seq<char>>) -> bool {
    forall|x: Seq<char>| #[trigger] cs.contains(x) <==> names.contains(x)
}

/// A message for a missing attribute: the attribute names in some order, and the close
/// ones among them suggested (none when a name is too long to measure).
pub open spec fn attr_msg_ok(msg: Seq<char>, t: SType, attr: Seq<char>, names: Set<Seq<char>>) -> bool {
    exists|cs: Seq<Seq<char>>|
        #[trigger] lists_names(cs, names) && (msg == attr_text(
            t,
            attr,
            similar_names(attr, cs, 2),
        ) || (msg == attr_text(t, attr, Seq::empty()) && unmeasurable(attr, cs)))
}

/// An error of the checker: a message, at line 0 and column 0.
pub open spec fn err_matches(e: TypeError, s: SErr) -> bool {
    &&& e.line == 0
    &&& e.col == 0
    &&& match s {
        SErr::Text(m) => e.message@ == m,
        SErr::NoAttr(t, a, names) => attr_msg_ok(e.message@, t, a, names),
    }
}

pub open spec fn errs_match(es: Seq<TypeError>, ss: Seq<SErr>) -> bool {
    es.len() == ss.len() && forall|i: int| 0 <= i < es.len() ==> err_matches(#[trigger] es[i], ss[i])
}

/// The attribute table of one class.
pub open spec fn attr_table(v: Seq<(String, Type)>) -> Map<Seq<char>, SType> {
    keyed_map(v.map_values(|p: (String, Type)| (p.0@, p.1@)))
}

/// The attribute tables of the classes.
pub open spec fn class_tables(v: Seq<(String, Vec<(String, Type)>)>) -> Map<Seq<char>, Map<Seq<char>, SType>> {
    keyed_map(v.map_values(|p: (String, Vec<(String, Type)>)| (p.0@, attr_table(p.1@))))
}

pub open spec fn opt_str(o: Option<String>) -> Option<Seq<char>> {
    match o {
        Some(s) => Some(s@),
        None => None,
    }
}

/// A type error found by the checker.
pub struct TypeError {
    pub message: String,
    pub line: usize,
    pub col: usize,
}

impl TypeError {
    /// The error as it is printed: `Line {line}, Col {col}: {message}`.
    pub fn to_string(&self) -> (r: String)
        ensures
            r@ == "Line "@ + decimal(self.line as nat) + ", Col "@ + decimal(self.col as nat) + ": "@
                + self.message@,
    {
        let mut s = String::new();
        s.append("Line ");
        write_u64(&mut s, self.line as u64);
        s.append(", Col ");
        write_u64(&mut s, self.col as u64);
        s.append(": ");
        s.append(self.message.as_str());
        s
    }
}

impl Clone for TypeError {
    fn clone(&self) -> (r: Self)
        ensures
            r == *self,
    {
        TypeError { message: self.message.clone(), line: self.line, col: self.col }
    }
}

/// The checker of Python modules.
pub struct TypeChecker {
    ctx: TypeContext,
    errors: Vec<TypeError>,
    advanced: AdvancedTypeAnalyzer,
    effects: EffectAnalyzer,
    refinements: RefinementAnalyzer,
    constraints: ConstraintSolver,
    variance: VarianceAnalyzer,
    class_attributes: Vec<(String, Vec<(String, Type)>)>,
    current_class: Option<String>,
    current_function_return_type: Option<Type>,
}

impl TypeChecker {
    /// What checking reads but does not change.
    pub closed spec fn env(&self) -> Env {
        Env { classes: self.ctx@.classes, effects: self.effects.functions() }
    }

    /// The checker is in the state `st`.
    pub closed spec fn matches(&self, st: SChk) -> bool {
        &&& self.ctx@.types == st.types
        &&& self.ctx@.next_var == st.next
        &&& errs_match(self.errors@, st.errors)
        &&& class_tables(self.class_attributes@) == st.attrs
        &&& opt_str(self.current_class) == st.cur_class
        &&& opt_view(self.current_function_return_type) == st.ret
        &&& self.constraints.state() == st.solver
    }

    pub closed spec fn wf(&self) -> bool {
        &&& self.constraints.wf()
        &&& self.constraints.context() is None
        &&& self.effects.wf()
        &&& self.advanced.wf()
        &&& forall|i: int| 0 <= i < self.errors@.len() ==> (#[trigger] self.errors@[i]).line == 0 && self.errors@[i].col == 0
    }

    /// A checker is in the state its model describes.
    pub proof fn lemma_matches_model(&self)
        requires
            self.wf(),
        ensures
            self.matches(self.model()),
    {
        assert forall|i: int| 0 <= i < self.errors@.len() implies err_matches(
            #[trigger] self.errors@[i],
            self.model().errors[i],
        ) by {}
    }

    /// The state of the checker, each recorded error taken as its message.
    pub closed spec fn model(&self) -> SChk {
        SChk {
            types: self.ctx@.types,
            next: self.ctx@.next_var,
            errors: self.errors@.map_values(|e: TypeError| SErr::Text(e.message@)),
            attrs: class_tables(self.class_attributes@),
            cur_class: opt_str(self.current_class),
            ret: opt_view(self.current_function_return_type),
            solver: self.constraints.state(),
        }
    }

    /// The errors recorded so far.
    pub closed spec fn errors_model(&self) -> Seq<TypeError> {
        self.errors@
    }

    /// The errors recorded so far.
    pub fn errors(&self) -> (r: &[TypeError])
        ensures
            r@ == self.errors_model(),
    {
        self.errors.as_slice()
    }

    /// The errors recorded so far, the checker given up.
    pub fn into_errors(self) -> (r: Vec<TypeError>)
        ensures
            r@ == self.errors_model(),
    {
        self.errors
    }

    /// The context the checker works in.
    pub closed spec fn context(&self) -> crate::context::SContext {
        self.ctx@
    }

    /// The effects found for the functions.
    pub closed spec fn function_effects(&self) -> Map<Seq<char>, Seq<SEffect>> {
        self.effects.functions()
    }

    fn fresh_var(&mut self, Ghost(st): Ghost<SChk>) -> (r: Type)
        requires
            old(self).matches(st),
        ensures
            final(self).matches(with_fresh(st).0),
            r@ == with_fresh(st).1,
            final(self).env() == old(self).env(),
            final(self).wf() == old(self).wf(),
    {
        self.ctx.fresh_var()
    }

    fn push_error(&mut self, message: String, Ghost(st): Ghost<SChk>, Ghost(e): Ghost<SErr>)
        requires
            old(self).matches(st),
            err_matches(TypeError { message, line: 0, col: 0 }, e),
        ensures
            final(self).matches(with_err(st, e)),
            final(self).env() == old(self).env(),
            final(self).wf() == old(self).wf(),
    {
        let ghost before = self.errors@;
        self.errors.push(TypeError { message, line: 0, col: 0 });
        assert forall|i: int| 0 <= i < self.errors@.len() implies err_matches(
            #[trigger] self.errors@[i],
            with_err(st, e).errors[i],
        ) by {
            if i < before.len() {
                assert(self.errors@[i] == before[i]);
            }
        }
    }

    /// The infer of a name.
    fn infer_name(&mut self, id: &String, Ghost(st): Ghost<SChk>) -> (r: Type)
        requires
            old(self).matches(st),
        ensures
            final(self).matches(infer(old(self).env(), st, Expr::Name(*id)).0),
            r@ == infer(old(self).env(), st, Expr::Name(*id)).1,
            final(self).env() == old(self).env(),
            final(self).wf() == old(self).wf(),
    {
        match self.ctx.get_type(id.as_str()) {
            Some(t) => t,
            None => self.fresh_var(Ghost(st)),
        }
    }

    /// The last entry of the class in the attribute tables.
    fn class_entry(&self, cls: &str) -> (r: Option<usize>)
        ensures
            r matches Some(i) ==> i < self.class_attributes.len() && self.class_attributes@[i as int].0@
                == cls@ && forall|j: int|
                i < j < self.class_attributes.len() ==> (#[trigger] self.class_attributes@[j]).0@ != cls@,
            r is None ==> forall|j: int|
                0 <= j < self.class_attributes.len() ==> (#[trigger] self.class_attributes@[j]).0@ != cls@,
    {
        let mut i: usize = self.class_attributes.len();
        while i > 0
            invariant
                i <= self.class_attributes.len(),
                forall|j: int| i <= j < self.class_attributes.len() ==> (#[trigger] self.class_attributes@[j]).0@ != cls@,
            decreases i,
        {
            if text_eq(self.class_attributes[i - 1].0.as_str(), cls) {
                return Some(i - 1);
            }
            i -= 1;
        }
        None
    }

    /// The type of the attribute `attr` assigned in class `cls`, if any.
    fn class_attribute(&self, cls: &str, attr: &str) -> (r: Option<Type>)
        ensures
            r matches Some(t) ==> class_tables(self.class_attributes@).contains_key(cls@) && class_tables(
                self.class_attributes@,
            )[cls@].contains_key(attr@) && t@ == class_tables(self.class_attributes@)[cls@][attr@],
            r is None ==> !(class_tables(self.class_attributes@).contains_key(cls@) && class_tables(
                self.class_attributes@,
            )[cls@].contains_key(attr@)),
    {
        let ghost outer = self.class_attributes@.map_values(
            |p: (String, Vec<(String, Type)>)| (p.0@, attr_table(p.1@)),
        );
        match self.class_entry(cls) {
            None => {
                proof {
                    assert forall|m: int| 0 <= m < outer.len() implies (#[trigger] outer[m]).0 != cls@ by {
                        assert(self.class_attributes@[m].0@ != cls@);
                    }
                    lemma_keyed_absent(outer, cls@);
                }
                None
            },
            Some(i) => {
                proof {
                    assert forall|m: int| i < m < outer.len() implies (#[trigger] outer[m]).0 != outer[i as int].0 by {
                        assert(self.class_attributes@[m].0@ != cls@);
                    }
                    lemma_keyed_get(outer, i as int);
                }
                let table = &self.class_attributes[i].1;
                let ghost inner = table@.map_values(|p: (String, Type)| (p.0@, p.1@));
                assert(class_tables(self.class_attributes@)[cls@] == keyed_map(inner));
                let mut j: usize = table.len();
                while j > 0
                    invariant
                        j <= table.len(),
                        class_tables(self.class_attributes@).contains_key(cls@),
                        class_tables(self.class_attributes@)[cls@] == keyed_map(inner),
                        inner == table@.map_values(|p: (String, Type)| (p.0@, p.1@)),
                        forall|m: int| j <= m < table.len() ==> (#[trigger] table@[m]).0@ != attr@,
                    decreases j,
                {
                    if text_eq(table[j - 1].0.as_str(), attr) {
                        proof {
                            assert forall|m: int| j - 1 < m < inner.len() implies (#[trigger] inner[m]).0 != inner[j - 1].0 by {
                                assert(table@[m].0@ != attr@);
                            }
                            lemma_keyed_get(inner, j - 1);
                        }
                        return Some(table[j - 1].1.clone());
                    }
                    j -= 1;
                }
                proof {
                    assert forall|m: int| 0 <= m < inner.len() implies (#[trigger] inner[m]).0 != attr@ by {
                        assert(table@[m].0@ != attr@);
                    }
                    lemma_keyed_absent(inner, attr@);
                }
                None
            },
        }
    }

    /// Starts an empty attribute table for the class.
    fn reset_class(&mut self, cls: String)
        ensures
            class_tables(final(self).class_attributes@) == class_tables(old(self).class_attributes@).insert(
                cls@,
                Map::empty(),
            ),
            final(self).ctx == old(self).ctx,
            final(self).errors == old(self).errors,
            final(self).effects == old(self).effects,
            final(self).advanced == old(self).advanced,
            final(self).constraints == old(self).constraints,
            final(self).current_class == old(self).current_class,
            final(self).current_function_return_type == old(self).current_function_return_type,
    {
        let ghost c = cls@;
        let ghost before = self.class_attributes@;
        let empty: Vec<(String, Type)> = Vec::new();
        self.class_attributes.push((cls, empty));
        proof {
            let f = |p: (String, Vec<(String, Type)>)| (p.0@, attr_table(p.1@));
            assert(self.class_attributes@.map_values(f) =~= before.map_values(f).push((c, Map::empty()))) by {
                assert(attr_table(Seq::<(String, Type)>::empty()) =~= Map::<Seq<char>, SType>::empty()) by {
                    assert(Seq::<(String, Type)>::empty().map_values(|p: (String, Type)| (p.0@, p.1@))
                        =~= Seq::empty());
                }
            }
            assert(self.class_attributes@.map_values(f).drop_last() =~= before.map_values(f));
        }
    }

    /// Records the type of an attribute of a class that has a table.
    fn set_class_attribute(&mut self, cls: &str, attr: String, ty: Type)
        requires
            class_tables(old(self).class_attributes@).contains_key(cls@),
        ensures
            class_tables(final(self).class_attributes@) == class_tables(old(self).class_attributes@).insert(
                cls@,
                class_tables(old(self).class_attributes@)[cls@].insert(attr@, ty@),
            ),
            final(self).ctx == old(self).ctx,
            final(self).errors == old(self).errors,
            final(self).effects == old(self).effects,
            final(self).advanced == old(self).advanced,
            final(self).constraints == old(self).constraints,
            final(self).current_class == old(self).current_class,
            final(self).current_function_return_type == old(self).current_function_return_type,
    {
        let ghost f = |p: (String, Vec<(String, Type)>)| (p.0@, attr_table(p.1@));
        let ghost g = |p: (String, Type)| (p.0@, p.1@);
        let ghost outer = self.class_attributes@.map_values(f);
        match self.class_entry(cls) {
            None => {
                proof {
                    assert forall|m: int| 0 <= m < outer.len() implies (#[trigger] outer[m]).0 != cls@ by {
                        assert(self.class_attributes@[m].0@ != cls@);
                    }
                    lemma_keyed_absent(outer, cls@);
                }
            },
            Some(i) => {
                proof {
                    assert forall|m: int| i < m < outer.len() implies (#[trigger] outer[m]).0 != outer[i as int].0 by {
                        assert(self.class_attributes@[m].0@ != cls@);
                    }
                    lemma_keyed_get(outer, i as int);
                }
                let name = self.class_attributes[i].0.clone();
                let mut table: Vec<(String, Type)> = Vec::new();
                let old_table = &self.class_attributes[i].1;
                let mut j: usize = 0;
                while j < old_table.len()
                    invariant
                        0 <= j <= old_table.len(),
                        table.len() == j,
                        forall|m: int| 0 <= m < j ==> #[trigger] table@[m].0@ == old_table@[m].0@ && table@[m].1@
                            == old_table@[m].1@,
                    decreases old_table.len() - j,
                {
                    table.push((old_table[j].0.clone(), old_table[j].1.clone()));
                    j += 1;
                }
                let ghost av = attr@;
                let ghost tv = ty@;
                let ghost copied = table@;
                table.push((attr, ty));
                proof {
                    assert(table@.map_values(g) =~= old_table@.map_values(g).push((av, tv))) by {
                        assert forall|m: int| 0 <= m < old_table.len() implies table@.map_values(g)[m]
                            == old_table@.map_values(g)[m] by {
                            assert(table@[m] == copied[m]);
                        }
                    }
                    assert(table@.map_values(g).drop_last() =~= old_table@.map_values(g));
                }
                let ghost before = self.class_attributes@;
                self.class_attributes.set(i, (name, table));
                proof {
                    assert(self.class_attributes@.map_values(f) =~= outer.update(
                        i as int,
                        (outer[i as int].0, attr_table(old_table@).insert(av, tv)),
                    ));
                    assert forall|m: int| i < m < outer.len() implies (#[trigger] outer[m]).0 != outer[i as int].0 by {
                        assert(before[m].0@ != cls@);
                    }
                    lemma_keyed_set_last(outer, i as int, attr_table(old_table@).insert(av, tv));
                }
            },
        }
    }

    /// Infers the type of an expression, recording errors and binding comprehension
    /// variables as it goes.
    fn infer_expr(&mut self, e: &Expr, Ghost(st): Ghost<SChk>) -> (r: Type)
        requires
            old(self).wf(),
            old(self).matches(st),
        ensures
            final(self).wf(),
            final(self).env() == old(self).env(),
            final(self).matches(infer(old(self).env(), st, *e).0),
            r@ == infer(old(self).env(), st, *e).1,
        decreases e,
    {
        let ghost env = self.env();
        match e {
            Expr::Constant(c) => const_type_exec(c),
            Expr::Name(id) => self.infer_name(id, Ghost(st)),
            Expr::BinOp(l, op, r) => {
                let lt = self.infer_expr(l, Ghost(st));
                let ghost s1 = infer(env, st, **l).0;
                let rt = self.infer_expr(r, Ghost(s1));
                binop_type_exec(op, lt, rt)
            },
            Expr::Compare(_, _) => Type::Bool,
            Expr::UnaryOp(op, x) => match op {
                UnaryOp::Not => Type::Bool,
                UnaryOp::Invert => Type::Int,
                _ => self.infer_expr(x, Ghost(st)),
            },
            Expr::BoolOp(_) => Type::Bool,
            Expr::List(es) => {
                if es.len() == 0 {
                    let v = self.fresh_var(Ghost(st));
                    Type::List(Box::new(v))
                } else {
                    let ts = self.infer_exprs(es, Ghost(st));
                    Type::List(Box::new(Type::union(ts)))
                }
            },
            Expr::SetExpr(es) => {
                if es.len() == 0 {
                    let v = self.fresh_var(Ghost(st));
                    Type::SetOf(Box::new(v))
                } else {
                    let ts = self.infer_exprs(es, Ghost(st));
                    Type::SetOf(Box::new(Type::union(ts)))
                }
            },
            Expr::ListComp(elt, gens) => {
                self.bind_gens(gens, Ghost(st));
                let ghost s1 = bind_gens(env, st, gens@);
                let t = self.infer_expr(elt, Ghost(s1));
                Type::List(Box::new(t))
            },
            Expr::SetComp(elt, gens) => {
                self.bind_gens(gens, Ghost(st));
                let ghost s1 = bind_gens(env, st, gens@);
                let t = self.infer_expr(elt, Ghost(s1));
                Type::SetOf(Box::new(t))
            },
            Expr::DictComp(k, v, gens) => {
                self.bind_gens(gens, Ghost(st));
                let ghost s1 = bind_gens(env, st, gens@);
                let kt = self.infer_expr(k, Ghost(s1));
                let ghost s2 = infer(env, s1, **k).0;
                let vt = self.infer_expr(v, Ghost(s2));
                Type::Dict(Box::new(kt), Box::new(vt))
            },
            Expr::Tuple(es) => {
                let ts = self.infer_exprs(es, Ghost(st));
                Type::Tuple(ts)
            },
            Expr::Dict(ks, vs) => {
                let kts = self.infer_keys(ks, Ghost(st));
                let ghost s1 = infer_keys(env, st, ks@).0;
                let vts = self.infer_exprs(vs, Ghost(s1));
                let ghost s2 = infer_all(env, s1, vs@).0;
                let kt = if kts.len() == 0 {
                    self.fresh_var(Ghost(s2))
                } else {
                    Type::union(kts)
                };
                let ghost s3 = if infer_keys(env, st, ks@).1.len() == 0 {
                    with_fresh(s2).0
                } else {
                    s2
                };
                let vt = if vts.len() == 0 {
                    self.fresh_var(Ghost(s3))
                } else {
                    Type::union(vts)
                };
                Type::Dict(Box::new(kt), Box::new(vt))
            },
            Expr::Call(f, args) => {
                let ft = self.infer_expr(f, Ghost(st));
                let ghost s1 = infer(env, st, **f).0;
                self.finish_call(ft, args, Ghost(s1))
            },
            Expr::Subscript(v, _) => {
                let vt = self.infer_expr(v, Ghost(st));
                let ghost s1 = infer(env, st, **v).0;
                proof {
                    lemma_view_tag(vt);
                }
                match vt {
                    Type::List(x) => *x,
                    Type::Dict(_, w) => *w,
                    Type::Tuple(ts) => {
                        assert(tviews(ts@).len() == ts@.len());
                        if ts.len() == 0 {
                            Type::Any
                        } else if ts.len() == 1 {
                            proof {
                                lemma_tviews_index(ts@, 0);
                            }
                            ts[0].clone()
                        } else {
                            Type::union(ts)
                        }
                    },
                    Type::Str => Type::Str,
                    _ => self.fresh_var(Ghost(s1)),
                }
            },
            Expr::Attribute(v, attr) => {
                let vt = self.infer_expr(v, Ghost(st));
                let ghost s1 = infer(env, st, **v).0;
                self.attr_result(vt, attr, Ghost(s1))
            },
            _ => Type::Any,
        }
    }

    /// The type of the attribute `attr` of a value of type `vt`.
    fn attr_result(&mut self, vt: Type, attr: &String, Ghost(st): Ghost<SChk>) -> (r: Type)
        requires
            old(self).wf(),
            old(self).matches(st),
        ensures
            final(self).wf(),
            final(self).env() == old(self).env(),
            final(self).matches(attr_result(old(self).env(), st, vt@, attr@).0),
            r@ == attr_result(old(self).env(), st, vt@, attr@).1,
    {
        let ghost env = self.env();
        proof {
            lemma_view_tag(vt);
        }
        if let Type::Class(cn) = &vt {
            if let Some(t) = self.class_attribute(cn.as_str(), attr.as_str()) {
                return t;
            }
        }
        match self.ctx.has_attribute(&vt, attr.as_str()) {
            Some(t) => t,
            None => {
                if let Type::Class(_) = &vt {
                    return self.fresh_var(Ghost(st));
                }
                let available = self.ctx.get_attributes(&vt);
                let ghost names = attr_names_of(env, vt@);
                let msg = attr_error_message(&vt, attr.as_str(), &available, Ghost(names));
                self.push_error(msg, Ghost(st), Ghost(SErr::NoAttr(vt@, attr@, names)));
                self.fresh_var(Ghost(with_err(st, SErr::NoAttr(vt@, attr@, names))))
            },
        }
    }

    /// Infers the types of expressions in turn.
    fn infer_exprs(&mut self, es: &Vec<Expr>, Ghost(st): Ghost<SChk>) -> (r: Vec<Type>)
        requires
            old(self).wf(),
            old(self).matches(st),
        ensures
            final(self).wf(),
            final(self).env() == old(self).env(),
            final(self).matches(infer_all(old(self).env(), st, es@).0),
            tviews(r@) == infer_all(old(self).env(), st, es@).1,
        decreases es, 0nat,
    {
        let ghost env = self.env();
        let ghost fin = infer_all(env, st, es@);
        let ghost mut cur = st;
        let mut out: Vec<Type> = Vec::new();
        let mut i: usize = 0;
        assert(es@.subrange(0, es@.len() as int) =~= es@);
        assert(fin.1.subrange(0, fin.1.len() as int) =~= fin.1);
        proof {
            lemma_infer_all_len(env, st, es@);
        }
        while i < es.len()
            invariant
                self.wf(),
                0 <= i <= es.len(),
                env == self.env(),
                self.matches(cur),
                fin == infer_all(env, st, es@),
                fin.1.len() == es.len(),
                infer_all(env, cur, es@.subrange(i as int, es@.len() as int)) == (fin.0, fin.1.subrange(
                    i as int,
                    fin.1.len() as int,
                )),
                tviews(out@) == fin.1.take(i as int),
                out.len() == i,
            decreases es.len() - i,
        {
            let ghost sub = es@.subrange(i as int, es@.len() as int);
            assert(sub[0] == es@[i as int]);
            assert(sub.subrange(1, sub.len() as int) =~= es@.subrange(i + 1, es@.len() as int));
            let t = self.infer_expr(&es[i], Ghost(cur));
            proof {
                let step = infer(env, cur, es@[i as int]);
                let rest = infer_all(env, step.0, es@.subrange(i + 1, es@.len() as int));
                assert(infer_all(env, cur, sub) == (rest.0, seq![step.1] + rest.1));
                let tail = fin.1.subrange(i as int, fin.1.len() as int);
                assert(tail == seq![step.1] + rest.1);
                assert((seq![step.1] + rest.1).subrange(1, tail.len() as int) =~= rest.1);
                assert(tail.subrange(1, tail.len() as int) =~= fin.1.subrange(i + 1, fin.1.len() as int));
                assert(tail[0] == step.1);
                assert(fin.1[i as int] == step.1);
                cur = step.0;
            }
            let ghost before = out@;
            out.push(t);
            proof {
                assert(tviews(out@) =~= fin.1.take(i + 1)) by {
                    assert forall|m: int| 0 <= m < i + 1 implies tviews(out@)[m] == fin.1.take(i + 1)[m] by {
                        lemma_tviews_index(out@, m);
                        if m < i {
                            lemma_tviews_index(before, m);
                            assert(out@[m] == before[m]);
                        }
                    }
                }
            }
            i += 1;
        }
        assert(es@.subrange(i as int, es@.len() as int) =~= Seq::<Expr>::empty());
        assert(fin.1.take(i as int) =~= fin.1);
        out
    }

    /// Infers the types of dict keys in turn, skipping `**` entries.
    fn infer_keys(&mut self, ks: &Vec<Option<Expr>>, Ghost(st): Ghost<SChk>) -> (r: Vec<Type>)
        requires
            old(self).wf(),
            old(self).matches(st),
        ensures
            final(self).wf(),
            final(self).env() == old(self).env(),
            final(self).matches(infer_keys(old(self).env(), st, ks@).0),
            tviews(r@) == infer_keys(old(self).env(), st, ks@).1,
        decreases ks, 0nat,
    {
        let ghost env = self.env();
        let ghost fin = infer_keys(env, st, ks@);
        let ghost mut cur = st;
        let mut out: Vec<Type> = Vec::new();
        let mut i: usize = 0;
        assert(ks@.subrange(0, ks@.len() as int) =~= ks@);
        while i < ks.len()
            invariant
                self.wf(),
                0 <= i <= ks.len(),
                env == self.env(),
                self.matches(cur),
                fin == infer_keys(env, st, ks@),
                fin.0 == infer_keys(env, cur, ks@.subrange(i as int, ks@.len() as int)).0,
                fin.1 == tviews(out@) + infer_keys(env, cur, ks@.subrange(i as int, ks@.len() as int)).1,
            decreases ks.len() - i,
        {
            let ghost sub = ks@.subrange(i as int, ks@.len() as int);
            assert(sub[0] == ks@[i as int]);
            assert(sub.subrange(1, sub.len() as int) =~= ks@.subrange(i + 1, ks@.len() as int));
            let ghost before = out@;
            if let Some(k) = &ks[i] {
                let t = self.infer_expr(k, Ghost(cur));
                proof {
                    cur = infer(env, cur, *k).0;
                }
                out.push(t);
                proof {
                    assert(tviews(out@) =~= tviews(before).push(out@[out@.len() - 1]@)) by {
                        assert forall|m: int| 0 <= m < out@.len() implies tviews(out@)[m] == tviews(before).push(
                            out@[out@.len() - 1]@,
                        )[m] by {
                            lemma_tviews_index(out@, m);
                            if m < before.len() {
                                lemma_tviews_index(before, m);
                                assert(out@[m] == before[m]);
                            }
                        }
                    }
                    let rest = infer_keys(env, cur, ks@.subrange(i + 1, ks@.len() as int));
                    assert(tviews(before) + (seq![out@[out@.len() - 1]@] + rest.1) =~= tviews(out@) + rest.1);
                }
            } else {
                proof {
                    let rest = infer_keys(env, cur, ks@.subrange(i + 1, ks@.len() as int));
                    assert(Seq::<SType>::empty() + rest.1 =~= rest.1);
                }
            }
            i += 1;
        }
        assert(ks@.subrange(i as int, ks@.len() as int) =~= Seq::<Option<Expr>>::empty());
        assert(tviews(out@) + Seq::<SType>::empty() =~= tviews(out@));
        out
    }

    /// Binds the loop variables of comprehension clauses.
    fn bind_gens(&mut self, gs: &Vec<Comprehension>, Ghost(st): Ghost<SChk>)
        requires
            old(self).wf(),
            old(self).matches(st),
        ensures
            final(self).wf(),
            final(self).env() == old(self).env(),
            final(self).matches(bind_gens(old(self).env(), st, gs@)),
        decreases gs, 0nat,
    {
        let ghost env = self.env();
        let ghost fin = bind_gens(env, st, gs@);
        let ghost mut cur = st;
        let mut i: usize = 0;
        assert(gs@.subrange(0, gs@.len() as int) =~= gs@);
        while i < gs.len()
            invariant
                self.wf(),
                0 <= i <= gs.len(),
                env == self.env(),
                self.matches(cur),
                fin == bind_gens(env, cur, gs@.subrange(i as int, gs@.len() as int)),
            decreases gs.len() - i,
        {
            let ghost sub = gs@.subrange(i as int, gs@.len() as int);
            assert(sub[0] == gs@[i as int]);
            assert(sub.subrange(1, sub.len() as int) =~= gs@.subrange(i + 1, gs@.len() as int));
            let it = self.infer_expr(&gs[i].iter, Ghost(cur));
            let ghost s1 = infer(env, cur, gs@[i as int].iter).0;
            proof {
                lemma_view_tag(it);
            }
            let elem = match it {
                Type::List(x) => *x,
                Type::SetOf(x) => *x,
                Type::Tuple(ts) => {
                    if ts.len() > 0 {
                        Type::union(ts)
                    } else {
                        assert(tviews(ts@).len() == 0);
                        self.fresh_var(Ghost(s1))
                    }
                },
                Type::Dict(k, _) => *k,
                Type::Str => Type::Str,
                _ => self.fresh_var(Ghost(s1)),
            };
            let ghost s2 = match iter_elem(infer(env, cur, gs@[i as int].iter).1) {
                Some(t) => s1,
                None => with_fresh(s1).0,
            };
            if let Expr::Name(id) = &gs[i].target {
                self.ctx.set_type(id.clone(), elem);
            }
            proof {
                cur = match gs@[i as int].target {
                    Expr::Name(id) => with_type(s2, id@, match iter_elem(infer(env, cur, gs@[i as int].iter).1) {
                        Some(t) => t,
                        None => with_fresh(s1).1,
                    }),
                    _ => s2,
                };
            }
            i += 1;
        }
    }

    /// The rest of inferring a call, once the callee's type `ft` is known.
    fn finish_call(&mut self, ft: Type, args: &Vec<Expr>, Ghost(st): Ghost<SChk>) -> (r: Type)
        requires
            old(self).wf(),
            old(self).matches(st),
        ensures
            final(self).wf(),
            final(self).env() == old(self).env(),
            ({
                let res = match ft@ {
                    SType::Function(ps, ret) => {
                        let s2 = if args.len() != ps.len() {
                            with_err(st, SErr::Text(count_msg(ps.len(), args.len() as nat)))
                        } else {
                            st
                        };
                        (check_args(old(self).env(), s2, args@, ps, 0), *ret)
                    },
                    _ => with_fresh(st),
                };
                final(self).matches(res.0) && r@ == res.1
            }),
        decreases args, 1nat,
    {
        let ghost env = self.env();
        match ft {
            Type::Function(params, ret) => {
                let ghost ps = tviews(params@);
                assert(ps.len() == params.len());
                let ghost s2 = if args.len() != ps.len() {
                    with_err(st, SErr::Text(count_msg(ps.len(), args.len() as nat)))
                } else {
                    st
                };
                if args.len() != params.len() {
                    let msg = count_text(params.len(), args.len());
                    self.push_error(msg, Ghost(st), Ghost(SErr::Text(count_msg(ps.len(), args.len() as nat))));
                }
                let ghost fin = check_args(env, s2, args@, ps, 0);
                let ghost mut cur = s2;
                let mut i: usize = 0;
                assert(args@.subrange(0, args@.len() as int) =~= args@);
                assert(ps.subrange(0, ps.len() as int) =~= ps);
                while i < args.len() && i < params.len()
                    invariant
                        self.wf(),
                        0 <= i <= args.len(),
                        i <= params.len(),
                        ps == tviews(params@),
                        ps.len() == params.len(),
                        env == self.env(),
                        self.matches(cur),
                        fin == check_args(
                            env,
                            cur,
                            args@.subrange(i as int, args@.len() as int),
                            ps.subrange(i as int, ps.len() as int),
                            i as nat,
                        ),
                    decreases args.len() - i,
                {
                    let ghost sa = args@.subrange(i as int, args@.len() as int);
                    let ghost sp = ps.subrange(i as int, ps.len() as int);
                    assert(sa[0] == args@[i as int]);
                    assert(sp[0] == ps[i as int]);
                    assert(sa.subrange(1, sa.len() as int) =~= args@.subrange(i + 1, args@.len() as int));
                    assert(sp.subrange(1, sp.len() as int) =~= ps.subrange(i + 1, ps.len() as int));
                    proof {
                        lemma_tviews_index(params@, i as int);
                    }
                    let at = self.infer_expr(&args[i], Ghost(cur));
                    let ghost s1 = infer(env, cur, args@[i as int]).0;
                    if !at.is_subtype(&params[i]) {
                        let msg = arg_text(i, &params[i], &at);
                        self.push_error(msg, Ghost(s1), Ghost(SErr::Text(arg_msg(i as nat, ps[i as int], at@))));
                        proof {
                            cur = with_err(s1, SErr::Text(arg_msg(i as nat, ps[i as int], at@)));
                        }
                    } else {
                        proof {
                            cur = s1;
                        }
                    }
                    i += 1;
                }
                assert(args@.subrange(i as int, args@.len() as int).len() == 0 || ps.subrange(
                    i as int,
                    ps.len() as int,
                ).len() == 0);
                *ret
            },
            _ => self.fresh_var(Ghost(st)),
        }
    }

    /// Synthesizes the type of an expression bottom-up, as bidirectional checking does.
    #[verifier::rlimit(60)]
    pub(crate) fn synthesize(&mut self, e: &Expr, Ghost(st): Ghost<SChk>) -> (r: Type)
        requires
            old(self).wf(),
            old(self).matches(st),
        ensures
            final(self).wf(),
            final(self).env() == old(self).env(),
            final(self).matches(synth(old(self).env(), st, *e).0),
            r@ == synth(old(self).env(), st, *e).1,
        decreases e,
    {
        let ghost env = self.env();
        match e {
            Expr::Constant(c) => synth_const_exec(c),
            Expr::Name(id) => self.infer_name(id, Ghost(st)),
            Expr::BinOp(l, op, r) => {
                let lt = self.synthesize(l, Ghost(st));
                let ghost s1 = synth(env, st, **l).0;
                let rt = self.synthesize(r, Ghost(s1));
                synth_binop_exec(op, lt, rt)
            },
            Expr::UnaryOp(op, x) => {
                let t = self.synthesize(x, Ghost(st));
                proof {
                    lemma_view_tag(t);
                }
                match op {
                    UnaryOp::Not => Type::Bool,
                    UnaryOp::Invert => match t {
                        Type::Int => Type::Int,
                        _ => Type::Any,
                    },
                    _ => t,
                }
            },
            Expr::BoolOp(vs) => {
                let ts = self.synth_exprs(vs, Ghost(st));
                Type::union(ts)
            },
            Expr::Compare(_, _) => Type::Bool,
            Expr::Call(f, args) => {
                let ft = self.synthesize(f, Ghost(st));
                let ghost s1 = synth(env, st, **f).0;
                proof {
                    lemma_view_tag(ft);
                }
                match ft {
                    Type::Function(params, ret) => {
                        self.synth_args(args, &params, Ghost(s1));
                        *ret
                    },
                    Type::Class(n) => Type::Class(n),
                    _ => match &**f {
                        Expr::Name(n) => self.synth_builtin_call(n, args, Ghost(s1)),
                        _ => self.fresh_var(Ghost(s1)),
                    },
                }
            },
            Expr::List(es) => {
                if es.len() == 0 {
                    let v = self.fresh_var(Ghost(st));
                    Type::List(Box::new(v))
                } else {
                    let ts = self.synth_exprs(es, Ghost(st));
                    Type::List(Box::new(Type::union(ts)))
                }
            },
            Expr::Tuple(es) => {
                let ts = self.synth_exprs(es, Ghost(st));
                Type::Tuple(ts)
            },
            Expr::Dict(ks, vs) => {
                let kts = self.synth_keys(ks, Ghost(st));
                let ghost s1 = synth_keys(env, st, ks@).0;
                let vts = self.synth_exprs(vs, Ghost(s1));
                let ghost s2 = synth_all(env, s1, vs@).0;
                let kt = if kts.len() == 0 {
                    self.fresh_var(Ghost(s2))
                } else {
                    Type::union(kts)
                };
                let ghost s3 = if synth_keys(env, st, ks@).1.len() == 0 {
                    with_fresh(s2).0
                } else {
                    s2
                };
                let vt = if vts.len() == 0 {
                    self.fresh_var(Ghost(s3))
                } else {
                    Type::union(vts)
                };
                Type::Dict(Box::new(kt), Box::new(vt))
            },
            Expr::SetExpr(es) => {
                let ts = self.synth_exprs(es, Ghost(st));
                Type::SetOf(Box::new(Type::union(ts)))
            },
            Expr::ListComp(elt, gens) => {
                self.synth_gens(gens, Ghost(st));
                let ghost s1 = synth_gens(env, st, gens@);
                let t = self.synthesize(elt, Ghost(s1));
                Type::List(Box::new(t))
            },
            Expr::DictComp(k, v, gens) => {
                self.synth_gens(gens, Ghost(st));
                let ghost s1 = synth_gens(env, st, gens@);
                let kt = self.synthesize(k, Ghost(s1));
                let ghost s2 = synth(env, s1, **k).0;
                let vt = self.synthesize(v, Ghost(s2));
                Type::Dict(Box::new(kt), Box::new(vt))
            },
            Expr::SetComp(elt, gens) => {
                self.synth_gens(gens, Ghost(st));
                let ghost s1 = synth_gens(env, st, gens@);
                let t = self.synthesize(elt, Ghost(s1));
                Type::SetOf(Box::new(t))
            },
            Expr::GeneratorExp(elt, gens) => {
                self.synth_gens(gens, Ghost(st));
                let ghost s1 = synth_gens(env, st, gens@);
                let t = self.synthesize(elt, Ghost(s1));
                let ghost tv = t@;
                let v = vec![t];
                assert(tviews(v@) =~= seq![tv]);
                Type::Generic(String::from_str("Generator"), v)
            },
            Expr::Lambda(params, body) => {
                let pts = self.fresh_vars(params.len(), Ghost(st));
                let ghost s1 = fresh_vars(st, params.len() as nat).0;
                let bt = self.synthesize(body, Ghost(s1));
                Type::Function(pts, Box::new(bt))
            },
            Expr::IfExp(t, b, o) => {
                let _ = self.synthesize(t, Ghost(st));
                let ghost s1 = synth(env, st, **t).0;
                let bt = self.synthesize(b, Ghost(s1));
                let ghost s2 = synth(env, s1, **b).0;
                let ot = self.synthesize(o, Ghost(s2));
                let ghost bv = bt@;
                let ghost ov = ot@;
                let v = vec![bt, ot];
                assert(tviews(v@) =~= seq![bv, ov]);
                Type::union(v)
            },
            Expr::Subscript(v, sl) => {
                let vt = self.synthesize(v, Ghost(st));
                let ghost s1 = synth(env, st, **v).0;
                let _ = self.synthesize(sl, Ghost(s1));
                let ghost s2 = synth(env, s1, **sl).0;
                proof {
                    lemma_view_tag(vt);
                }
                match vt {
                    Type::List(x) => *x,
                    Type::Tuple(elems) => {
                        assert(tviews(elems@).len() == elems@.len());
                        match &**sl {
                            Expr::Constant(Constant::Int(n)) => {
                                let idx: usize = match n {
                                    Some(m) => if 0 <= *m && *m <= 4294967295i64 {
                                        *m as usize
                                    } else {
                                        0
                                    },
                                    None => 0,
                                };
                                assert(idx as int == literal_index(*n));
                                if idx < elems.len() {
                                    proof {
                                        lemma_tviews_index(elems@, idx as int);
                                    }
                                    elems[idx].clone()
                                } else {
                                    Type::Any
                                }
                            },
                            _ => Type::union(elems),
                        }
                    },
                    Type::Dict(_, w) => *w,
                    Type::Str => Type::Str,
                    _ => self.fresh_var(Ghost(s2)),
                }
            },
            Expr::Attribute(v, attr) => {
                let vt = self.synthesize(v, Ghost(st));
                let ghost s1 = synth(env, st, **v).0;
                match self.ctx.has_attribute(&vt, attr.as_str()) {
                    Some(t) => t,
                    None => self.fresh_var(Ghost(s1)),
                }
            },
            Expr::Slice => Type::Class(String::from_str("slice")),
            Expr::NamedExpr(v) => self.synthesize(v, Ghost(st)),
            Expr::Starred(v) => self.synthesize(v, Ghost(st)),
            Expr::Await(v) => self.synthesize(v, Ghost(st)),
            Expr::Yield(v) => match v {
                Some(x) => self.synthesize(x, Ghost(st)),
                None => Type::NoneType,
            },
            Expr::YieldFrom(v) => self.synthesize(v, Ghost(st)),
            Expr::FormattedValue(v) => {
                let _ = self.synthesize(v, Ghost(st));
                Type::Str
            },
            Expr::JoinedStr => Type::Str,
        }
    }

    /// `n` fresh variables in turn.
    fn fresh_vars(&mut self, n: usize, Ghost(st): Ghost<SChk>) -> (r: Vec<Type>)
        requires
            old(self).matches(st),
        ensures
            final(self).matches(fresh_vars(st, n as nat).0),
            tviews(r@) == fresh_vars(st, n as nat).1,
            final(self).env() == old(self).env(),
            final(self).wf() == old(self).wf(),
    {
        let mut out: Vec<Type> = Vec::new();
        let ghost mut cur = st;
        let mut i: usize = 0;
        assert(tviews(out@) =~= Seq::<SType>::empty());
        while i < n
            invariant
                0 <= i <= n,
                self.matches(cur),
                (cur, tviews(out@)) == fresh_vars(st, i as nat),
                self.env() == old(self).env(),
                self.wf() == old(self).wf(),
            decreases n - i,
        {
            let v = self.fresh_var(Ghost(cur));
            let ghost before = out@;
            out.push(v);
            proof {
                assert(tviews(out@) =~= tviews(before).push(with_fresh(cur).1)) by {
                    assert forall|m: int| 0 <= m < out@.len() implies tviews(out@)[m] == tviews(before).push(
                        with_fresh(cur).1,
                    )[m] by {
                        lemma_tviews_index(out@, m);
                        if m < before.len() {
                            lemma_tviews_index(before, m);
                            assert(out@[m] == before[m]);
                        }
                    }
                }
                cur = with_fresh(cur).0;
            }
            i += 1;
        }
        out
    }

    /// Synthesizes the types of expressions in turn.
    fn synth_exprs(&mut self, es: &Vec<Expr>, Ghost(st): Ghost<SChk>) -> (r: Vec<Type>)
        requires
            old(self).wf(),
            old(self).matches(st),
        ensures
            final(self).wf(),
            final(self).env() == old(self).env(),
            final(self).matches(synth_all(old(self).env(), st, es@).0),
            tviews(r@) == synth_all(old(self).env(), st, es@).1,
        decreases es, 0nat,
    {
        let ghost env = self.env();
        let ghost fin = synth_all(env, st, es@);
        let ghost mut cur = st;
        let mut out: Vec<Type> = Vec::new();
        let mut i: usize = 0;
        assert(es@.subrange(0, es@.len() as int) =~= es@);
        assert(tviews(out@) =~= Seq::<SType>::empty());
        while i < es.len()
            invariant
                self.wf(),
                0 <= i <= es.len(),
                env == self.env(),
                self.matches(cur),
                fin == synth_all(env, st, es@),
                fin.0 == synth_all(env, cur, es@.subrange(i as int, es@.len() as int)).0,
                fin.1 == tviews(out@) + synth_all(env, cur, es@.subrange(i as int, es@.len() as int)).1,
            decreases es.len() - i,
        {
            let ghost sub = es@.subrange(i as int, es@.len() as int);
            assert(sub[0] == es@[i as int]);
            assert(sub.subrange(1, sub.len() as int) =~= es@.subrange(i + 1, es@.len() as int));
            let ghost before = out@;
            let t = self.synthesize(&es[i], Ghost(cur));
            proof {
                cur = synth(env, cur, es@[i as int]).0;
            }
            out.push(t);
            proof {
                assert(tviews(out@) =~= tviews(before).push(out@[out@.len() - 1]@)) by {
                    assert forall|m: int| 0 <= m < out@.len() implies tviews(out@)[m] == tviews(before).push(
                        out@[out@.len() - 1]@,
                    )[m] by {
                        lemma_tviews_index(out@, m);
                        if m < before.len() {
                            lemma_tviews_index(before, m);
                            assert(out@[m] == before[m]);
                        }
                    }
                }
                let rest = synth_all(env, cur, es@.subrange(i + 1, es@.len() as int));
                assert(tviews(before) + (seq![out@[out@.len() - 1]@] + rest.1) =~= tviews(out@) + rest.1);
            }
            i += 1;
        }
        assert(es@.subrange(i as int, es@.len() as int) =~= Seq::<Expr>::empty());
        assert(tviews(out@) + Seq::<SType>::empty() =~= tviews(out@));
        out
    }

    /// Synthesizes the types of dict keys in turn.
    fn synth_keys(&mut self, ks: &Vec<Option<Expr>>, Ghost(st): Ghost<SChk>) -> (r: Vec<Type>)
        requires
            old(self).wf(),
            old(self).matches(st),
        ensures
            final(self).wf(),
            final(self).env() == old(self).env(),
            final(self).matches(synth_keys(old(self).env(), st, ks@).0),
            tviews(r@) == synth_keys(old(self).env(), st, ks@).1,
        decreases ks, 0nat,
    {
        let ghost env = self.env();
        let ghost fin = synth_keys(env, st, ks@);
        let ghost mut cur = st;
        let mut out: Vec<Type> = Vec::new();
        let mut i: usize = 0;
        assert(ks@.subrange(0, ks@.len() as int) =~= ks@);
        assert(tviews(out@) =~= Seq::<SType>::empty());
        while i < ks.len()
            invariant
                self.wf(),
                0 <= i <= ks.len(),
                env == self.env(),
                self.matches(cur),
                fin == synth_keys(env, st, ks@),
                fin.0 == synth_keys(env, cur, ks@.subrange(i as int, ks@.len() as int)).0,
                fin.1 == tviews(out@) + synth_keys(env, cur, ks@.subrange(i as int, ks@.len() as int)).1,
            decreases ks.len() - i,
        {
            let ghost sub = ks@.subrange(i as int, ks@.len() as int);
            assert(sub[0] == ks@[i as int]);
            assert(sub.subrange(1, sub.len() as int) =~= ks@.subrange(i + 1, ks@.len() as int));
            let ghost before = out@;
            if let Some(k) = &ks[i] {
                let t = self.synthesize(k, Ghost(cur));
                proof {
                    cur = synth(env, cur, *k).0;
                }
                out.push(t);
                proof {
                    assert(tviews(out@) =~= tviews(before).push(out@[out@.len() - 1]@)) by {
                        assert forall|m: int| 0 <= m < out@.len() implies tviews(out@)[m] == tviews(before).push(
                            out@[out@.len() - 1]@,
                        )[m] by {
                            lemma_tviews_index(out@, m);
                            if m < before.len() {
                                lemma_tviews_index(before, m);
                                assert(out@[m] == before[m]);
                            }
                        }
                    }
                    let rest = synth_keys(env, cur, ks@.subrange(i + 1, ks@.len() as int));
                    assert(tviews(before) + (seq![out@[out@.len() - 1]@] + rest.1) =~= tviews(out@) + rest.1);
                }
            } else {
                proof {
                    let rest = synth_keys(env, cur, ks@.subrange(i + 1, ks@.len() as int));
                    assert(Seq::<SType>::empty() + rest.1 =~= rest.1);
                }
            }
            i += 1;
        }
        assert(ks@.subrange(i as int, ks@.len() as int) =~= Seq::<Option<Expr>>::empty());
        assert(tviews(out@) + Seq::<SType>::empty() =~= tviews(out@));
        out
    }

    /// Synthesizes the arguments paired with parameters.
    fn synth_args(&mut self, args: &Vec<Expr>, params: &Vec<Type>, Ghost(st): Ghost<SChk>)
        requires
            old(self).wf(),
            old(self).matches(st),
        ensures
            final(self).wf(),
            final(self).env() == old(self).env(),
            final(self).matches(synth_args(old(self).env(), st, args@, tviews(params@))),
        decreases args, 0nat,
    {
        let ghost env = self.env();
        let ghost ps = tviews(params@);
        let ghost fin = synth_args(env, st, args@, ps);
        let ghost mut cur = st;
        let mut i: usize = 0;
        assert(args@.subrange(0, args@.len() as int) =~= args@);
        assert(ps.subrange(0, ps.len() as int) =~= ps);
        while i < args.len() && i < params.len()
            invariant
                self.wf(),
                0 <= i <= args.len(),
                i <= params.len(),
                ps == tviews(params@),
                ps.len() == params.len(),
                env == self.env(),
                self.matches(cur),
                fin == synth_args(env, cur, args@.subrange(i as int, args@.len() as int), ps.subrange(i as int, ps.len() as int)),
            decreases args.len() - i,
        {
            let ghost sa = args@.subrange(i as int, args@.len() as int);
            let ghost sp = ps.subrange(i as int, ps.len() as int);
            assert(sa[0] == args@[i as int]);
            assert(sa.subrange(1, sa.len() as int) =~= args@.subrange(i + 1, args@.len() as int));
            assert(sp.subrange(1, sp.len() as int) =~= ps.subrange(i + 1, ps.len() as int));
            let _ = self.synthesize(&args[i], Ghost(cur));
            proof {
                cur = synth(env, cur, args@[i as int]).0;
            }
            i += 1;
        }
    }

    /// Synthesizes the clauses of a comprehension.
    fn synth_gens(&mut self, gs: &Vec<Comprehension>, Ghost(st): Ghost<SChk>)
        requires
            old(self).wf(),
            old(self).matches(st),
        ensures
            final(self).wf(),
            final(self).env() == old(self).env(),
            final(self).matches(synth_gens(old(self).env(), st, gs@)),
        decreases gs, 0nat,
    {
        let ghost env = self.env();
        let ghost fin = synth_gens(env, st, gs@);
        let ghost mut cur = st;
        let mut i: usize = 0;
        assert(gs@.subrange(0, gs@.len() as int) =~= gs@);
        while i < gs.len()
            invariant
                self.wf(),
                0 <= i <= gs.len(),
                env == self.env(),
                self.matches(cur),
                fin == synth_gens(env, cur, gs@.subrange(i as int, gs@.len() as int)),
            decreases gs.len() - i,
        {
            let ghost sub = gs@.subrange(i as int, gs@.len() as int);
            assert(sub[0] == gs@[i as int]);
            assert(sub.subrange(1, sub.len() as int) =~= gs@.subrange(i + 1, gs@.len() as int));
            let _ = self.synthesize(&gs[i].iter, Ghost(cur));
            let ghost s1 = synth(env, cur, gs@[i as int].iter).0;
            let _ = self.synth_exprs(&gs[i].ifs, Ghost(s1));
            proof {
                cur = synth_all(env, s1, gs@[i as int].ifs@).0;
            }
            i += 1;
        }
    }

    /// The type of a call of a name that is not typed as a function or a class.
    fn synth_builtin_call(&mut self, name: &String, args: &Vec<Expr>, Ghost(st): Ghost<SChk>) -> (r: Type)
        requires
            old(self).wf(),
            old(self).matches(st),
        ensures
            final(self).wf(),
            final(self).env() == old(self).env(),
            final(self).matches(synth_builtin_call(old(self).env(), st, name@, args@).0),
            r@ == synth_builtin_call(old(self).env(), st, name@, args@).1,
        decreases args, 1nat,
    {
        let n = name.as_str();
        if text_eq(n, "int") {
            Type::Int
        } else if text_eq(n, "float") {
            Type::Float
        } else if text_eq(n, "str") {
            Type::Str
        } else if text_eq(n, "bool") {
            Type::Bool
        } else if text_eq(n, "list") {
            if args.len() > 0 {
                let t = self.synthesize(&args[0], Ghost(st));
                Type::List(Box::new(t))
            } else {
                let v = self.fresh_var(Ghost(st));
                Type::List(Box::new(v))
            }
        } else if text_eq(n, "dict") {
            let k = self.fresh_var(Ghost(st));
            let v = self.fresh_var(Ghost(with_fresh(st).0));
            Type::Dict(Box::new(k), Box::new(v))
        } else if text_eq(n, "set") {
            let v = self.fresh_var(Ghost(st));
            Type::SetOf(Box::new(v))
        } else if text_eq(n, "tuple") {
            let ts = self.synth_exprs(args, Ghost(st));
            Type::Tuple(ts)
        } else if text_eq(n, "len") {
            Type::Int
        } else if text_eq(n, "range") || text_eq(n, "enumerate") || text_eq(n, "zip") || text_eq(n, "map")
            || text_eq(n, "filter") {
            Type::Class(name.clone())
        } else {
            self.fresh_var(Ghost(st))
        }
    }

    /// Whether the expression's synthesized type is a subtype of `expected`.
    fn bi_check_expr(&mut self, e: &Expr, expected: &Type, Ghost(st): Ghost<SChk>) -> (r: bool)
        requires
            old(self).wf(),
            old(self).matches(st),
        ensures
            final(self).wf(),
            final(self).env() == old(self).env(),
            final(self).matches(synth(old(self).env(), st, *e).0),
            r == subtype(synth(old(self).env(), st, *e).1, expected@),
    {
        let t = self.synthesize(e, Ghost(st));
        t.is_subtype(expected)
    }

    /// Assigns a value of type `vt` to each target in turn.
    fn assign_targets(&mut self, targets: &Vec<Expr>, value: &Expr, vt: &Type, Ghost(st): Ghost<SChk>)
        requires
            old(self).wf(),
            old(self).matches(st),
        ensures
            final(self).wf(),
            final(self).env() == old(self).env(),
            final(self).matches(assign_targets(old(self).env(), st, targets@, *value, vt@)),
    {
        let ghost env = self.env();
        let ghost mut cur = st;
        let mut i: usize = 0;
        while i < targets.len()
            invariant
                self.wf(),
                0 <= i <= targets.len(),
                env == self.env(),
                self.matches(cur),
                cur == assign_targets(env, st, targets@.take(i as int), *value, vt@),
            decreases targets.len() - i,
        {
            assert(targets@.take(i + 1).drop_last() =~= targets@.take(i as int));
            assert(targets@.take(i + 1).last() == targets@[i as int]);
            match &targets[i] {
                Expr::Name(id) => {
                    match self.ctx.get_type(id.as_str()) {
                        Some(ann) => {
                            let ok = self.bi_check_expr(value, &ann, Ghost(cur));
                            let ghost s2 = synth(env, cur, *value).0;
                            let ghost s3 = if ok {
                                s2
                            } else {
                                with_err(s2, SErr::Text("Type mismatch in assignment to "@ + id@))
                            };
                            if !ok {
                                let mut msg = String::new();
                                msg.append("Type mismatch in assignment to ");
                                msg.append(id.as_str());
                                assert(msg@ =~= "Type mismatch in assignment to "@ + id@);
                                self.push_error(msg, Ghost(s2), Ghost(SErr::Text("Type mismatch in assignment to "@ + id@)));
                            }
                            let ghost av = ann@;
                            self.constraints.add_constraint(Constraint::Subtype(vt.clone(), ann));
                            proof {
                                cur = with_constraint(s3, SConstraint::Subtype(vt@, av));
                            }
                        },
                        None => {
                            self.ctx.set_type(id.clone(), vt.clone());
                            proof {
                                cur = with_type(cur, id@, vt@);
                            }
                        },
                    }
                },
                Expr::Attribute(b, attr) => {
                    if let Expr::Name(base) = &**b {
                        if text_eq(base.as_str(), "self") {
                            if let Some(cls) = &self.current_class {
                                let c = cls.clone();
                                let ghost outer = self.class_attributes@.map_values(
                                    |p: (String, Vec<(String, Type)>)| (p.0@, attr_table(p.1@)),
                                );
                                match self.class_entry(c.as_str()) {
                                    Some(idx) => {
                                        proof {
                                            assert forall|m: int| idx < m < outer.len() implies (#[trigger] outer[m]).0 != outer[idx as int].0 by {
                                                assert(self.class_attributes@[m].0@ != c@);
                                            }
                                            lemma_keyed_get(outer, idx as int);
                                        }
                                        self.set_class_attribute(c.as_str(), attr.clone(), vt.clone());
                                        proof {
                                            cur = SChk {
                                                attrs: cur.attrs.insert(cur.cur_class->0, cur.attrs[cur.cur_class->0].insert(attr@, vt@)),
                                                ..cur
                                            };
                                        }
                                    },
                                    None => {
                                        proof {
                                            assert forall|m: int| 0 <= m < outer.len() implies (#[trigger] outer[m]).0 != c@ by {
                                                assert(self.class_attributes@[m].0@ != c@);
                                            }
                                            lemma_keyed_absent(outer, c@);
                                        }
                                    },
                                }
                            }
                        }
                    }
                },
                _ => {},
            }
            i += 1;
        }
        assert(targets@.take(i as int) =~= targets@);
    }

    /// The types of the parameters: annotations, else fresh variables.
    fn param_types(&mut self, params: &Vec<Param>, Ghost(st): Ghost<SChk>) -> (r: Vec<Type>)
        requires
            old(self).wf(),
            old(self).matches(st),
        ensures
            final(self).wf(),
            final(self).env() == old(self).env(),
            final(self).matches(param_types(st, params@).0),
            tviews(r@) == param_types(st, params@).1,
    {
        let mut out: Vec<Type> = Vec::new();
        let ghost mut cur = st;
        let mut i: usize = 0;
        assert(params@.take(0) =~= Seq::<Param>::empty());
        assert(tviews(out@) =~= Seq::<SType>::empty());
        while i < params.len()
            invariant
                self.wf(),
                0 <= i <= params.len(),
                self.env() == old(self).env(),
                self.matches(cur),
                (cur, tviews(out@)) == param_types(st, params@.take(i as int)),
            decreases params.len() - i,
        {
            assert(params@.take(i + 1).drop_last() =~= params@.take(i as int));
            assert(params@.take(i + 1).last() == params@[i as int]);
            let ghost before = out@;
            let t = match &params[i].annotation {
                Some(a) => type_from_annotation(a),
                None => self.fresh_var(Ghost(cur)),
            };
            out.push(t);
            proof {
                assert(tviews(out@) =~= tviews(before).push(out@[out@.len() - 1]@)) by {
                    assert forall|m: int| 0 <= m < out@.len() implies tviews(out@)[m] == tviews(before).push(
                        out@[out@.len() - 1]@,
                    )[m] by {
                        lemma_tviews_index(out@, m);
                        if m < before.len() {
                            lemma_tviews_index(before, m);
                            assert(out@[m] == before[m]);
                        }
                    }
                }
                cur = param_types(st, params@.take(i + 1)).0;
            }
            i += 1;
        }
        assert(params@.take(i as int) =~= params@);
        out
    }

    /// Gives each parameter its type.
    fn bind_params(&mut self, params: &Vec<Param>, pts: &Vec<Type>, Ghost(st): Ghost<SChk>)
        requires
            old(self).wf(),
            old(self).matches(st),
            params.len() == pts.len(),
        ensures
            final(self).wf(),
            final(self).env() == old(self).env(),
            final(self).matches(bind_params(st, params@, tviews(pts@))),
    {
        let ghost tv = tviews(pts@);
        let mut i: usize = 0;
        assert(params@.take(0) =~= Seq::<Param>::empty());
        while i < params.len()
            invariant
                self.wf(),
                0 <= i <= params.len(),
                params.len() == pts.len(),
                tv == tviews(pts@),
                tv.len() == pts.len(),
                self.env() == old(self).env(),
                self.matches(bind_params(st, params@.take(i as int), tv.take(i as int))),
            decreases params.len() - i,
        {
            assert(params@.take(i + 1).drop_last() =~= params@.take(i as int));
            assert(tv.take(i + 1).drop_last() =~= tv.take(i as int));
            assert(params@.take(i + 1).last() == params@[i as int]);
            proof {
                lemma_tviews_index(pts@, i as int);
            }
            assert(tv.take(i + 1).last() == pts@[i as int]@);
            self.ctx.set_type(params[i].name.clone(), pts[i].clone());
            i += 1;
        }
        assert(params@.take(i as int) =~= params@);
        assert(tv.take(i as int) =~= tv);
    }

    /// Checks a statement.
    #[verifier::rlimit(80)]
    fn check_stmt(&mut self, stmt: &Stmt, Ghost(st): Ghost<SChk>)
        requires
            old(self).wf(),
            old(self).matches(st),
        ensures
            final(self).wf(),
            final(self).env() == old(self).env(),
            final(self).matches(check_stmt(old(self).env(), st, *stmt)),
        decreases stmt,
    {
        let ghost env = self.env();
        match stmt {
            Stmt::FunctionDef { name, params, result, body } => {
                let pts = self.param_types(params, Ghost(st));
                let ghost s1 = param_types(st, params@).0;
                proof {
                    lemma_param_types_len(st, params@);
                }
                let (rt, has) = match result {
                    Some(r) => (type_from_annotation(r), true),
                    None => (self.fresh_var(Ghost(s1)), false),
                };
                let ghost s2 = match result {
                    Some(_) => s1,
                    None => with_fresh(s1).0,
                };
                let base = Type::Function(clone_types(&pts), Box::new(rt.clone()));
                self.bind_params(params, &pts, Ghost(s2));
                let ghost s3 = bind_params(s2, params@, tviews(pts@));
                let prev = self.current_function_return_type.take();
                if has {
                    self.current_function_return_type = Some(rt);
                }
                let ghost s4 = SChk { ret: if has { Some(rt@) } else { None }, ..s3 };
                self.check_stmts(body, Ghost(s4));
                let ghost s5 = check_stmts(env, s4, body@);
                self.current_function_return_type = prev;
                let func_type = self.effects.annotate_function_type(name.as_str(), base);
                self.ctx.set_type(name.clone(), func_type);
            },
            Stmt::Assign { targets, value } => {
                let vt = self.infer_expr(value, Ghost(st));
                let ghost s1 = infer(env, st, *value).0;
                self.assign_targets(targets, value, &vt, Ghost(s1));
            },
            Stmt::AnnAssign { target, annotation, value } => {
                let at = type_from_annotation(annotation);
                let ghost s1 = match value {
                    Some(v) => {
                        let (a, vt) = infer(env, st, *v);
                        let b = if compatible(vt, at@) {
                            a
                        } else {
                            with_err(a, SErr::Text(ann_msg(vt, *target, at@)))
                        };
                        with_constraint(b, SConstraint::Subtype(vt, at@))
                    },
                    None => st,
                };
                if let Some(v) = value {
                    let vt = self.infer_expr(v, Ghost(st));
                    let ghost a = infer(env, st, *v).0;
                    if !is_compatible(&vt, &at) {
                        let mut msg = String::new();
                        msg.append("Type mismatch: cannot assign ");
                        write_type(&vt, &mut msg);
                        match target {
                            Expr::Name(id) => {
                                msg.append(" to variable '");
                                msg.append(id.as_str());
                                msg.append("' of type ");
                            },
                            _ => {
                                msg.append(" to type ");
                            },
                        }
                        write_type(&at, &mut msg);
                        assert(msg@ =~= ann_msg(vt@, *target, at@));
                        self.push_error(msg, Ghost(a), Ghost(SErr::Text(ann_msg(vt@, *target, at@))));
                    }
                    self.constraints.add_constraint(Constraint::Subtype(vt, at.clone()));
                }
                if let Expr::Name(id) = target {
                    self.ctx.set_type(id.clone(), at);
                }
            },
            Stmt::Return(v) => {
                match v {
                    Some(x) => {
                        let t = self.infer_expr(x, Ghost(st));
                        let ghost s1 = infer(env, st, *x).0;
                        let mut msg: Option<String> = None;
                        if let Some(expected) = &self.current_function_return_type {
                            if !t.is_subtype(expected) {
                                let mut m = String::new();
                                m.append("Return type mismatch: expected ");
                                write_type_dbg(expected, &mut m);
                                m.append(", got ");
                                write_type_dbg(&t, &mut m);
                                assert(m@ =~= ret_msg(expected@, t@));
                                msg = Some(m);
                            }
                        }
                        if let Some(m) = msg {
                            let ghost e = SErr::Text(ret_msg(s1.ret->0, t@));
                            self.push_error(m, Ghost(s1), Ghost(e));
                        }
                    },
                    None => {
                        let mut msg: Option<String> = None;
                        if let Some(expected) = &self.current_function_return_type {
                            let is_none = match expected {
                                Type::NoneType => true,
                                _ => false,
                            };
                            if !is_none {
                                let mut m = String::new();
                                m.append("Expected return value of type ");
                                write_type_dbg(expected, &mut m);
                                m.append(", got None");
                                assert(m@ =~= no_value_msg(expected@));
                                msg = Some(m);
                            }
                        }
                        if let Some(m) = msg {
                            let ghost e = SErr::Text(no_value_msg(st.ret->0));
                            self.push_error(m, Ghost(st), Ghost(e));
                        }
                    },
                }
            },
            Stmt::Expr(e) => {
                let _ = self.infer_expr(e, Ghost(st));
            },
            Stmt::ClassDef { name, body } => {
                self.ctx.set_type(name.clone(), Type::Class(name.clone()));
                let prev = self.current_class.clone();
                self.current_class = Some(name.clone());
                self.reset_class(name.clone());
                let ghost s1 = with_type(st, name@, SType::Class(name@));
                let ghost s2 = SChk { cur_class: Some(name@), attrs: s1.attrs.insert(name@, Map::empty()), ..s1 };
                self.check_stmts(body, Ghost(s2));
                self.current_class = prev;
            },
            Stmt::For { target, iter, body, orelse } => {
                let it = self.infer_expr(iter, Ghost(st));
                let ghost s1 = infer(env, st, *iter).0;
                proof {
                    lemma_view_tag(it);
                }
                let elem = match it {
                    Type::List(x) => *x,
                    Type::SetOf(x) => *x,
                    Type::Tuple(ts) => {
                        if ts.len() > 0 {
                            Type::union(ts)
                        } else {
                            assert(tviews(ts@).len() == 0);
                            self.fresh_var(Ghost(s1))
                        }
                    },
                    Type::Dict(k, _) => *k,
                    Type::Str => Type::Str,
                    _ => self.fresh_var(Ghost(s1)),
                };
                let ghost s2 = match iter_elem(infer(env, st, *iter).1) {
                    Some(t) => s1,
                    None => with_fresh(s1).0,
                };
                if let Expr::Name(id) = target {
                    self.ctx.set_type(id.clone(), elem);
                }
                let ghost s3 = match target {
                    Expr::Name(id) => with_type(s2, id@, match iter_elem(infer(env, st, *iter).1) {
                        Some(t) => t,
                        None => with_fresh(s1).1,
                    }),
                    _ => s2,
                };
                self.check_stmts(body, Ghost(s3));
                self.check_stmts(orelse, Ghost(check_stmts(env, s3, body@)));
            },
            Stmt::While { test, body, orelse } => {
                let _ = self.infer_expr(test, Ghost(st));
                let ghost s1 = infer(env, st, *test).0;
                self.check_stmts(body, Ghost(s1));
                self.check_stmts(orelse, Ghost(check_stmts(env, s1, body@)));
            },
            Stmt::If { test, body, orelse } => {
                let _ = self.infer_expr(test, Ghost(st));
                let ghost s1 = infer(env, st, *test).0;
                self.check_stmts(body, Ghost(s1));
                self.check_stmts(orelse, Ghost(check_stmts(env, s1, body@)));
            },
            _ => {},
        }
    }

    /// Checks statements in turn.
    fn check_stmts(&mut self, ss: &Vec<Stmt>, Ghost(st): Ghost<SChk>)
        requires
            old(self).wf(),
            old(self).matches(st),
        ensures
            final(self).wf(),
            final(self).env() == old(self).env(),
            final(self).matches(check_stmts(old(self).env(), st, ss@)),
        decreases ss, 0nat,
    {
        let ghost env = self.env();
        let ghost fin = check_stmts(env, st, ss@);
        let ghost mut cur = st;
        let mut i: usize = 0;
        assert(ss@.subrange(0, ss@.len() as int) =~= ss@);
        while i < ss.len()
            invariant
                self.wf(),
                0 <= i <= ss.len(),
                env == self.env(),
                self.matches(cur),
                fin == check_stmts(env, cur, ss@.subrange(i as int, ss@.len() as int)),
            decreases ss.len() - i,
        {
            let ghost sub = ss@.subrange(i as int, ss@.len() as int);
            assert(sub[0] == ss@[i as int]);
            assert(sub.subrange(1, sub.len() as int) =~= ss@.subrange(i + 1, ss@.len() as int));
            self.check_stmt(&ss[i], Ghost(cur));
            proof {
                cur = check_stmt(env, cur, ss@[i as int]);
            }
            i += 1;
        }
    }

    /// A checker with a fresh context, no errors, and analyzers that know nothing yet.
    pub fn new() -> (r: Self)
        ensures
            r.wf(),
            r.context().types == Map::<Seq<char>, SType>::empty(),
            r.context().classes == builtin_classes(),
            r.context().next_var == 0,
            r.errors_model() == Seq::<TypeError>::empty(),
            r.model().attrs == Map::<Seq<char>, Map<Seq<char>, SType>>::empty(),
            r.model().cur_class is None,
            r.model().ret is None,
            r.model().solver == (SolverState { pending: Seq::empty(), bounds: Map::empty(), errors: Seq::empty() }),
            r.function_effects() == Map::<Seq<char>, Seq<SEffect>>::empty(),
    {
        Self::with_context(TypeContext::new())
    }

    /// A checker working in the given context.
    pub fn with_context(ctx: TypeContext) -> (r: Self)
        ensures
            r.wf(),
            r.context() == ctx@,
            r.env().classes == ctx@.classes,
            r.model() == (SChk {
                types: ctx@.types,
                next: ctx@.next_var,
                errors: Seq::empty(),
                attrs: Map::empty(),
                cur_class: None,
                ret: None,
                solver: SolverState { pending: Seq::empty(), bounds: Map::empty(), errors: Seq::empty() },
            }),
            r.errors_model() == Seq::<TypeError>::empty(),
            r.model().attrs == Map::<Seq<char>, Map<Seq<char>, SType>>::empty(),
            r.model().cur_class is None,
            r.model().ret is None,
            r.model().solver == (SolverState { pending: Seq::empty(), bounds: Map::empty(), errors: Seq::empty() }),
            r.function_effects() == Map::<Seq<char>, Seq<SEffect>>::empty(),
    {
        let r = TypeChecker {
            ctx,
            errors: Vec::new(),
            advanced: AdvancedTypeAnalyzer::new(),
            effects: EffectAnalyzer::new(),
            refinements: RefinementAnalyzer::new(),
            constraints: ConstraintSolver::new(),
            variance: VarianceAnalyzer::new(),
            class_attributes: Vec::new(),
            current_class: None,
            current_function_return_type: None,
        };
        assert(r.class_attributes@.map_values(|p: (String, Vec<(String, Type)>)| (p.0@, attr_table(p.1@)))
            =~= Seq::empty());
        assert(class_tables(r.class_attributes@) =~= Map::<Seq<char>, Map<Seq<char>, SType>>::empty());
        assert(r.errors@.map_values(|e: TypeError| SErr::Text(e.message@)) =~= Seq::<SErr>::empty());
        r
    }

    /// Checks a module: analyzes the effects of its functions, checks its statements,
    /// then solves the constraints gathered; hands back the errors found, those of an
    /// earlier check dropped.
    pub fn check(&mut self, module: &Module) -> (r: Vec<TypeError>)
        requires
            old(self).wf(),
        ensures
            final(self).wf(),
            ({
                let env = Env {
                    classes: old(self).context().classes,
                    effects: analyze_all(old(self).function_effects(), old(self).context().types, module.body@),
                };
                let s1 = check_stmts(env, SChk { errors: Seq::empty(), ..old(self).model() }, module.body@);
                let fin = run(s1.solver, true, 0, None);
                let errs = check_errs(old(self).context().classes, old(self).function_effects(), old(self).model(), module.body@);
                &&& final(self).function_effects() == env.effects
                &&& final(self).context().classes == env.classes
                &&& final(self).matches(
                    SChk { errors: errs, solver: SolverState { pending: fin.pending, bounds: fin.bounds, errors: Seq::empty() }, ..s1 },
                )
                &&& errs_match(r@, errs)
            }),
    {
        self.errors.clear();
        let ghost st0 = SChk { errors: Seq::empty(), ..old(self).model() };
        assert(self.matches(st0)) by {
            assert(errs_match(self.errors@, Seq::empty()));
        }
        let _ = self.effects.analyze_module(&self.ctx, module);
        let ghost env = self.env();
        self.check_stmts(&module.body, Ghost(st0));
        let ghost s1 = check_stmts(env, st0, module.body@);
        let solved = self.constraints.solve();
        let ghost fin = run(s1.solver, true, 0, None);
        assert(self.constraints.state().errors =~= Seq::<SSolveError>::empty());
        let ghost s2 = SChk { solver: SolverState { pending: fin.pending, bounds: fin.bounds, errors: Seq::empty() }, ..s1 };
        if let Err(err) = solved {
            let mut msg = String::new();
            msg.append("Constraint solving failed: ");
            let d = crate::debug::type_errors_debug_text(&err);
            msg.append(d.as_str());
            assert(msg@ =~= "Constraint solving failed: "@ + crate::debug::errors_dbg(exact_errors(fin.errors)));
            self.push_error(msg, Ghost(s2), Ghost(SErr::Text("Constraint solving failed: "@ + crate::debug::errors_dbg(exact_errors(fin.errors)))));
        }
        let mut out: Vec<TypeError> = Vec::new();
        let mut i: usize = 0;
        while i < self.errors.len()
            invariant
                0 <= i <= self.errors.len(),
                out.len() == i,
                forall|j: int| 0 <= j < i ==> #[trigger] out@[j] == self.errors@[j],
            decreases self.errors.len() - i,
        {
            out.push(self.errors[i].clone());
            i += 1;
        }
        assert(out@ =~= self.errors@);
        out
    }

    /// Checks the last statement of a module and gives `None`, the type of a statement.
    pub fn infer(&mut self, module: &Module) -> (r: Type)
        requires
            old(self).wf(),
        ensures
            final(self).wf(),
            r@ == SType::NoneType,
            module.body.len() > 0 ==> final(self).matches(
                check_stmt(old(self).env(), old(self).model(), module.body@.last()),
            ),
            module.body.len() == 0 ==> *final(self) == *old(self),
    {
        if module.body.len() > 0 {
            let ghost st = self.model();
            proof {
                self.lemma_matches_model();
            }
            self.check_stmt(&module.body[module.body.len() - 1], Ghost(st));
        }
        Type::NoneType
    }

    /// The effects found for a function by the last check.
    pub fn get_function_effects(&self, name: &str) -> (r: Option<EffectSet>)
        requires
            self.wf(),
        ensures
            r matches Some(e) ==> self.function_effects().contains_key(name@) && e@ == self.function_effects()[name@],
            r is None ==> !self.function_effects().contains_key(name@),
    {
        match self.effects.get_function_effects(name) {
            Some(e) => Some(e.clone()),
            None => None,
        }
    }

    /// The type of a name in the checker's context.
    pub fn get_type(&self, name: &str) -> (r: Option<Type>)
        ensures
            r matches Some(t) ==> self.context().types.contains_key(name@) && t@ == self.context().types[name@],
            r is None ==> !self.context().types.contains_key(name@),
    {
        self.ctx.get_type(name)
    }

    /// Whether a recursive type is well-formed: its variable occurs under a constructor.
    pub fn check_recursive_type(&mut self, ty: &Type) -> (r: bool)
        ensures
            r == productive(ty@),
            *final(self) == *old(self),
    {
        self.advanced.is_productive(ty)
    }

    /// Whether a value satisfies the predicate of a refinement type; other types accept
    /// every value.
    pub fn validate_refinement(&self, value: &JsonValue, ty: &Type) -> (r: bool)
        requires
            ty@ matches SType::Refinement(_, p) ==> check_ok(*value, p),
        ensures
            r == (match ty@ {
                SType::Refinement(_, p) => holds(*value, p),
                _ => true,
            }),
    {
        match ty {
            Type::Refinement(_, pred) => self.refinements.validate(value, pred),
            _ => true,
        }
    }

    /// Registers a recursive type definition with the analyzer of advanced types.
    pub fn define_recursive(&mut self, name: String, body: Type) -> (r: Type)
        requires
            old(self).wf(),
        ensures
            final(self).wf(),
            (body@ matches SType::Recursive(n, _) && n == name@) ==> r@ == SType::Never,
            !(body@ matches SType::Recursive(n, _) && n == name@) ==> r@ == SType::Recursive(name@, Box::new(body@)),
            final(self).model() == old(self).model(),
    {
        self.advanced.define_recursive(name, body)
    }

    /// Checks an expression against an expected type bidirectionally: whether the type
    /// synthesized for it is a subtype of `expected`.
    pub fn bi_check(&mut self, expr: &Expr, expected: &Type) -> (r: bool)
        requires
            old(self).wf(),
        ensures
            final(self).wf(),
            final(self).matches(synth(old(self).env(), old(self).model(), *expr).0),
            r == subtype(synth(old(self).env(), old(self).model(), *expr).1, expected@),
    {
        let ghost st = self.model();
        proof {
            self.lemma_matches_model();
        }
        self.bi_check_expr(expr, expected, Ghost(st))
    }

    /// Adds a constraint for the solver.
    pub fn add_constraint(&mut self, constraint: Constraint)
        ensures
            final(self).model() == (SChk {
                solver: SolverState { pending: old(self).model().solver.pending.push(constraint@), ..old(self).model().solver },
                ..old(self).model()
            }),
            final(self).wf() == old(self).wf(),
    {
        self.constraints.add_constraint(constraint);
    }
}

/// Parameter types come one per parameter.
proof fn lemma_param_types_len(st: SChk, ps: Seq<Param>)
    ensures
        param_types(st, ps).1.len() == ps.len(),
    decreases ps.len(),
{
    if ps.len() > 0 {
        lemma_param_types_len(st, ps.drop_last());
    }
}

/// Inference of a list gives one type per expression.
proof fn lemma_infer_all_len(env: Env, st: SChk, es: Seq<Expr>)
    ensures
        infer_all(env, st, es).1.len() == es.len(),
    decreases es.len(),
{
    if es.len() > 0 {
        let (s1, _) = infer(env, st, es[0]);
        lemma_infer_all_len(env, s1, es.subrange(1, es.len() as int));
    }
}

/// The type a fresh checker infers for a module: the statement checks give no type, so
/// it is `None`.
pub fn infer_types(module: &Module) -> (r: Type)
    ensures
        r@ == SType::NoneType,
{
    let mut checker = TypeChecker::new();
    checker.infer(module)
}

} // verus!
