//! The debug notation of types: constructor names with their fields, as error messages
//! quote them.
use vstd::prelude::*;
use crate::types::{
    Effect, EffectSet, SEffect, effects_view, CompareOp, BinOp, PredicateExpr, SPredExpr,
    Predicate, SPredicate, preds_view, DependentConstraint, SDep, TypeKind, TypeParam, STypeParam,
    tparams_view, TypeCondition, SCond, Type, SType, tviews, lemma_tviews_index,
};
use crate::errors::{TypeError, STypeError, SErrorKind, ErrorKind, SourceLocation, errors_view, strings_view};
use crate::display::{
    join, lemma_join_push, decimal, signed_decimal, effect_str, kind_str, write_kind, write_effect,
    write_u64, write_i64, debug_text, debug_quoted,
};

verus! {

pub open spec fn compare_dbg(op: CompareOp) -> Seq<char> {
    match op {
        CompareOp::Eq => "Eq"@,
        CompareOp::Ne => "Ne"@,
        CompareOp::Lt => "Lt"@,
        CompareOp::Le => "Le"@,
        CompareOp::Gt => "Gt"@,
        CompareOp::Ge => "Ge"@,
    }
}

pub open spec fn binop_dbg(op: BinOp) -> Seq<char> {
    match op {
        BinOp::Add => "Add"@,
        BinOp::Sub => "Sub"@,
        BinOp::Mul => "Mul"@,
        BinOp::Div => "Div"@,
        BinOp::Mod => "Mod"@,
    }
}

pub open spec fn pexpr_dbg(e: SPredExpr) -> Seq<char>
    decreases e,
{
    match e {
        SPredExpr::Value => "Value"@,
        SPredExpr::Literal(n) => "Literal("@ + signed_decimal(n as int) + ")"@,
        SPredExpr::Property(s) => "Property("@ + debug_text(s) + ")"@,
        SPredExpr::BinOp(l, op, r) => "BinOp("@ + pexpr_dbg(*l) + ", "@ + binop_dbg(op) + ", "@
            + pexpr_dbg(*r) + ")"@,
    }
}

pub open spec fn pred_dbg(p: SPredicate) -> Seq<char>
    decreases p,
{
    match p {
        SPredicate::True => "True"@,
        SPredicate::Compare(op, l, r) => "Compare { op: "@ + compare_dbg(op) + ", left: "@ + pexpr_dbg(l)
            + ", right: "@ + pexpr_dbg(r) + " }"@,
        SPredicate::And(ps) => "And(["@ + join(preds_dbgs(ps), ", "@) + "])"@,
        SPredicate::Or(ps) => "Or(["@ + join(preds_dbgs(ps), ", "@) + "])"@,
        SPredicate::Not(b) => "Not("@ + pred_dbg(*b) + ")"@,
        SPredicate::Custom(s) => "Custom("@ + debug_text(s) + ")"@,
    }
}

pub open spec fn preds_dbgs(ps: Seq<SPredicate>) -> Seq<Seq<char>>
    decreases ps,
{
    Seq::new(ps.len(), |i: int| if 0 <= i < ps.len() { pred_dbg(ps[i]) } else { Seq::empty() })
}

pub open spec fn dep_dbg(c: SDep) -> Seq<char> {
    match c {
        SDep::Length(n) => "Length("@ + decimal(n as nat) + ")"@,
        SDep::LengthRange(a, b) => "LengthRange("@ + decimal(a as nat) + ", "@ + decimal(b as nat) + ")"@,
        SDep::ValueEq(s) => "ValueEq("@ + debug_text(s) + ")"@,
        SDep::Custom(s) => "Custom("@ + debug_text(s) + ")"@,
    }
}

pub open spec fn effects_dbg(es: Seq<SEffect>) -> Seq<char> {
    "EffectSet { effects: ["@ + join(es.map_values(|e: SEffect| effect_str(e)), ", "@) + "] }"@
}

pub open spec fn tparam_dbg(p: STypeParam) -> Seq<char> {
    "TypeParam { name: "@ + debug_text(p.name) + ", kind: "@ + kind_str(p.kind) + " }"@
}

/// The debug notation of a type.
pub open spec fn type_dbg(t: SType) -> Seq<char>
    decreases t,
{
    match t {
        SType::Any => "Any"@,
        SType::Never => "Never"@,
        SType::NoneType => "None"@,
        SType::Bool => "Bool"@,
        SType::Int => "Int"@,
        SType::Float => "Float"@,
        SType::Str => "Str"@,
        SType::Bytes => "Bytes"@,
        SType::List(b) => "List("@ + type_dbg(*b) + ")"@,
        SType::Tuple(ts) => "Tuple(["@ + join(types_dbgs(ts), ", "@) + "])"@,
        SType::Dict(k, v) => "Dict("@ + type_dbg(*k) + ", "@ + type_dbg(*v) + ")"@,
        SType::SetOf(b) => "Set("@ + type_dbg(*b) + ")"@,
        SType::Function(ps, r) => "Function(["@ + join(types_dbgs(ps), ", "@) + "], "@ + type_dbg(*r)
            + ")"@,
        SType::Union(ts) => "Union(["@ + join(types_dbgs(ts), ", "@) + "])"@,
        SType::Intersection(ts) => "Intersection(["@ + join(types_dbgs(ts), ", "@) + "])"@,
        SType::Generic(n, ts) => "Generic("@ + debug_text(n) + ", ["@ + join(types_dbgs(ts), ", "@)
            + "])"@,
        SType::Class(n) => "Class("@ + debug_text(n) + ")"@,
        SType::Var(id) => "Var("@ + decimal(id as nat) + ")"@,
        SType::Effect(b, e) => "Effect("@ + type_dbg(*b) + ", "@ + effects_dbg(e) + ")"@,
        SType::Refinement(b, p) => "Refinement("@ + type_dbg(*b) + ", "@ + pred_dbg(p) + ")"@,
        SType::Dependent(b, c) => "Dependent("@ + type_dbg(*b) + ", "@ + dep_dbg(c) + ")"@,
        SType::Nominal(n, b) => "Nominal("@ + debug_text(n) + ", "@ + type_dbg(*b) + ")"@,
        SType::Conditional(c, a, b) => "Conditional { condition: "@ + cond_dbg(*c) + ", then_type: "@
            + type_dbg(*a) + ", else_type: "@ + type_dbg(*b) + " }"@,
        SType::Recursive(n, b) => "Recursive("@ + debug_text(n) + ", "@ + type_dbg(*b) + ")"@,
        SType::HigherKinded(n, ps) => "HigherKinded("@ + debug_text(n) + ", ["@ + join(
            ps.map_values(|p: STypeParam| tparam_dbg(p)),
            ", "@,
        ) + "])"@,
    }
}

pub open spec fn types_dbgs(ts: Seq<SType>) -> Seq<Seq<char>>
    decreases ts,
{
    Seq::new(ts.len(), |i: int| if 0 <= i < ts.len() { type_dbg(ts[i]) } else { Seq::empty() })
}

pub open spec fn cond_dbg(c: SCond) -> Seq<char>
    decreases c,
{
    match c {
        SCond::Extends(a, b) => "Extends("@ + type_dbg(a) + ", "@ + type_dbg(b) + ")"@,
        SCond::Equal(a, b) => "Equal("@ + type_dbg(a) + ", "@ + type_dbg(b) + ")"@,
        SCond::HasProperty(a, p) => "HasProperty("@ + type_dbg(a) + ", "@ + debug_text(p) + ")"@,
        SCond::Custom(s) => "Custom("@ + debug_text(s) + ")"@,
    }
}

fn write_quoted(s: &String, out: &mut String)
    ensures
        final(out)@ == old(out)@ + debug_text(s@),
{
    let q = debug_quoted(s);
    out.append(q.as_str());
}

fn write_compare_dbg(op: CompareOp, out: &mut String)
    ensures
        final(out)@ == old(out)@ + compare_dbg(op),
{
    match op {
        CompareOp::Eq => out.append("Eq"),
        CompareOp::Ne => out.append("Ne"),
        CompareOp::Lt => out.append("Lt"),
        CompareOp::Le => out.append("Le"),
        CompareOp::Gt => out.append("Gt"),
        CompareOp::Ge => out.append("Ge"),
    }
}

fn write_binop_dbg(op: BinOp, out: &mut String)
    ensures
        final(out)@ == old(out)@ + binop_dbg(op),
{
    match op {
        BinOp::Add => out.append("Add"),
        BinOp::Sub => out.append("Sub"),
        BinOp::Mul => out.append("Mul"),
        BinOp::Div => out.append("Div"),
        BinOp::Mod => out.append("Mod"),
    }
}

fn write_pexpr_dbg(e: &PredicateExpr, out: &mut String)
    ensures
        final(out)@ == old(out)@ + pexpr_dbg(e@),
    decreases e,
{
    let ghost start = out@;
    match e {
        PredicateExpr::Value => out.append("Value"),
        PredicateExpr::Literal(n) => {
            out.append("Literal(");
            write_i64(out, *n);
            out.append(")");
            assert(out@ =~= start + pexpr_dbg(e@));
        },
        PredicateExpr::Property(s) => {
            out.append("Property(");
            write_quoted(s, out);
            out.append(")");
            assert(out@ =~= start + pexpr_dbg(e@));
        },
        PredicateExpr::BinOp(l, op, r) => {
            out.append("BinOp(");
            write_pexpr_dbg(l, out);
            out.append(", ");
            write_binop_dbg(*op, out);
            out.append(", ");
            write_pexpr_dbg(r, out);
            out.append(")");
            assert(out@ =~= start + pexpr_dbg(e@));
        },
    }
}

fn write_pred_dbg(p: &Predicate, out: &mut String)
    ensures
        final(out)@ == old(out)@ + pred_dbg(p@),
    decreases p,
{
    let ghost start = out@;
    match p {
        Predicate::True => out.append("True"),
        Predicate::Compare { op, left, right } => {
            out.append("Compare { op: ");
            write_compare_dbg(*op, out);
            out.append(", left: ");
            write_pexpr_dbg(left, out);
            out.append(", right: ");
            write_pexpr_dbg(right, out);
            out.append(" }");
            assert(out@ =~= start + pred_dbg(p@));
        },
        Predicate::And(ps) => {
            out.append("And([");
            write_preds_dbg(ps, out);
            out.append("])");
            assert(out@ =~= start + pred_dbg(p@));
        },
        Predicate::Or(ps) => {
            out.append("Or([");
            write_preds_dbg(ps, out);
            out.append("])");
            assert(out@ =~= start + pred_dbg(p@));
        },
        Predicate::Not(b) => {
            out.append("Not(");
            write_pred_dbg(b, out);
            out.append(")");
            assert(out@ =~= start + pred_dbg(p@));
        },
        Predicate::Custom(s) => {
            out.append("Custom(");
            write_quoted(s, out);
            out.append(")");
            assert(out@ =~= start + pred_dbg(p@));
        },
    }
}

fn write_preds_dbg(ps: &Vec<Predicate>, out: &mut String)
    ensures
        final(out)@ == old(out)@ + join(preds_dbgs(preds_view(ps@)), ", "@),
    decreases ps,
{
    let ghost start = out@;
    let ghost parts = preds_dbgs(preds_view(ps@));
    let mut i: usize = 0;
    while i < ps.len()
        invariant
            0 <= i <= ps.len(),
            parts == preds_dbgs(preds_view(ps@)),
            parts.len() == ps.len(),
            out@ == start + join(parts.take(i as int), ", "@),
        decreases ps.len() - i,
    {
        proof {
            lemma_join_push(parts.take(i as int), ", "@, parts[i as int]);
            assert(parts.take(i as int).push(parts[i as int]) =~= parts.take(i + 1));
            assert(preds_view(ps@)[i as int] == ps@[i as int]@);
        }
        assert(decreases_to!(ps => ps@[i as int]));
        if i > 0 {
            out.append(", ");
        }
        write_pred_dbg(&ps[i], out);
        i += 1;
    }
    assert(parts.take(ps.len() as int) =~= parts);
}

fn write_dep_dbg(c: &DependentConstraint, out: &mut String)
    ensures
        final(out)@ == old(out)@ + dep_dbg(c@),
{
    let ghost start = out@;
    match c {
        DependentConstraint::Length(n) => {
            out.append("Length(");
            write_u64(out, *n as u64);
            out.append(")");
        },
        DependentConstraint::LengthRange(a, b) => {
            out.append("LengthRange(");
            write_u64(out, *a as u64);
            out.append(", ");
            write_u64(out, *b as u64);
            out.append(")");
        },
        DependentConstraint::ValueEq(s) => {
            out.append("ValueEq(");
            write_quoted(s, out);
            out.append(")");
        },
        DependentConstraint::Custom(s) => {
            out.append("Custom(");
            write_quoted(s, out);
            out.append(")");
        },
    }
    assert(out@ =~= start + dep_dbg(c@));
}

pub(crate) fn write_effects_dbg(es: &EffectSet, out: &mut String)
    ensures
        final(out)@ == old(out)@ + effects_dbg(es@),
{
    let ghost start = out@;
    let ghost parts = es@.map_values(|e: SEffect| effect_str(e));
    out.append("EffectSet { effects: [");
    let mut i: usize = 0;
    while i < es.effects.len()
        invariant
            0 <= i <= es.effects.len(),
            parts == es@.map_values(|e: SEffect| effect_str(e)),
            out@ == start + "EffectSet { effects: ["@ + join(parts.take(i as int), ", "@),
        decreases es.effects.len() - i,
    {
        proof {
            lemma_join_push(parts.take(i as int), ", "@, parts[i as int]);
            assert(parts.take(i as int).push(parts[i as int]) =~= parts.take(i + 1));
            assert(parts[i as int] == effect_str(es.effects@[i as int]@));
        }
        if i > 0 {
            out.append(", ");
        }
        write_effect(&es.effects[i], out);
        i += 1;
    }
    assert(parts.take(es.effects.len() as int) =~= parts);
    out.append("] }");
    assert(out@ =~= start + effects_dbg(es@));
}

fn write_tparams_dbg(ps: &Vec<TypeParam>, out: &mut String)
    ensures
        final(out)@ == old(out)@ + join(tparams_view(ps@).map_values(|p: STypeParam| tparam_dbg(p)), ", "@),
{
    let ghost start = out@;
    let ghost parts = tparams_view(ps@).map_values(|p: STypeParam| tparam_dbg(p));
    let mut i: usize = 0;
    while i < ps.len()
        invariant
            0 <= i <= ps.len(),
            parts == tparams_view(ps@).map_values(|p: STypeParam| tparam_dbg(p)),
            out@ == start + join(parts.take(i as int), ", "@),
        decreases ps.len() - i,
    {
        proof {
            lemma_join_push(parts.take(i as int), ", "@, parts[i as int]);
            assert(parts.take(i as int).push(parts[i as int]) =~= parts.take(i + 1));
        }
        if i > 0 {
            out.append(", ");
        }
        let ghost before = out@;
        out.append("TypeParam { name: ");
        write_quoted(&ps[i].name, out);
        out.append(", kind: ");
        write_kind(&ps[i].kind, out);
        out.append(" }");
        assert(out@ =~= before + parts[i as int]);
        i += 1;
    }
    assert(parts.take(ps.len() as int) =~= parts);
}

fn write_types_dbg(ts: &Vec<Type>, out: &mut String)
    ensures
        final(out)@ == old(out)@ + join(types_dbgs(tviews(ts@)), ", "@),
    decreases ts,
{
    let ghost start = out@;
    let ghost parts = types_dbgs(tviews(ts@));
    let mut i: usize = 0;
    while i < ts.len()
        invariant
            0 <= i <= ts.len(),
            parts == types_dbgs(tviews(ts@)),
            parts.len() == ts.len(),
            out@ == start + join(parts.take(i as int), ", "@),
        decreases ts.len() - i,
    {
        proof {
            lemma_join_push(parts.take(i as int), ", "@, parts[i as int]);
            assert(parts.take(i as int).push(parts[i as int]) =~= parts.take(i + 1));
            lemma_tviews_index(ts@, i as int);
        }
        assert(decreases_to!(ts => ts@[i as int]));
        if i > 0 {
            out.append(", ");
        }
        write_type_dbg(&ts[i], out);
        i += 1;
    }
    assert(parts.take(ts.len() as int) =~= parts);
}

fn write_cond_dbg(c: &TypeCondition, out: &mut String)
    ensures
        final(out)@ == old(out)@ + cond_dbg(c@),
    decreases c,
{
    let ghost start = out@;
    match c {
        TypeCondition::Extends(a, b) => {
            out.append("Extends(");
            write_type_dbg(a, out);
            out.append(", ");
            write_type_dbg(b, out);
            out.append(")");
        },
        TypeCondition::Equal(a, b) => {
            out.append("Equal(");
            write_type_dbg(a, out);
            out.append(", ");
            write_type_dbg(b, out);
            out.append(")");
        },
        TypeCondition::HasProperty(a, p) => {
            out.append("HasProperty(");
            write_type_dbg(a, out);
            out.append(", ");
            write_quoted(p, out);
            out.append(")");
        },
        TypeCondition::Custom(s) => {
            out.append("Custom(");
            write_quoted(s, out);
            out.append(")");
        },
    }
    assert(out@ =~= start + cond_dbg(c@));
}

/// Appends the debug notation of a type.
#[verifier::rlimit(100)]
#[verifier::spinoff_prover]
pub fn write_type_dbg(t: &Type, out: &mut String)
    ensures
        final(out)@ == old(out)@ + type_dbg(t@),
    decreases t,
{
    let ghost start = out@;
    match t {
        Type::Any => out.append("Any"),
        Type::Never => out.append("Never"),
        Type::NoneType => out.append("None"),
        Type::Bool => out.append("Bool"),
        Type::Int => out.append("Int"),
        Type::Float => out.append("Float"),
        Type::Str => out.append("Str"),
        Type::Bytes => out.append("Bytes"),
        Type::List(b) => {
            out.append("List(");
            write_type_dbg(b, out);
            out.append(")");
        },
        Type::Tuple(ts) => {
            out.append("Tuple([");
            write_types_dbg(ts, out);
            out.append("])");
        },
        Type::Dict(k, v) => {
            out.append("Dict(");
            write_type_dbg(k, out);
            out.append(", ");
            write_type_dbg(v, out);
            out.append(")");
        },
        Type::SetOf(b) => {
            out.append("Set(");
            write_type_dbg(b, out);
            out.append(")");
        },
        Type::Function(ps, r) => {
            out.append("Function([");
            write_types_dbg(ps, out);
            out.append("], ");
            write_type_dbg(r, out);
            out.append(")");
        },
        Type::Union(ts) => {
            out.append("Union([");
            write_types_dbg(ts, out);
            out.append("])");
        },
        Type::Intersection(ts) => {
            out.append("Intersection([");
            write_types_dbg(ts, out);
            out.append("])");
        },
        Type::Generic(n, ts) => {
            out.append("Generic(");
            write_quoted(n, out);
            out.append(", [");
            write_types_dbg(ts, out);
            out.append("])");
        },
        Type::Class(n) => {
            out.append("Class(");
            write_quoted(n, out);
            out.append(")");
        },
        Type::Var(id) => {
            out.append("Var(");
            write_u64(out, *id);
            out.append(")");
        },
        Type::Effect(b, e) => {
            out.append("Effect(");
            write_type_dbg(b, out);
            out.append(", ");
            write_effects_dbg(e, out);
            out.append(")");
        },
        Type::Refinement(b, p) => {
            out.append("Refinement(");
            write_type_dbg(b, out);
            out.append(", ");
            write_pred_dbg(p, out);
            out.append(")");
        },
        Type::Dependent(b, c) => {
            out.append("Dependent(");
            write_type_dbg(b, out);
            out.append(", ");
            write_dep_dbg(c, out);
            out.append(")");
        },
        Type::Nominal(n, b) => {
            out.append("Nominal(");
            write_quoted(n, out);
            out.append(", ");
            write_type_dbg(b, out);
            out.append(")");
        },
        Type::Conditional { condition, then_type, else_type } => {
            out.append("Conditional { condition: ");
            write_cond_dbg(condition, out);
            out.append(", then_type: ");
            write_type_dbg(then_type, out);
            out.append(", else_type: ");
            write_type_dbg(else_type, out);
            out.append(" }");
        },
        Type::Recursive(n, b) => {
            out.append("Recursive(");
            write_quoted(n, out);
            out.append(", ");
            write_type_dbg(b, out);
            out.append(")");
        },
        Type::HigherKinded(n, ps) => {
            out.append("HigherKinded(");
            write_quoted(n, out);
            out.append(", [");
            write_tparams_dbg(ps, out);
            out.append("])");
        },
    }
    assert(out@ =~= start + type_dbg(t@));
}

/// The debug notation of a type.
pub fn type_debug_text(t: &Type) -> (r: String)
    ensures
        r@ == type_dbg(t@),
{
    let mut s = String::new();
    write_type_dbg(t, &mut s);
    assert(s@ =~= type_dbg(t@));
    s
}

/// The debug notation of a list of strings.
pub open spec fn strings_dbg(v: Seq<Seq<char>>) -> Seq<char> {
    "["@ + join(v.map_values(|x: Seq<char>| debug_text(x)), ", "@) + "]"@
}

/// The debug notation of a source location.
pub open spec fn location_dbg(l: SourceLocation) -> Seq<char> {
    "SourceLocation { line: "@ + decimal(l.line as nat) + ", col: "@ + decimal(l.col as nat)
        + ", end_line: "@ + decimal(l.end_line as nat) + ", end_col: "@ + decimal(l.end_col as nat)
        + " }"@
}

/// The debug notation of an error kind.
pub open spec fn kind_dbg(k: SErrorKind) -> Seq<char> {
    match k {
        SErrorKind::TypeMismatch(e, f) => "TypeMismatch { expected: "@ + debug_text(e) + ", found: "@
            + debug_text(f) + " }"@,
        SErrorKind::UndefinedVariable(n) => "UndefinedVariable { name: "@ + debug_text(n) + " }"@,
        SErrorKind::UndefinedFunction(n) => "UndefinedFunction { name: "@ + debug_text(n) + " }"@,
        SErrorKind::InvalidArgCount(e, f) => "InvalidArgCount { expected: "@ + decimal(e as nat)
            + ", found: "@ + decimal(f as nat) + " }"@,
        SErrorKind::InvalidArgType(p, e, f) => "InvalidArgType { param: "@ + debug_text(p)
            + ", expected: "@ + debug_text(e) + ", found: "@ + debug_text(f) + " }"@,
        SErrorKind::InvalidReturnType(e, f) => "InvalidReturnType { expected: "@ + debug_text(e)
            + ", found: "@ + debug_text(f) + " }"@,
        SErrorKind::NonCallable(t) => "NonCallable { ty: "@ + debug_text(t) + " }"@,
        SErrorKind::InvalidSubscript(c, k) => "InvalidSubscript { container: "@ + debug_text(c)
            + ", key: "@ + debug_text(k) + " }"@,
        SErrorKind::InvalidAttribute(t, a) => "InvalidAttribute { ty: "@ + debug_text(t) + ", attr: "@
            + debug_text(a) + " }"@,
        SErrorKind::CircularDependency(c) => "CircularDependency { chain: "@ + strings_dbg(c) + " }"@,
        SErrorKind::ConstraintViolation(c, v) => "ConstraintViolation { constraint: "@ + debug_text(c)
            + ", value: "@ + debug_text(v) + " }"@,
        SErrorKind::VarianceError(c) => "VarianceError { context: "@ + debug_text(c) + " }"@,
        SErrorKind::InfiniteType(v, t) => "InfiniteType { var: "@ + debug_text(v) + ", ty: "@
            + debug_text(t) + " }"@,
    }
}

/// The debug notation of a type error.
pub open spec fn error_dbg(e: STypeError) -> Seq<char> {
    "TypeError { kind: "@ + kind_dbg(e.kind) + ", location: "@ + location_dbg(e.location) + ", file: "@
        + debug_text(e.file) + ", suggestions: "@ + strings_dbg(e.suggestions) + " }"@
}

/// The debug notation of a list of type errors.
pub open spec fn errors_dbg(es: Seq<STypeError>) -> Seq<char> {
    "["@ + join(es.map_values(|e: STypeError| error_dbg(e)), ", "@) + "]"@
}

fn write_usize(out: &mut String, n: usize)
    ensures
        final(out)@ == old(out)@ + decimal(n as nat),
{
    write_u64(out, n as u64);
}

/// Appends the debug notation of a list of strings.
pub(crate) fn write_strings_dbg(v: &Vec<String>, out: &mut String)
    ensures
        final(out)@ == old(out)@ + strings_dbg(strings_view(v@)),
{
    let ghost start = out@;
    let ghost parts = strings_view(v@).map_values(|x: Seq<char>| debug_text(x));
    out.append("[");
    let mut i: usize = 0;
    while i < v.len()
        invariant
            0 <= i <= v.len(),
            parts == strings_view(v@).map_values(|x: Seq<char>| debug_text(x)),
            parts.len() == v.len(),
            out@ == start + "["@ + join(parts.take(i as int), ", "@),
        decreases v.len() - i,
    {
        proof {
            lemma_join_push(parts.take(i as int), ", "@, parts[i as int]);
            assert(parts.take(i as int).push(parts[i as int]) =~= parts.take(i + 1));
        }
        if i > 0 {
            out.append(", ");
        }
        let q = debug_quoted(&v[i]);
        out.append(q.as_str());
        i += 1;
    }
    assert(parts.take(v.len() as int) =~= parts);
    out.append("]");
}

fn write_location_dbg(l: &SourceLocation, out: &mut String)
    ensures
        final(out)@ == old(out)@ + location_dbg(*l),
{
    let ghost start = out@;
    out.append("SourceLocation { line: ");
    write_usize(out, l.line);
    out.append(", col: ");
    write_usize(out, l.col);
    out.append(", end_line: ");
    write_usize(out, l.end_line);
    out.append(", end_col: ");
    write_usize(out, l.end_col);
    out.append(" }");
    assert(out@ =~= start + location_dbg(*l));
}

fn write_kind_dbg(k: &ErrorKind, out: &mut String)
    ensures
        final(out)@ == old(out)@ + kind_dbg(k@),
{
    let ghost start = out@;
    match k {
        ErrorKind::TypeMismatch { expected, found } => {
            out.append("TypeMismatch { expected: ");
            write_quoted(expected, out);
            out.append(", found: ");
            write_quoted(found, out);
        },
        ErrorKind::UndefinedVariable { name } => {
            out.append("UndefinedVariable { name: ");
            write_quoted(name, out);
        },
        ErrorKind::UndefinedFunction { name } => {
            out.append("UndefinedFunction { name: ");
            write_quoted(name, out);
        },
        ErrorKind::InvalidArgCount { expected, found } => {
            out.append("InvalidArgCount { expected: ");
            write_usize(out, *expected);
            out.append(", found: ");
            write_usize(out, *found);
        },
        ErrorKind::InvalidArgType { param, expected, found } => {
            out.append("InvalidArgType { param: ");
            write_quoted(param, out);
            out.append(", expected: ");
            write_quoted(expected, out);
            out.append(", found: ");
            write_quoted(found, out);
        },
        ErrorKind::InvalidReturnType { expected, found } => {
            out.append("InvalidReturnType { expected: ");
            write_quoted(expected, out);
            out.append(", found: ");
            write_quoted(found, out);
        },
        ErrorKind::NonCallable { ty } => {
            out.append("NonCallable { ty: ");
            write_quoted(ty, out);
        },
        ErrorKind::InvalidSubscript { container, key } => {
            out.append("InvalidSubscript { container: ");
            write_quoted(container, out);
            out.append(", key: ");
            write_quoted(key, out);
        },
        ErrorKind::InvalidAttribute { ty, attr } => {
            out.append("InvalidAttribute { ty: ");
            write_quoted(ty, out);
            out.append(", attr: ");
            write_quoted(attr, out);
        },
        ErrorKind::CircularDependency { chain } => {
            out.append("CircularDependency { chain: ");
            write_strings_dbg(chain, out);
        },
        ErrorKind::ConstraintViolation { constraint, value } => {
            out.append("ConstraintViolation { constraint: ");
            write_quoted(constraint, out);
            out.append(", value: ");
            write_quoted(value, out);
        },
        ErrorKind::VarianceError { context } => {
            out.append("VarianceError { context: ");
            write_quoted(context, out);
        },
        ErrorKind::InfiniteType { var, ty } => {
            out.append("InfiniteType { var: ");
            write_quoted(var, out);
            out.append(", ty: ");
            write_quoted(ty, out);
        },
    }
    out.append(" }");
    assert(out@ =~= start + kind_dbg(k@));
}

fn write_error_dbg(e: &TypeError, out: &mut String)
    ensures
        final(out)@ == old(out)@ + error_dbg(e@),
{
    let ghost start = out@;
    out.append("TypeError { kind: ");
    write_kind_dbg(&e.kind, out);
    out.append(", location: ");
    write_location_dbg(&e.location, out);
    out.append(", file: ");
    write_quoted(&e.file, out);
    out.append(", suggestions: ");
    write_strings_dbg(&e.suggestions, out);
    out.append(" }");
    assert(out@ =~= start + error_dbg(e@));
}

/// The debug notation of a list of type errors.
pub fn type_errors_debug_text(es: &Vec<TypeError>) -> (r: String)
    ensures
        r@ == errors_dbg(errors_view(es@)),
{
    let ghost parts = errors_view(es@).map_values(|e: STypeError| error_dbg(e));
    let mut out = String::from_str("[");
    let mut i: usize = 0;
    while i < es.len()
        invariant
            0 <= i <= es.len(),
            parts == errors_view(es@).map_values(|e: STypeError| error_dbg(e)),
            parts.len() == es.len(),
            out@ == "["@ + join(parts.take(i as int), ", "@),
        decreases es.len() - i,
    {
        proof {
            lemma_join_push(parts.take(i as int), ", "@, parts[i as int]);
            assert(parts.take(i as int).push(parts[i as int]) =~= parts.take(i + 1));
        }
        if i > 0 {
            out.append(", ");
        }
        write_error_dbg(&es[i], &mut out);
        i += 1;
    }
    assert(parts.take(es.len() as int) =~= parts);
    out.append("]");
    out
}

} // verus!
