//! Text rendering of types, effects and predicates.
use vstd::prelude::*;
use crate::types::{
    Effect, EffectSet, SEffect, effects_view, CompareOp, BinOp, PredicateExpr, SPredExpr,
    Predicate, SPredicate, preds_view, DependentConstraint, SDep, TypeKind, TypeParam, STypeParam,
    tparams_view, TypeCondition, SCond, Type, SType, tviews, lemma_tviews_index,
};
use crate::ops::effects_pure;

verus! {

/// The text of a string in Rust's debug notation.
pub uninterp spec fn debug_text(s: Seq<char>) -> Seq<char>;

/// Renders a string in debug notation (quoted, with escapes) through `format!("{:?}")`.
#[verifier::external_body]
pub(crate) fn debug_quoted(s: &String) -> (r: String)
    ensures
        r@ == debug_text(s@),
{
    format!("{:?}", s)
}

/// Appends one character through `String::push`.
#[verifier::external_body]
pub fn push_char(out: &mut String, c: char)
    ensures
        final(out)@ == old(out)@.push(c),
{
    out.push(c)
}

/// Parts joined by a separator.
pub open spec fn join(parts: Seq<Seq<char>>, sep: Seq<char>) -> Seq<char>
    decreases parts.len(),
{
    if parts.len() == 0 {
        Seq::empty()
    } else if parts.len() == 1 {
        parts[0]
    } else {
        join(parts.drop_last(), sep) + sep + parts.last()
    }
}

pub proof fn lemma_join_push(parts: Seq<Seq<char>>, sep: Seq<char>, x: Seq<char>)
    ensures
        join(parts.push(x), sep) == if parts.len() == 0 {
            x
        } else {
            join(parts, sep) + sep + x
        },
{
    assert(parts.push(x).drop_last() =~= parts);
}

/// The character of a decimal digit.
pub open spec fn digit_char(d: nat) -> char {
    if d == 0 {
        '0'
    } else if d == 1 {
        '1'
    } else if d == 2 {
        '2'
    } else if d == 3 {
        '3'
    } else if d == 4 {
        '4'
    } else if d == 5 {
        '5'
    } else if d == 6 {
        '6'
    } else if d == 7 {
        '7'
    } else if d == 8 {
        '8'
    } else {
        '9'
    }
}

/// Decimal notation of a natural number.
pub open spec fn decimal(n: nat) -> Seq<char>
    decreases n,
{
    if n < 10 {
        seq![digit_char(n)]
    } else {
        decimal(n / 10).push(digit_char(n % 10))
    }
}

/// Decimal notation of an integer, with a leading minus sign when negative.
pub open spec fn signed_decimal(n: int) -> Seq<char> {
    if n < 0 {
        seq!['-'] + decimal((-n) as nat)
    } else {
        decimal(n as nat)
    }
}

fn push_digit(out: &mut String, d: u64)
    requires
        d < 10,
    ensures
        final(out)@ == old(out)@.push(digit_char(d as nat)),
{
    let c = if d == 0 {
        '0'
    } else if d == 1 {
        '1'
    } else if d == 2 {
        '2'
    } else if d == 3 {
        '3'
    } else if d == 4 {
        '4'
    } else if d == 5 {
        '5'
    } else if d == 6 {
        '6'
    } else if d == 7 {
        '7'
    } else if d == 8 {
        '8'
    } else {
        '9'
    };
    push_char(out, c);
}

/// Appends the decimal notation of `n`.
pub fn write_u64(out: &mut String, n: u64)
    ensures
        final(out)@ == old(out)@ + decimal(n as nat),
    decreases n,
{
    if n < 10 {
        push_digit(out, n);
    } else {
        write_u64(out, n / 10);
        push_digit(out, n % 10);
    }
}

/// Appends the decimal notation of `n`, signed.
pub fn write_i64(out: &mut String, n: i64)
    ensures
        final(out)@ == old(out)@ + signed_decimal(n as int),
{
    if n < 0 {
        push_char(out, '-');
        let m: u64 = if n == i64::MIN {
            9223372036854775808u64
        } else {
            (-n) as u64
        };
        write_u64(out, m);
        assert(old(out)@ + signed_decimal(n as int) =~= old(out)@.push('-') + decimal(m as nat));
    } else {
        write_u64(out, n as u64);
    }
}

/// The decimal notation of a `u64`.
pub fn u64_text(n: u64) -> (r: String)
    ensures
        r@ == decimal(n as nat),
{
    let mut s = String::new();
    write_u64(&mut s, n);
    assert(s@ =~= decimal(n as nat));
    s
}

/// The decimal notation of a `usize`.
pub fn usize_text(n: usize) -> (r: String)
    ensures
        r@ == decimal(n as nat),
{
    u64_text(n as u64)
}

/// Debug notation of an effect.
pub open spec fn effect_str(e: SEffect) -> Seq<char> {
    match e {
        SEffect::Pure => "Pure"@,
        SEffect::IO => "IO"@,
        SEffect::Network => "Network"@,
        SEffect::Mutation => "Mutation"@,
        SEffect::Exception => "Exception"@,
        SEffect::Async => "Async"@,
        SEffect::Random => "Random"@,
        SEffect::Time => "Time"@,
        SEffect::Custom(s) => "Custom("@ + debug_text(s) + ")"@,
    }
}

/// Text of an effect set: its effects in braces.
pub open spec fn effects_str(s: Seq<SEffect>) -> Seq<char> {
    "{"@ + join(s.map_values(|e: SEffect| effect_str(e)), ", "@) + "}"@
}

pub open spec fn compare_op_str(op: CompareOp) -> Seq<char> {
    match op {
        CompareOp::Eq => "=="@,
        CompareOp::Ne => "!="@,
        CompareOp::Lt => "<"@,
        CompareOp::Le => "<="@,
        CompareOp::Gt => ">"@,
        CompareOp::Ge => ">="@,
    }
}

pub open spec fn bin_op_str(op: BinOp) -> Seq<char> {
    match op {
        BinOp::Add => "+"@,
        BinOp::Sub => "-"@,
        BinOp::Mul => "*"@,
        BinOp::Div => "/"@,
        BinOp::Mod => "%"@,
    }
}

pub open spec fn pexpr_str(e: SPredExpr) -> Seq<char>
    decreases e,
{
    match e {
        SPredExpr::Value => "value"@,
        SPredExpr::Literal(n) => signed_decimal(n as int),
        SPredExpr::Property(p) => p,
        SPredExpr::BinOp(l, op, r) => "("@ + pexpr_str(*l) + " "@ + bin_op_str(op) + " "@
            + pexpr_str(*r) + ")"@,
    }
}

pub open spec fn pred_str(p: SPredicate) -> Seq<char>
    decreases p,
{
    match p {
        SPredicate::True => "true"@,
        SPredicate::Compare(op, l, r) => pexpr_str(l) + " "@ + compare_op_str(op) + " "@
            + pexpr_str(r),
        SPredicate::And(ps) => "("@ + join(preds_strs(ps), " && "@) + ")"@,
        SPredicate::Or(ps) => "("@ + join(preds_strs(ps), " || "@) + ")"@,
        SPredicate::Not(b) => "!"@ + pred_str(*b),
        SPredicate::Custom(s) => s,
    }
}

pub open spec fn preds_strs(ps: Seq<SPredicate>) -> Seq<Seq<char>>
    decreases ps,
{
    Seq::new(
        ps.len(),
        |i: int|
            if 0 <= i < ps.len() {
                pred_str(ps[i])
            } else {
                Seq::empty()
            },
    )
}

pub open spec fn dep_str(c: SDep) -> Seq<char> {
    match c {
        SDep::Length(n) => "len="@ + decimal(n as nat),
        SDep::LengthRange(a, b) => decimal(a as nat) + "<=len<="@ + decimal(b as nat),
        SDep::ValueEq(e) => "value="@ + e,
        SDep::Custom(s) => s,
    }
}

/// Text of a type.
pub open spec fn type_str(t: SType) -> Seq<char>
    decreases t,
{
    match t {
        SType::Any => "Any"@,
        SType::Never => "Never"@,
        SType::NoneType => "None"@,
        SType::Bool => "bool"@,
        SType::Int => "int"@,
        SType::Float => "float"@,
        SType::Str => "str"@,
        SType::Bytes => "bytes"@,
        SType::List(b) => "list["@ + type_str(*b) + "]"@,
        SType::Tuple(ts) => "("@ + join(types_strs(ts), ", "@) + ")"@,
        SType::Dict(k, v) => "dict["@ + type_str(*k) + ", "@ + type_str(*v) + "]"@,
        SType::SetOf(b) => "set["@ + type_str(*b) + "]"@,
        SType::Function(ps, r) => "("@ + join(types_strs(ps), ", "@) + ") -> "@ + type_str(*r),
        SType::Union(ts) => join(types_strs(ts), " | "@),
        SType::Intersection(ts) => join(types_strs(ts), " & "@),
        SType::Generic(n, ts) => if ts.len() == 0 {
            n
        } else {
            n + "["@ + join(types_strs(ts), ", "@) + "]"@
        },
        SType::Class(n) => n,
        SType::Var(id) => "T"@ + decimal(id as nat),
        SType::Effect(b, e) => if effects_pure(e) {
            type_str(*b)
        } else {
            type_str(*b) + " ! "@ + effects_str(e)
        },
        SType::Refinement(b, p) => type_str(*b) + "["@ + pred_str(p) + "]"@,
        SType::Dependent(b, c) => type_str(*b) + "["@ + dep_str(c) + "]"@,
        SType::Nominal(n, _) => n,
        SType::Conditional(c, a, b) => cond_str(*c) + " ? "@ + type_str(*a) + " : "@ + type_str(
            *b,
        ),
        SType::Recursive(n, b) => "rec "@ + n + ". "@ + type_str(*b),
        SType::HigherKinded(n, ps) => n + "["@ + join(
            ps.map_values(|p: STypeParam| p.name),
            ", "@,
        ) + "]"@,
    }
}

pub open spec fn types_strs(ts: Seq<SType>) -> Seq<Seq<char>>
    decreases ts,
{
    Seq::new(
        ts.len(),
        |i: int|
            if 0 <= i < ts.len() {
                type_str(ts[i])
            } else {
                Seq::empty()
            },
    )
}

pub open spec fn cond_str(c: SCond) -> Seq<char>
    decreases c,
{
    match c {
        SCond::Extends(a, b) => type_str(a) + " extends "@ + type_str(b),
        SCond::Equal(a, b) => type_str(a) + " == "@ + type_str(b),
        SCond::HasProperty(a, p) => type_str(a) + "."@ + p,
        SCond::Custom(s) => s,
    }
}

/// Debug notation of a kind.
pub open spec fn kind_str(k: TypeKind) -> Seq<char>
    decreases k,
{
    match k {
        TypeKind::Star => "Star"@,
        TypeKind::Arrow(a, b) => "Arrow("@ + kind_str(*a) + ", "@ + kind_str(*b) + ")"@,
    }
}

/// Appends the debug notation of a kind.
pub fn write_kind(k: &TypeKind, out: &mut String)
    ensures
        final(out)@ == old(out)@ + kind_str(*k),
    decreases k,
{
    match k {
        TypeKind::Star => out.append("Star"),
        TypeKind::Arrow(a, b) => {
            out.append("Arrow(");
            write_kind(a, out);
            out.append(", ");
            write_kind(b, out);
            out.append(")");
        },
    }
}

pub(crate) fn write_effect(e: &Effect, out: &mut String)
    ensures
        final(out)@ == old(out)@ + effect_str(e@),
{
    match e {
        Effect::Pure => out.append("Pure"),
        Effect::IO => out.append("IO"),
        Effect::Network => out.append("Network"),
        Effect::Mutation => out.append("Mutation"),
        Effect::Exception => out.append("Exception"),
        Effect::Async => out.append("Async"),
        Effect::Random => out.append("Random"),
        Effect::Time => out.append("Time"),
        Effect::Custom(s) => {
            out.append("Custom(");
            let q = debug_quoted(s);
            out.append(q.as_str());
            out.append(")");
        },
    }
}

fn write_effects(es: &EffectSet, out: &mut String)
    ensures
        final(out)@ == old(out)@ + effects_str(es@),
{
    let ghost start = out@;
    let ghost parts = es@.map_values(|e: SEffect| effect_str(e));
    out.append("{");
    let mut i: usize = 0;
    while i < es.effects.len()
        invariant
            0 <= i <= es.effects.len(),
            parts == es@.map_values(|e: SEffect| effect_str(e)),
            out@ == start + "{"@ + join(parts.take(i as int), ", "@),
        decreases es.effects.len() - i,
    {
        proof {
            lemma_join_push(parts.take(i as int), ", "@, parts[i as int]);
            assert(parts.take(i as int).push(parts[i as int]) =~= parts.take(i + 1));
            assert(parts[i as int] == effect_str(es.effects@[i as int]@));
        }
        if i > 0 {
            out.append(", ");
        }
        write_effect(&es.effects[i], out);
        i += 1;
    }
    assert(parts.take(es.effects.len() as int) =~= parts);
    out.append("}");
}

fn write_compare_op(op: CompareOp, out: &mut String)
    ensures
        final(out)@ == old(out)@ + compare_op_str(op),
{
    match op {
        CompareOp::Eq => out.append("=="),
        CompareOp::Ne => out.append("!="),
        CompareOp::Lt => out.append("<"),
        CompareOp::Le => out.append("<="),
        CompareOp::Gt => out.append(">"),
        CompareOp::Ge => out.append(">="),
    }
}

fn write_bin_op(op: BinOp, out: &mut String)
    ensures
        final(out)@ == old(out)@ + bin_op_str(op),
{
    match op {
        BinOp::Add => out.append("+"),
        BinOp::Sub => out.append("-"),
        BinOp::Mul => out.append("*"),
        BinOp::Div => out.append("/"),
        BinOp::Mod => out.append("%"),
    }
}

fn write_pexpr(e: &PredicateExpr, out: &mut String)
    ensures
        final(out)@ == old(out)@ + pexpr_str(e@),
    decreases e,
{
    match e {
        PredicateExpr::Value => out.append("value"),
        PredicateExpr::Literal(n) => write_i64(out, *n),
        PredicateExpr::Property(p) => out.append(p.as_str()),
        PredicateExpr::BinOp(l, op, r) => {
            out.append("(");
            write_pexpr(l, out);
            out.append(" ");
            write_bin_op(*op, out);
            out.append(" ");
            write_pexpr(r, out);
            out.append(")");
        },
    }
}

fn write_preds(ps: &Vec<Predicate>, sep: &str, out: &mut String)
    ensures
        final(out)@ == old(out)@ + join(preds_strs(preds_view(ps@)), sep@),
    decreases ps,
{
    let ghost start = out@;
    let ghost parts = preds_strs(preds_view(ps@));
    let mut i: usize = 0;
    while i < ps.len()
        invariant
            0 <= i <= ps.len(),
            parts == preds_strs(preds_view(ps@)),
            parts.len() == ps.len(),
            out@ == start + join(parts.take(i as int), sep@),
        decreases ps.len() - i,
    {
        proof {
            lemma_join_push(parts.take(i as int), sep@, parts[i as int]);
            assert(parts.take(i as int).push(parts[i as int]) =~= parts.take(i + 1));
            assert(preds_view(ps@)[i as int] == ps@[i as int]@);
        }
        assert(decreases_to!(ps => ps@[i as int]));
        if i > 0 {
            out.append(sep);
        }
        write_pred(&ps[i], out);
        i += 1;
    }
    assert(parts.take(ps.len() as int) =~= parts);
}

fn write_pred(p: &Predicate, out: &mut String)
    ensures
        final(out)@ == old(out)@ + pred_str(p@),
    decreases p,
{
    match p {
        Predicate::True => out.append("true"),
        Predicate::Compare { op, left, right } => {
            write_pexpr(left, out);
            out.append(" ");
            write_compare_op(*op, out);
            out.append(" ");
            write_pexpr(right, out);
        },
        Predicate::And(ps) => {
            out.append("(");
            write_preds(ps, " && ", out);
            out.append(")");
        },
        Predicate::Or(ps) => {
            out.append("(");
            write_preds(ps, " || ", out);
            out.append(")");
        },
        Predicate::Not(b) => {
            out.append("!");
            write_pred(b, out);
        },
        Predicate::Custom(s) => out.append(s.as_str()),
    }
}

fn write_dep(c: &DependentConstraint, out: &mut String)
    ensures
        final(out)@ == old(out)@ + dep_str(c@),
{
    match c {
        DependentConstraint::Length(n) => {
            out.append("len=");
            write_u64(out, *n as u64);
        },
        DependentConstraint::LengthRange(a, b) => {
            write_u64(out, *a as u64);
            out.append("<=len<=");
            write_u64(out, *b as u64);
        },
        DependentConstraint::ValueEq(e) => {
            out.append("value=");
            out.append(e.as_str());
        },
        DependentConstraint::Custom(s) => out.append(s.as_str()),
    }
}

fn write_types(ts: &Vec<Type>, sep: &str, out: &mut String)
    ensures
        final(out)@ == old(out)@ + join(types_strs(tviews(ts@)), sep@),
    decreases ts,
{
    let ghost start = out@;
    let ghost parts = types_strs(tviews(ts@));
    let mut i: usize = 0;
    while i < ts.len()
        invariant
            0 <= i <= ts.len(),
            parts == types_strs(tviews(ts@)),
            parts.len() == ts.len(),
            out@ == start + join(parts.take(i as int), sep@),
        decreases ts.len() - i,
    {
        proof {
            lemma_join_push(parts.take(i as int), sep@, parts[i as int]);
            assert(parts.take(i as int).push(parts[i as int]) =~= parts.take(i + 1));
            lemma_tviews_index(ts@, i as int);
        }
        assert(decreases_to!(ts => ts@[i as int]));
        if i > 0 {
            out.append(sep);
        }
        write_type(&ts[i], out);
        i += 1;
    }
    assert(parts.take(ts.len() as int) =~= parts);
}

fn write_param_names(ps: &Vec<TypeParam>, out: &mut String)
    ensures
        final(out)@ == old(out)@ + join(tparams_view(ps@).map_values(|p: STypeParam| p.name), ", "@),
{
    let ghost start = out@;
    let ghost parts = tparams_view(ps@).map_values(|p: STypeParam| p.name);
    let mut i: usize = 0;
    while i < ps.len()
        invariant
            0 <= i <= ps.len(),
            parts == tparams_view(ps@).map_values(|p: STypeParam| p.name),
            out@ == start + join(parts.take(i as int), ", "@),
        decreases ps.len() - i,
    {
        proof {
            lemma_join_push(parts.take(i as int), ", "@, parts[i as int]);
            assert(parts.take(i as int).push(parts[i as int]) =~= parts.take(i + 1));
        }
        if i > 0 {
            out.append(", ");
        }
        out.append(ps[i].name.as_str());
        i += 1;
    }
    assert(parts.take(ps.len() as int) =~= parts);
}

fn write_cond(c: &TypeCondition, out: &mut String)
    ensures
        final(out)@ == old(out)@ + cond_str(c@),
    decreases c,
{
    match c {
        TypeCondition::Extends(a, b) => {
            write_type(a, out);
            out.append(" extends ");
            write_type(b, out);
        },
        TypeCondition::Equal(a, b) => {
            write_type(a, out);
            out.append(" == ");
            write_type(b, out);
        },
        TypeCondition::HasProperty(a, p) => {
            write_type(a, out);
            out.append(".");
            out.append(p.as_str());
        },
        TypeCondition::Custom(s) => out.append(s.as_str()),
    }
}

/// Appends the text of a type.
#[verifier::rlimit(60)]
pub fn write_type(t: &Type, out: &mut String)
    ensures
        final(out)@ == old(out)@ + type_str(t@),
    decreases t,
{
    let ghost start = out@;
    match t {
        Type::Any => out.append("Any"),
        Type::Never => out.append("Never"),
        Type::NoneType => out.append("None"),
        Type::Bool => out.append("bool"),
        Type::Int => out.append("int"),
        Type::Float => out.append("float"),
        Type::Str => out.append("str"),
        Type::Bytes => out.append("bytes"),
        Type::List(b) => {
            out.append("list[");
            write_type(b, out);
            out.append("]");
            assert(out@ =~= start + type_str(t@));
        },
        Type::Tuple(ts) => {
            out.append("(");
            write_types(ts, ", ", out);
            out.append(")");
            assert(out@ =~= start + type_str(t@));
        },
        Type::Dict(k, v) => {
            out.append("dict[");
            write_type(k, out);
            out.append(", ");
            write_type(v, out);
            out.append("]");
            assert(out@ =~= start + type_str(t@));
        },
        Type::SetOf(b) => {
            out.append("set[");
            write_type(b, out);
            out.append("]");
            assert(out@ =~= start + type_str(t@));
        },
        Type::Function(ps, r) => {
            out.append("(");
            write_types(ps, ", ", out);
            out.append(") -> ");
            write_type(r, out);
            assert(out@ =~= start + type_str(t@));
        },
        Type::Union(ts) => write_types(ts, " | ", out),
        Type::Intersection(ts) => write_types(ts, " & ", out),
        Type::Generic(n, ts) => {
            if ts.len() == 0 {
                assert(tviews(ts@).len() == 0);
                out.append(n.as_str());
            } else {
                assert(tviews(ts@).len() != 0);
                out.append(n.as_str());
                out.append("[");
                write_types(ts, ", ", out);
                out.append("]");
            }
            assert(out@ =~= start + type_str(t@));
        },
        Type::Class(n) => out.append(n.as_str()),
        Type::Var(id) => {
            out.append("T");
            write_u64(out, *id);
            assert(out@ =~= start + type_str(t@));
        },
        Type::Effect(b, e) => {
            write_type(b, out);
            if !e.is_pure() {
                out.append(" ! ");
                write_effects(e, out);
            }
            assert(out@ =~= start + type_str(t@));
        },
        Type::Refinement(b, p) => {
            write_type(b, out);
            out.append("[");
            write_pred(p, out);
            out.append("]");
            assert(out@ =~= start + type_str(t@));
        },
        Type::Dependent(b, c) => {
            write_type(b, out);
            out.append("[");
            write_dep(c, out);
            out.append("]");
            assert(out@ =~= start + type_str(t@));
        },
        Type::Nominal(n, _) => out.append(n.as_str()),
        Type::Conditional { condition, then_type, else_type } => {
            write_cond(condition, out);
            out.append(" ? ");
            write_type(then_type, out);
            out.append(" : ");
            write_type(else_type, out);
            assert(out@ =~= start + type_str(t@));
        },
        Type::Recursive(n, b) => {
            out.append("rec ");
            out.append(n.as_str());
            out.append(". ");
            write_type(b, out);
            assert(out@ =~= start + type_str(t@));
        },
        Type::HigherKinded(n, ps) => {
            out.append(n.as_str());
            out.append("[");
            write_param_names(ps, out);
            out.append("]");
            assert(out@ =~= start + type_str(t@));
        },
    }
}

impl Type {
    /// The text of the type, as the type checker prints it.
    pub fn to_string(&self) -> (r: String)
        ensures
            r@ == type_str(self@),
    {
        let mut s = String::new();
        write_type(self, &mut s);
        assert(s@ =~= type_str(self@));
        s
    }
}

impl EffectSet {
    /// The text of the effect set: its effects in braces.
    pub fn to_string(&self) -> (r: String)
        ensures
            r@ == effects_str(self@),
    {
        let mut s = String::new();
        write_effects(self, &mut s);
        assert(s@ =~= effects_str(self@));
        s
    }
}

impl Predicate {
    /// The text of the predicate.
    pub fn to_string(&self) -> (r: String)
        ensures
            r@ == pred_str(self@),
    {
        let mut s = String::new();
        write_pred(self, &mut s);
        assert(s@ =~= pred_str(self@));
        s
    }
}

} // verus!
