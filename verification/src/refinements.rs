//! Common refinement types.
use vstd::prelude::*;
use crate::types::{Type, SType, Predicate, SPredicate, PredicateExpr, SPredExpr, CompareOp, BinOp};
use crate::refinement::{RefinementAnalyzer, JsonValue, holds, holds_all, check_ok, all_ok, trunc_rem, trunc_div};

verus! {

/// The refinement `int[x op right]` for a comparison of the value.
pub open spec fn int_compare(op: CompareOp, right: i64) -> SType {
    SType::Refinement(
        Box::new(SType::Int),
        SPredicate::Compare(op, SPredExpr::Value, SPredExpr::Literal(right)),
    )
}

/// The refinement `min <= x <= max` on integers.
pub open spec fn int_range(min: i64, max: i64) -> SType {
    SType::Refinement(
        Box::new(SType::Int),
        SPredicate::And(
            seq![
                SPredicate::Compare(CompareOp::Ge, SPredExpr::Value, SPredExpr::Literal(min)),
                SPredicate::Compare(CompareOp::Le, SPredExpr::Value, SPredExpr::Literal(max)),
            ],
        ),
    )
}

/// The refinement `x % 2 op 0` on integers.
pub open spec fn parity(op: CompareOp) -> SType {
    SType::Refinement(
        Box::new(SType::Int),
        SPredicate::Compare(
            op,
            SPredExpr::BinOp(
                Box::new(SPredExpr::Value),
                BinOp::Mod,
                Box::new(SPredExpr::Literal(2)),
            ),
            SPredExpr::Literal(0),
        ),
    )
}

/// Positive integers: x > 0.
pub fn positive() -> (r: Type)
    ensures
        r@ == int_compare(CompareOp::Gt, 0),
{
    RefinementAnalyzer::positive_int()
}

/// Negative integers: x < 0.
pub fn negative() -> (r: Type)
    ensures
        r@ == int_compare(CompareOp::Lt, 0),
{
    RefinementAnalyzer::negative_int()
}

/// Non-negative integers: x >= 0.
pub fn non_negative() -> (r: Type)
    ensures
        r@ == int_range(0, i64::MAX),
{
    RefinementAnalyzer::bounded_int(0, i64::MAX)
}

/// Natural numbers: x >= 1.
pub fn natural() -> (r: Type)
    ensures
        r@ == int_range(1, i64::MAX),
{
    RefinementAnalyzer::bounded_int(1, i64::MAX)
}

/// Non-empty strings.
pub fn non_empty_str() -> (r: Type)
    ensures
        r@ == SType::Refinement(
            Box::new(SType::Str),
            SPredicate::Compare(CompareOp::Gt, SPredExpr::Property("len"@), SPredExpr::Literal(0)),
        ),
{
    RefinementAnalyzer::non_empty_str()
}

/// Integers from `min` to `max`.
pub fn range(min: i64, max: i64) -> (r: Type)
    ensures
        r@ == int_range(min, max),
{
    RefinementAnalyzer::bounded_int(min, max)
}

fn value_mod_two() -> (r: PredicateExpr)
    ensures
        r@ == SPredExpr::BinOp(Box::new(SPredExpr::Value), BinOp::Mod, Box::new(SPredExpr::Literal(2))),
{
    proof {
        reveal_with_fuel(crate::types::pexpr_view, 2);
    }
    PredicateExpr::BinOp(Box::new(PredicateExpr::Value), BinOp::Mod, Box::new(PredicateExpr::Literal(2)))
}

/// Even numbers: x % 2 == 0.
pub fn even() -> (r: Type)
    ensures
        r@ == parity(CompareOp::Eq),
{
    Type::Int.refine(Predicate::Compare {
        op: CompareOp::Eq,
        left: value_mod_two(),
        right: PredicateExpr::Literal(0),
    })
}

/// Odd numbers: x % 2 != 0.
pub fn odd() -> (r: Type)
    ensures
        r@ == parity(CompareOp::Ne),
{
    Type::Int.refine(Predicate::Compare {
        op: CompareOp::Ne,
        left: value_mod_two(),
        right: PredicateExpr::Literal(0),
    })
}

/// A number satisfies the range refinement exactly when it lies in the range, and checking
/// it never overflows.
pub proof fn lemma_range_holds(v: i64, min: i64, max: i64)
    ensures
        holds(JsonValue::Int(v), int_range(min, max)->Refinement_1)
            <==> (min <= v && v <= max),
        check_ok(JsonValue::Int(v), int_range(min, max)->Refinement_1),
{
    let ps = seq![
        SPredicate::Compare(CompareOp::Ge, SPredExpr::Value, SPredExpr::Literal(min)),
        SPredicate::Compare(CompareOp::Le, SPredExpr::Value, SPredExpr::Literal(max)),
    ];
    let v = JsonValue::Int(v);
    let rest = ps.subrange(1, ps.len() as int);
    let none = rest.subrange(1, rest.len() as int);
    assert(none =~= Seq::<SPredicate>::empty());
    assert(rest[0] == ps[1]);
    assert(int_range(min, max)->Refinement_1 == SPredicate::And(ps));
    assert(holds_all(v, none));
    assert(all_ok(v, none));
    assert(holds_all(v, rest) == holds(v, ps[1]));
    assert(crate::refinement::eval_ok(v, SPredExpr::Value));
    assert(crate::refinement::eval_ok(v, SPredExpr::Literal(min)));
    assert(crate::refinement::eval_ok(v, SPredExpr::Literal(max)));
    assert(check_ok(v, ps[0]));
    assert(check_ok(v, ps[1]));
    assert(all_ok(v, rest));
    assert(holds_all(v, ps) == (holds(v, ps[0]) && holds(v, ps[1])));
    assert(all_ok(v, ps));
}

/// A number satisfies a comparison refinement exactly when the comparison holds.
pub proof fn lemma_compare_holds(v: i64, op: CompareOp, right: i64)
    ensures
        holds(JsonValue::Int(v), int_compare(op, right)->Refinement_1)
            <==> crate::refinement::compare_holds(op, v as int, right as int),
        check_ok(JsonValue::Int(v), int_compare(op, right)->Refinement_1),
{
}

/// A number satisfies the even refinement exactly when it is even, and the odd
/// refinement exactly when it is odd.
pub proof fn lemma_parity_holds(v: i64)
    ensures
        holds(JsonValue::Int(v), parity(CompareOp::Eq)->Refinement_1) <==> v % 2 == 0,
        holds(JsonValue::Int(v), parity(CompareOp::Ne)->Refinement_1) <==> v % 2 != 0,
        check_ok(JsonValue::Int(v), parity(CompareOp::Eq)->Refinement_1),
        check_ok(JsonValue::Int(v), parity(CompareOp::Ne)->Refinement_1),
{
    reveal_with_fuel(crate::refinement::eval_expr, 2);
    reveal_with_fuel(crate::refinement::eval_ok, 2);
    let r = trunc_rem(v as int, 2);
    assert(r == 0 <==> v % 2 == 0) by (nonlinear_arith)
        requires
            r == v - 2 * trunc_div(v as int, 2),
            trunc_div(v as int, 2) == (if v < 0 { -((-v) / 2) } else { v / 2 }),
    ;
}

} // verus!
