//! Refinement predicates: reading them from text and checking values against them.
use vstd::prelude::*;
use crate::types::{Type, SType, Predicate, SPredicate, PredicateExpr, SPredExpr, CompareOp, BinOp,
    preds_view};
use crate::ops::{psize, psizes, pred_and, lemma_psize_elem};
use crate::cli::{is_digit, digits_value};
use crate::protocols::text_eq;
use crate::errors::strings_view;
use vstd::utf8::encode_utf8;
use vstd::string::StringSliceAdditionalSpecFns;

verus! {

/// A JSON value, as far as refinement checking reads it.
#[derive(Debug)]
pub enum JsonValue {
    Null,
    Bool(bool),
    /// A number that fits in an `i64`.
    Int(i64),
    /// Any other number.
    Number,
    Str(String),
    Array(Vec<JsonValue>),
    Object,
}

/// Quotient of division rounded toward zero.
pub open spec fn trunc_div(x: int, y: int) -> int {
    let q = (if x < 0 { -x } else { x }) / (if y < 0 { -y } else { y });
    if (x < 0) != (y < 0) {
        -q
    } else {
        q
    }
}

/// Remainder of division rounded toward zero: it has the sign of `x`.
pub open spec fn trunc_rem(x: int, y: int) -> int {
    x - y * trunc_div(x, y)
}

pub open spec fn in_i64(x: int) -> bool {
    i64::MIN <= x <= i64::MAX
}

/// The integer that an expression gives for a value, if any.
pub open spec fn eval_expr(v: JsonValue, e: SPredExpr) -> Option<int>
    decreases e,
{
    match e {
        SPredExpr::Value => match v {
            JsonValue::Int(n) => Some(n as int),
            _ => None,
        },
        SPredExpr::Literal(n) => Some(n as int),
        SPredExpr::Property(p) => if p == "len"@ {
            match v {
                JsonValue::Str(s) => Some(((encode_utf8(s@).len() as usize) as i64) as int),
                JsonValue::Array(a) => Some(((a@.len() as usize) as i64) as int),
                _ => None,
            }
        } else if p == "abs"@ {
            match v {
                JsonValue::Int(n) => Some(if n < 0 { -n } else { n as int }),
                _ => None,
            }
        } else {
            None
        },
        SPredExpr::BinOp(l, op, r) => match eval_expr(v, *l) {
            None => None,
            Some(x) => match eval_expr(v, *r) {
                None => None,
                Some(y) => match op {
                    BinOp::Add => Some(x + y),
                    BinOp::Sub => Some(x - y),
                    BinOp::Mul => Some(x * y),
                    BinOp::Div => if y != 0 {
                        Some(trunc_div(x, y))
                    } else {
                        None
                    },
                    BinOp::Mod => if y != 0 {
                        Some(trunc_rem(x, y))
                    } else {
                        None
                    },
                },
            },
        },
    }
}

/// Whether evaluating an expression stays within `i64` arithmetic (where it does not, the
/// evaluation overflows).
pub open spec fn eval_ok(v: JsonValue, e: SPredExpr) -> bool
    decreases e,
{
    match e {
        SPredExpr::Property(p) => p == "abs"@ && v is Int ==> v->Int_0 != i64::MIN,
        SPredExpr::BinOp(l, op, r) => eval_ok(v, *l) && (eval_expr(v, *l) is Some ==> eval_ok(v, *r) && (
        eval_expr(v, *r) is Some ==> {
            let x = eval_expr(v, *l)->0;
            let y = eval_expr(v, *r)->0;
            match op {
                BinOp::Add => in_i64(x + y),
                BinOp::Sub => in_i64(x - y),
                BinOp::Mul => in_i64(x * y),
                BinOp::Div => y != 0 ==> in_i64(trunc_div(x, y)),
                BinOp::Mod => y != 0 ==> !(x == i64::MIN && y == -1),
            }
        })),
        _ => true,
    }
}

/// Whether a comparison holds.
pub open spec fn compare_holds(op: CompareOp, x: int, y: int) -> bool {
    match op {
        CompareOp::Eq => x == y,
        CompareOp::Ne => x != y,
        CompareOp::Lt => x < y,
        CompareOp::Le => x <= y,
        CompareOp::Gt => x > y,
        CompareOp::Ge => x >= y,
    }
}

/// Whether a value satisfies a predicate; a custom predicate is never satisfied.
pub open spec fn holds(v: JsonValue, p: SPredicate) -> bool
    decreases psize(p), 1nat,
{
    match p {
        SPredicate::True => true,
        SPredicate::Compare(op, l, r) => match (eval_expr(v, l), eval_expr(v, r)) {
            (Some(x), Some(y)) => compare_holds(op, x, y),
            _ => false,
        },
        SPredicate::And(ps) => holds_all(v, ps),
        SPredicate::Or(ps) => holds_any(v, ps),
        SPredicate::Not(q) => !holds(v, *q),
        SPredicate::Custom(_) => false,
    }
}

pub open spec fn holds_all(v: JsonValue, ps: Seq<SPredicate>) -> bool
    decreases psizes(ps) + 1, 0nat,
{
    if ps.len() == 0 {
        true
    } else {
        proof {
            lemma_psize_elem(ps, 0);
        }
        holds(v, ps[0]) && holds_all(v, ps.subrange(1, ps.len() as int))
    }
}

pub open spec fn holds_any(v: JsonValue, ps: Seq<SPredicate>) -> bool
    decreases psizes(ps) + 1, 0nat,
{
    if ps.len() == 0 {
        false
    } else {
        proof {
            lemma_psize_elem(ps, 0);
        }
        holds(v, ps[0]) || holds_any(v, ps.subrange(1, ps.len() as int))
    }
}

/// A value that satisfies every member satisfies each one.
proof fn lemma_holds_all_member(v: JsonValue, ps: Seq<SPredicate>, i: int)
    requires
        holds_all(v, ps),
        0 <= i < ps.len(),
    ensures
        holds(v, ps[i]),
    decreases ps.len(),
{
    if i > 0 {
        lemma_holds_all_member(v, ps.subrange(1, ps.len() as int), i - 1);
    }
}

/// A value that satisfies one member satisfies the disjunction.
proof fn lemma_holds_any_member(v: JsonValue, ps: Seq<SPredicate>, i: int)
    requires
        holds(v, ps[i]),
        0 <= i < ps.len(),
    ensures
        holds_any(v, ps),
    decreases ps.len(),
{
    if i > 0 {
        lemma_holds_any_member(v, ps.subrange(1, ps.len() as int), i - 1);
    }
}

/// Implication between predicates is reflexive, everything implies `True`, and it is
/// sound: when `p` implies `q`, every value that satisfies `p` satisfies `q`.
pub proof fn lemma_implies_sound(p: SPredicate, q: SPredicate, v: JsonValue)
    ensures
        crate::ops::pred_implies(p, p),
        crate::ops::pred_implies(p, SPredicate::True),
        crate::ops::pred_implies(p, q) && holds(v, p) ==> holds(v, q),
    decreases psize(p) + psize(q),
{
    crate::ops::lemma_pchildren_smaller(p);
    crate::ops::lemma_pchildren_smaller(q);
    if crate::ops::pred_implies(p, q) && holds(v, p) && p != q && !(q is True) {
        match p {
            SPredicate::And(ps) => {
                let i = choose|i: int| 0 <= i < ps.len() && crate::ops::pred_implies(#[trigger] ps[i], q);
                lemma_holds_all_member(v, ps, i);
                lemma_implies_sound(ps[i], q, v);
            },
            _ => match q {
                SPredicate::Or(qs) => {
                    let i = choose|i: int| 0 <= i < qs.len() && crate::ops::pred_implies(p, #[trigger] qs[i]);
                    lemma_implies_sound(p, qs[i], v);
                    lemma_holds_any_member(v, qs, i);
                },
                _ => {},
            },
        }
    }
}

/// Whether checking a value against a predicate stays within `i64` arithmetic:
/// conjunctions and disjunctions stop at the first member that decides them.
pub open spec fn check_ok(v: JsonValue, p: SPredicate) -> bool
    decreases psize(p), 1nat,
{
    match p {
        SPredicate::Compare(_, l, r) => eval_ok(v, l) && eval_ok(v, r),
        SPredicate::And(ps) => all_ok(v, ps),
        SPredicate::Or(ps) => any_ok(v, ps),
        SPredicate::Not(q) => check_ok(v, *q),
        _ => true,
    }
}

pub open spec fn all_ok(v: JsonValue, ps: Seq<SPredicate>) -> bool
    decreases psizes(ps) + 1, 0nat,
{
    if ps.len() == 0 {
        true
    } else {
        proof {
            lemma_psize_elem(ps, 0);
        }
        check_ok(v, ps[0]) && (holds(v, ps[0]) ==> all_ok(v, ps.subrange(1, ps.len() as int)))
    }
}

pub open spec fn any_ok(v: JsonValue, ps: Seq<SPredicate>) -> bool
    decreases psizes(ps) + 1, 0nat,
{
    if ps.len() == 0 {
        true
    } else {
        proof {
            lemma_psize_elem(ps, 0);
        }
        check_ok(v, ps[0]) && (!holds(v, ps[0]) ==> any_ok(v, ps.subrange(1, ps.len() as int)))
    }
}

/// Whether a character is white space in Unicode.
pub open spec fn is_ws(c: char) -> bool {
    let u = c as u32;
    (0x9 <= u <= 0xD) || u == 0x20 || u == 0x85 || u == 0xA0 || u == 0x1680 || (0x2000 <= u
        <= 0x200A) || u == 0x2028 || u == 0x2029 || u == 0x202F || u == 0x205F || u == 0x3000
}

/// The words of a text from index `i` on, given the word being read and the words read.
pub open spec fn words_from(s: Seq<char>, i: nat, cur: Seq<char>, acc: Seq<Seq<char>>) -> Seq<
    Seq<char>,
>
    decreases s.len() - i,
{
    if i >= s.len() {
        if cur.len() > 0 {
            acc.push(cur)
        } else {
            acc
        }
    } else if is_ws(s[i as int]) {
        words_from(s, i + 1, Seq::empty(), if cur.len() > 0 { acc.push(cur) } else { acc })
    } else {
        words_from(s, i + 1, cur.push(s[i as int]), acc)
    }
}

/// The words of a text: its maximal runs without white space.
pub open spec fn words(s: Seq<char>) -> Seq<Seq<char>> {
    words_from(s, 0, Seq::empty(), Seq::empty())
}

/// The digits of a signed number: the text without its sign.
pub open spec fn signed_digits(s: Seq<char>) -> Seq<char> {
    if s.len() > 0 && (s[0] == '+' || s[0] == '-') {
        s.drop_first()
    } else {
        s
    }
}

/// The `i64` that a text denotes, if any: an optional sign, then one digit or more.
pub open spec fn parse_i64_spec(s: Seq<char>) -> Option<i64> {
    let neg = s.len() > 0 && s[0] == '-';
    let t = signed_digits(s);
    if t.len() == 0 || exists|i: int| 0 <= i < t.len() && !is_digit(#[trigger] t[i]) {
        None
    } else {
        let v: int = if neg {
            -(digits_value(t) as int)
        } else {
            digits_value(t) as int
        };
        if in_i64(v) {
            Some(v as i64)
        } else {
            None
        }
    }
}

/// The expression that a word denotes.
pub open spec fn pred_expr_spec(w: Seq<char>) -> SPredExpr {
    if w == "value"@ {
        SPredExpr::Value
    } else if parse_i64_spec(w) is Some {
        SPredExpr::Literal(parse_i64_spec(w)->0)
    } else if w.len() >= 4 && w.take(4) == "len("@ && w.last() == ')' {
        SPredExpr::Property("len"@)
    } else {
        SPredExpr::Property(w)
    }
}

/// The comparison operator that a word denotes.
pub open spec fn compare_op_spec(w: Seq<char>) -> Option<CompareOp> {
    if w == "=="@ {
        Some(CompareOp::Eq)
    } else if w == "!="@ {
        Some(CompareOp::Ne)
    } else if w == "<"@ {
        Some(CompareOp::Lt)
    } else if w == "<="@ {
        Some(CompareOp::Le)
    } else if w == ">"@ {
        Some(CompareOp::Gt)
    } else if w == ">="@ {
        Some(CompareOp::Ge)
    } else {
        None
    }
}

/// The model of `parse_predicate`: three words, an operand, an operator and an operand.
pub open spec fn parse_predicate_spec(s: Seq<char>) -> Result<SPredicate, Seq<char>> {
    let w = words(s);
    if w.len() != 3 {
        Err("Invalid predicate format: "@ + s)
    } else {
        match compare_op_spec(w[1]) {
            None => Err("Unknown comparison operator: "@ + w[1]),
            Some(op) => Ok(SPredicate::Compare(op, pred_expr_spec(w[0]), pred_expr_spec(w[2]))),
        }
    }
}

fn div_trunc(x: i64, y: i64) -> (q: i64)
    requires
        y != 0,
        in_i64(trunc_div(x as int, y as int)),
    ensures
        q == trunc_div(x as int, y as int),
{
    let ax: u64 = if x < 0 { (0i128 - x as i128) as u64 } else { x as u64 };
    let ay: u64 = if y < 0 { (0i128 - y as i128) as u64 } else { y as u64 };
    let uq: u64 = ax / ay;
    let q: i128 = if (x < 0) != (y < 0) { 0i128 - uq as i128 } else { uq as i128 };
    q as i64
}

fn rem_trunc(x: i64, y: i64) -> (r: i64)
    requires
        y != 0,
        !(x == i64::MIN && y == -1),
    ensures
        r == trunc_rem(x as int, y as int),
{
    let ax: u64 = if x < 0 { (0i128 - x as i128) as u64 } else { x as u64 };
    let ay: u64 = if y < 0 { (0i128 - y as i128) as u64 } else { y as u64 };
    let uq: u64 = ax / ay;
    let ur: u64 = ax % ay;
    assert(ax == uq * ay + ur) by (nonlinear_arith)
        requires
            ay > 0,
            uq == ax / ay,
            ur == ax % ay,
    ;
    let r: i128 = if x < 0 { 0i128 - ur as i128 } else { ur as i128 };
    let ghost q: int = if (x < 0) != (y < 0) { -(uq as int) } else { uq as int };
    assert(q == trunc_div(x as int, y as int));
    assert(r == x - y * q) by (nonlinear_arith)
        requires
            ax == uq * ay + ur,
            ax == (if x < 0 { -x } else { x as int }),
            ay == (if y < 0 { -y } else { y as int }),
            q == (if (x < 0) != (y < 0) { -(uq as int) } else { uq as int }),
            r == (if x < 0 { -(ur as int) } else { ur as int }),
    ;
    assert(ur < ay) by (nonlinear_arith)
        requires
            ay > 0,
            ur == ax % ay,
    ;
    r as i64
}

/// The integer that an expression gives for a value, if any.
fn eval_pred_expr(value: &JsonValue, expr: &PredicateExpr) -> (r: Option<i64>)
    requires
        eval_ok(*value, expr@),
    ensures
        match r {
            Some(n) => eval_expr(*value, expr@) == Some(n as int),
            None => eval_expr(*value, expr@) is None,
        },
    decreases expr,
{
    match expr {
        PredicateExpr::Value => match value {
            JsonValue::Int(n) => Some(*n),
            _ => None,
        },
        PredicateExpr::Literal(n) => Some(*n),
        PredicateExpr::Property(prop) => {
            if text_eq(prop.as_str(), "len") {
                match value {
                    JsonValue::Str(s) => Some(s.as_str().len() as i64),
                    JsonValue::Array(a) => Some(a.len() as i64),
                    _ => None,
                }
            } else if text_eq(prop.as_str(), "abs") {
                match value {
                    JsonValue::Int(n) => Some(if *n < 0 { -*n } else { *n }),
                    _ => None,
                }
            } else {
                None
            }
        },
        PredicateExpr::BinOp(left, op, right) => {
            let l = match eval_pred_expr(value, left) {
                Some(l) => l,
                None => {
                    return None;
                },
            };
            let r = match eval_pred_expr(value, right) {
                Some(r) => r,
                None => {
                    return None;
                },
            };
            match op {
                BinOp::Add => Some(l + r),
                BinOp::Sub => Some(l - r),
                BinOp::Mul => Some(l * r),
                BinOp::Div => if r != 0 {
                    Some(div_trunc(l, r))
                } else {
                    None
                },
                BinOp::Mod => if r != 0 {
                    Some(rem_trunc(l, r))
                } else {
                    None
                },
            }
        },
    }
}

fn compare(left: i64, right: i64, op: &CompareOp) -> (r: bool)
    ensures
        r == compare_holds(*op, left as int, right as int),
{
    match op {
        CompareOp::Eq => left == right,
        CompareOp::Ne => left != right,
        CompareOp::Lt => left < right,
        CompareOp::Le => left <= right,
        CompareOp::Gt => left > right,
        CompareOp::Ge => left >= right,
    }
}

/// Whether a character is white space in Unicode.
fn is_ws_exec(c: char) -> (r: bool)
    ensures
        r == is_ws(c),
{
    let u = c as u32;
    (0x9 <= u && u <= 0xD) || u == 0x20 || u == 0x85 || u == 0xA0 || u == 0x1680 || (0x2000 <= u
        && u <= 0x200A) || u == 0x2028 || u == 0x2029 || u == 0x202F || u == 0x205F || u == 0x3000
}

/// The words of a text.
fn split_words(s: &str) -> (r: Vec<String>)
    ensures
        strings_view(r@) == words(s@),
{
    let n = s.unicode_len();
    let mut acc: Vec<String> = Vec::new();
    let mut cur = String::new();
    assert(cur@ =~= Seq::<char>::empty());
    assert(strings_view(acc@) =~= Seq::<Seq<char>>::empty());
    let mut i: usize = 0;
    while i < n
        invariant
            0 <= i <= n,
            n == s@.len(),
            words(s@) == words_from(s@, i as nat, cur@, strings_view(acc@)),
        decreases n - i,
    {
        let c = s.get_char(i);
        if is_ws_exec(c) {
            if cur.as_str().unicode_len() > 0 {
                let ghost before = acc@;
                let ghost cv = cur@;
                acc.push(cur);
                assert(strings_view(acc@) =~= strings_view(before).push(cv));
            }
            cur = String::new();
            assert(cur@ =~= Seq::<char>::empty());
        } else {
            crate::display::push_char(&mut cur, c);
        }
        i += 1;
    }
    if cur.as_str().unicode_len() > 0 {
        let ghost before = acc@;
        let ghost cv = cur@;
        acc.push(cur);
        assert(strings_view(acc@) =~= strings_view(before).push(cv));
    }
    acc
}

/// Reads a signed 64-bit number.
pub fn parse_i64(s: &str) -> (r: Option<i64>)
    ensures
        r == parse_i64_spec(s@),
{
    let n = s.unicode_len();
    let mut start: usize = 0;
    let mut neg = false;
    if n > 0 {
        let c0 = s.get_char(0);
        if c0 == '+' || c0 == '-' {
            start = 1;
            neg = c0 == '-';
        }
    }
    let ghost t = signed_digits(s@);
    assert(t =~= s@.subrange(start as int, n as int));
    assert(neg == (s@.len() > 0 && s@[0] == '-'));
    if start == n {
        return None;
    }
    let mut i: usize = start;
    while i < n
        invariant
            start <= i <= n,
            n == s@.len(),
            t =~= s@.subrange(start as int, n as int),
            t == signed_digits(s@),
            forall|k: int| start <= k < i ==> is_digit(#[trigger] s@[k]),
        decreases n - i,
    {
        let c = s.get_char(i);
        if !('0' <= c && c <= '9') {
            assert(t[i - start] == s@[i as int]);
            assert(!is_digit(t[i - start]));
            return None;
        }
        i += 1;
    }
    assert forall|k: int| 0 <= k < t.len() implies is_digit(#[trigger] t[k]) by {
        assert(t[k] == s@[start + k]);
    }
    let mut v: u64 = 0;
    let mut j: usize = start;
    while j < n
        invariant
            start <= j <= n,
            n == s@.len(),
            t =~= s@.subrange(start as int, n as int),
            t == signed_digits(s@),
            neg == (s@.len() > 0 && s@[0] == '-'),
            t.len() > 0,
            forall|k: int| 0 <= k < t.len() ==> is_digit(#[trigger] t[k]),
            v == digits_value(t.take(j - start)),
        decreases n - j,
    {
        let c = s.get_char(j);
        assert(c == t[j - start]);
        let d = (c as u32 - '0' as u32) as u64;
        assert(t.take(j - start + 1).drop_last() =~= t.take(j - start));
        assert(t.take(j - start + 1).last() == c);
        assert(d == c as nat - '0' as nat);
        assert(digits_value(t.take(j - start + 1)) == v * 10 + d);
        match v.checked_mul(10) {
            None => {
                proof {
                    crate::cli::lemma_digits_value_grows(t, j - start + 1);
                    assert(digits_value(t) > u64::MAX);
                }
                return None;
            },
            Some(m) => match m.checked_add(d) {
                None => {
                    proof {
                        crate::cli::lemma_digits_value_grows(t, j - start + 1);
                        assert(digits_value(t) > u64::MAX);
                    }
                    return None;
                },
                Some(w) => {
                    v = w;
                },
            },
        }
        j += 1;
    }
    assert(t.take(n - start) =~= t);
    if neg {
        if v <= 0x8000_0000_0000_0000u64 {
            Some((0i128 - v as i128) as i64)
        } else {
            None
        }
    } else {
        if v <= 0x7fff_ffff_ffff_ffffu64 {
            Some(v as i64)
        } else {
            None
        }
    }
}

fn parse_pred_expr(s: &str) -> (r: PredicateExpr)
    ensures
        r@ == pred_expr_spec(s@),
{
    if text_eq(s, "value") {
        return PredicateExpr::Value;
    }
    if let Some(n) = parse_i64(s) {
        return PredicateExpr::Literal(n);
    }
    let n = s.unicode_len();
    if n >= 4 && s.get_char(0) == 'l' && s.get_char(1) == 'e' && s.get_char(2) == 'n' && s.get_char(3)
        == '(' && s.get_char(n - 1) == ')' {
        proof {
            reveal_strlit("len(");
        }
        assert(s@.take(4) =~= "len("@);
        PredicateExpr::Property(String::from_str("len"))
    } else {
        proof {
            reveal_strlit("len(");
            if s@.len() >= 4 && s@.take(4) == "len("@ {
                assert(s@.take(4)[0] == 'l' && s@.take(4)[1] == 'e' && s@.take(4)[2] == 'n' && s@.take(4)[3] == '(');
            }
        }
        PredicateExpr::Property(String::from_str(s))
    }
}

fn parse_compare_op(s: &str) -> (r: Option<CompareOp>)
    ensures
        r == compare_op_spec(s@),
{
    if text_eq(s, "==") {
        Some(CompareOp::Eq)
    } else if text_eq(s, "!=") {
        Some(CompareOp::Ne)
    } else if text_eq(s, "<") {
        Some(CompareOp::Lt)
    } else if text_eq(s, "<=") {
        Some(CompareOp::Le)
    } else if text_eq(s, ">") {
        Some(CompareOp::Gt)
    } else if text_eq(s, ">=") {
        Some(CompareOp::Ge)
    } else {
        None
    }
}

/// Reading predicates from text and checking values against predicates.
pub struct RefinementAnalyzer;

impl RefinementAnalyzer {
    pub fn new() -> (r: Self) {
        RefinementAnalyzer
    }

    /// Reads a predicate of the form `operand operator operand`, such as `value > 0`.
    pub fn parse_predicate(&self, expr_str: &str) -> (r: Result<Predicate, String>)
        ensures
            r is Ok <==> parse_predicate_spec(expr_str@) is Ok,
            r matches Ok(p) ==> parse_predicate_spec(expr_str@) == Ok::<SPredicate, Seq<char>>(p@),
            r matches Err(m) ==> parse_predicate_spec(expr_str@) == Err::<SPredicate, Seq<char>>(m@),
    {
        let parts = split_words(expr_str);
        if parts.len() != 3 {
            let mut s = String::from_str("Invalid predicate format: ");
            s.append(expr_str);
            return Err(s);
        }
        assert(parts@[0]@ == words(expr_str@)[0]);
        assert(parts@[1]@ == words(expr_str@)[1]);
        assert(parts@[2]@ == words(expr_str@)[2]);
        let left = parse_pred_expr(parts[0].as_str());
        let op = match parse_compare_op(parts[1].as_str()) {
            Some(op) => op,
            None => {
                let mut s = String::from_str("Unknown comparison operator: ");
                s.append(parts[1].as_str());
                return Err(s);
            },
        };
        let right = parse_pred_expr(parts[2].as_str());
        Ok(Predicate::Compare { op, left, right })
    }

    /// Whether a value satisfies a predicate.
    pub fn validate(&self, value: &JsonValue, predicate: &Predicate) -> (r: bool)
        requires
            check_ok(*value, predicate@),
        ensures
            r == holds(*value, predicate@),
        decreases predicate,
    {
        match predicate {
            Predicate::True => true,
            Predicate::Compare { op, left, right } => {
                let left_val = eval_pred_expr(value, left);
                let right_val = eval_pred_expr(value, right);
                match (left_val, right_val) {
                    (Some(l), Some(r)) => compare(l, r, op),
                    _ => false,
                }
            },
            Predicate::And(preds) => self.validate_all(value, preds),
            Predicate::Or(preds) => self.validate_any(value, preds),
            Predicate::Not(pred) => !self.validate(value, pred),
            Predicate::Custom(_) => false,
        }
    }

    fn validate_all(&self, value: &JsonValue, preds: &Vec<Predicate>) -> (r: bool)
        requires
            all_ok(*value, preds_view(preds@)),
        ensures
            r == holds_all(*value, preds_view(preds@)),
        decreases preds,
    {
        let ghost pv = preds_view(preds@);
        assert(pv.subrange(0, pv.len() as int) =~= pv);
        let mut i: usize = 0;
        while i < preds.len()
            invariant
                0 <= i <= preds.len(),
                pv == preds_view(preds@),
                pv.len() == preds.len(),
                holds_all(*value, pv) == holds_all(*value, pv.subrange(i as int, pv.len() as int)),
                all_ok(*value, pv.subrange(i as int, pv.len() as int)),
            decreases preds.len() - i,
        {
            assert(pv.subrange(i as int, pv.len() as int)[0] == pv[i as int]);
            assert(pv.subrange(i as int, pv.len() as int).subrange(1, pv.len() - i) =~= pv.subrange(
                i + 1,
                pv.len() as int,
            ));
            assert(pv[i as int] == preds@[i as int]@);
            assert(decreases_to!(preds => preds@[i as int]));
            if !self.validate(value, &preds[i]) {
                return false;
            }
            i += 1;
        }
        assert(pv.subrange(i as int, pv.len() as int).len() == 0);
        true
    }

    fn validate_any(&self, value: &JsonValue, preds: &Vec<Predicate>) -> (r: bool)
        requires
            any_ok(*value, preds_view(preds@)),
        ensures
            r == holds_any(*value, preds_view(preds@)),
        decreases preds,
    {
        let ghost pv = preds_view(preds@);
        assert(pv.subrange(0, pv.len() as int) =~= pv);
        let mut i: usize = 0;
        while i < preds.len()
            invariant
                0 <= i <= preds.len(),
                pv == preds_view(preds@),
                pv.len() == preds.len(),
                holds_any(*value, pv) == holds_any(*value, pv.subrange(i as int, pv.len() as int)),
                any_ok(*value, pv.subrange(i as int, pv.len() as int)),
            decreases preds.len() - i,
        {
            assert(pv.subrange(i as int, pv.len() as int)[0] == pv[i as int]);
            assert(pv.subrange(i as int, pv.len() as int).subrange(1, pv.len() - i) =~= pv.subrange(
                i + 1,
                pv.len() as int,
            ));
            assert(pv[i as int] == preds@[i as int]@);
            assert(decreases_to!(preds => preds@[i as int]));
            if self.validate(value, &preds[i]) {
                return true;
            }
            i += 1;
        }
        assert(pv.subrange(i as int, pv.len() as int).len() == 0);
        false
    }

    /// Integers above zero.
    pub fn positive_int() -> (r: Type)
        ensures
            r@ == SType::Refinement(
                Box::new(SType::Int),
                SPredicate::Compare(CompareOp::Gt, SPredExpr::Value, SPredExpr::Literal(0)),
            ),
    {
        Type::Int.refine(Predicate::Compare {
            op: CompareOp::Gt,
            left: PredicateExpr::Value,
            right: PredicateExpr::Literal(0),
        })
    }

    /// Integers below zero.
    pub fn negative_int() -> (r: Type)
        ensures
            r@ == SType::Refinement(
                Box::new(SType::Int),
                SPredicate::Compare(CompareOp::Lt, SPredExpr::Value, SPredExpr::Literal(0)),
            ),
    {
        Type::Int.refine(Predicate::Compare {
            op: CompareOp::Lt,
            left: PredicateExpr::Value,
            right: PredicateExpr::Literal(0),
        })
    }

    /// Strings whose length is above zero.
    pub fn non_empty_str() -> (r: Type)
        ensures
            r@ == SType::Refinement(
                Box::new(SType::Str),
                SPredicate::Compare(CompareOp::Gt, SPredExpr::Property("len"@), SPredExpr::Literal(0)),
            ),
    {
        Type::Str.refine(Predicate::Compare {
            op: CompareOp::Gt,
            left: PredicateExpr::Property(String::from_str("len")),
            right: PredicateExpr::Literal(0),
        })
    }

    /// Integers from `min` to `max`, both included.
    pub fn bounded_int(min: i64, max: i64) -> (r: Type)
        ensures
            r@ == SType::Refinement(
                Box::new(SType::Int),
                SPredicate::And(
                    seq![
                        SPredicate::Compare(CompareOp::Ge, SPredExpr::Value, SPredExpr::Literal(min)),
                        SPredicate::Compare(CompareOp::Le, SPredExpr::Value, SPredExpr::Literal(max)),
                    ],
                ),
            ),
    {
        let lower = Predicate::Compare {
            op: CompareOp::Ge,
            left: PredicateExpr::Value,
            right: PredicateExpr::Literal(min),
        };
        let upper = Predicate::Compare {
            op: CompareOp::Le,
            left: PredicateExpr::Value,
            right: PredicateExpr::Literal(max),
        };
        Type::Int.refine(lower.and(upper))
    }
}

} // verus!
