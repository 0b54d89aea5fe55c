//! Parsing Python source: `rustpython_parser` parses, and the tree it gives, in its text
//! form, is read into the library's own syntax tree.
use vstd::prelude::*;
use crate::tree_text::{SNode, Node, nview, nviews, fviews, read_text, read_text_exec, slice_chars};
use crate::location::Span;
use crate::pyast::{Comprehension, Constant, Expr, Module, Operator, Param, Stmt, UnaryOp};
use crate::errors::chars_of;
use crate::display::push_char;
use crate::protocols::text_eq;
use crate::cli::{digits_value, is_digit};

verus! {

/// The result of `rustpython_parser::parse(source, Mode::Module, "<string>")`: the text
/// that `{:?}` writes for the tree, or the text that `Display` writes for the error.
pub uninterp spec fn module_text(source: Seq<char>) -> Result<Seq<char>, Seq<char>>;

/// The result of `rustpython_parser::parse(source, Mode::Expression, "<string>")`, in the
/// same text forms.
pub uninterp spec fn expression_text(source: Seq<char>) -> Result<Seq<char>, Seq<char>>;

/// Calls `rustpython_parser::parse` in module mode. Claimed: the result is the name
/// `module_text` applied to the source, the parse deciding alone; what the text holds is
/// not claimed here.
#[verifier::external_body]
fn parse_module_text(source: &str) -> (r: Result<String, String>)
    ensures
        (module_text(source@) == match r {
            Ok(t) => Ok(t@),
            Err(e) => Err(e@),
        }),
{
    match rustpython_parser::parse(source, rustpython_parser::Mode::Module, "<string>") {
        Ok(tree) => Ok(format!("{:?}", tree)),
        Err(e) => Err(format!("{}", e)),
    }
}

/// Calls `rustpython_parser::parse` in expression mode. Claimed: the result is the name
/// `expression_text` applied to the source; what the text holds is not claimed here.
#[verifier::external_body]
fn parse_expression_text(source: &str) -> (r: Result<String, String>)
    ensures
        (expression_text(source@) == match r {
            Ok(t) => Ok(t@),
            Err(e) => Err(e@),
        }),
{
    match rustpython_parser::parse(source, rustpython_parser::Mode::Expression, "<string>") {
        Ok(tree) => Ok(format!("{:?}", tree)),
        Err(e) => Err(format!("{}", e)),
    }
}

/// The result of std's `char::from_u32`.
pub uninterp spec fn char_for(v: u32) -> Option<char>;

/// Calls std's `char::from_u32`. Claimed, as its documentation says: a character exactly
/// for a Unicode scalar value, and that character has the value; the result is the name
/// `char_for` applied to the value.
#[verifier::external_body]
fn char_from_u32(v: u32) -> (r: Option<char>)
    ensures
        r == char_for(v),
        r is Some <==> (v <= 0xD7FF || (0xE000 <= v && v <= 0x10FFFF)),
        r matches Some(c) ==> c as u32 == v,
{
    char::from_u32(v)
}

// ---------------------------------------------------------------------------------------
// Sizes of text-form values, for recursion over them.

pub open spec fn ssize(d: SNode) -> nat
    decreases d,
{
    match d {
        SNode::List(vs) => 1 + ssizes(vs),
        SNode::Call(_, vs) => 1 + ssizes(vs),
        SNode::Record(_, fs) => 1 + fsizes(fs),
        _ => 1,
    }
}

pub open spec fn ssizes(vs: Seq<SNode>) -> nat
    decreases vs,
{
    if vs.len() == 0 {
        0
    } else {
        ssize(vs[0]) + ssizes(vs.subrange(1, vs.len() as int))
    }
}

pub open spec fn fsizes(fs: Seq<(Seq<char>, SNode)>) -> nat
    decreases fs,
{
    if fs.len() == 0 {
        0
    } else {
        ssize(fs[0].1) + fsizes(fs.subrange(1, fs.len() as int))
    }
}

proof fn lemma_ssizes_elem(vs: Seq<SNode>, i: int)
    requires
        0 <= i < vs.len(),
    ensures
        ssize(vs[i]) <= ssizes(vs),
    decreases vs.len(),
{
    if i > 0 {
        lemma_ssizes_elem(vs.subrange(1, vs.len() as int), i - 1);
    }
}

// ---------------------------------------------------------------------------------------
// Reading the shapes of the text form.

/// The first field of the given name.
pub open spec fn fld(fs: Seq<(Seq<char>, SNode)>, name: Seq<char>) -> Option<SNode>
    decreases fs.len(),
{
    if fs.len() == 0 {
        None
    } else if fs[0].0 == name {
        Some(fs[0].1)
    } else {
        fld(fs.subrange(1, fs.len() as int), name)
    }
}

proof fn lemma_fld_size(fs: Seq<(Seq<char>, SNode)>, name: Seq<char>)
    ensures
        fld(fs, name) matches Some(x) ==> ssize(x) <= fsizes(fs),
    decreases fs.len(),
{
    if fs.len() > 0 && fs[0].0 != name {
        lemma_fld_size(fs.subrange(1, fs.len() as int), name);
    }
}

/// The fields of a variant written `name(Record { ... })`.
pub open spec fn variant(d: SNode, name: Seq<char>) -> Option<Seq<(Seq<char>, SNode)>> {
    match d {
        SNode::Call(n, args) => if n == name && args.len() == 1 && args[0] is Record {
            Some(args[0]->Record_1)
        } else {
            None
        },
        _ => None,
    }
}

/// The one argument of a tuple variant written `name(x)`.
pub open spec fn call1(d: SNode, name: Seq<char>) -> Option<SNode> {
    match d {
        SNode::Call(n, args) => if n == name && args.len() == 1 {
            Some(args[0])
        } else {
            None
        },
        _ => None,
    }
}

/// A list field.
pub open spec fn list_fld(fs: Seq<(Seq<char>, SNode)>, name: Seq<char>) -> Option<Seq<SNode>> {
    match fld(fs, name) {
        Some(SNode::List(vs)) => Some(vs),
        _ => None,
    }
}

/// An optional value: `None`, or `Some(x)`.
pub open spec fn opt(d: SNode) -> Option<Option<SNode>> {
    if d == SNode::Word("None"@) {
        Some(None)
    } else {
        match call1(d, "Some"@) {
            Some(x) => Some(Some(x)),
            None => None,
        }
    }
}

/// The value of a hexadecimal digit.
pub open spec fn hex_digit(c: char) -> Option<nat> {
    if '0' <= c <= '9' {
        Some((c as nat - '0' as nat) as nat)
    } else if 'a' <= c <= 'f' {
        Some((c as nat - 'a' as nat + 10) as nat)
    } else if 'A' <= c <= 'F' {
        Some((c as nat - 'A' as nat + 10) as nat)
    } else {
        None
    }
}

/// The value of a string of hexadecimal digits, if every character is one.
pub open spec fn hex_value(s: Seq<char>) -> Option<nat>
    decreases s.len(),
{
    if s.len() == 0 {
        Some(0)
    } else {
        match (hex_value(s.drop_last()), hex_digit(s.last())) {
            (Some(v), Some(d)) => Some(v * 16 + d),
            _ => None,
        }
    }
}

/// Where the first `}` from `i` on stands, or the length.
pub open spec fn brace_end(r: Seq<char>, i: int) -> int
    decreases r.len() - i,
{
    if i < 0 || i >= r.len() || r[i] == '}' {
        i
    } else {
        brace_end(r, i + 1)
    }
}

/// The character of a Unicode scalar value.
pub open spec fn scalar(v: nat) -> Option<char> {
    if v <= 0x10FFFF {
        char_for(v as u32)
    } else {
        None
    }
}

/// The character a one-letter escape stands for.
pub open spec fn escaped(c: char) -> char {
    if c == 'n' {
        '\n'
    } else if c == 't' {
        '\t'
    } else if c == 'r' {
        '\r'
    } else if c == '0' {
        '\0'
    } else {
        c
    }
}

/// The `\u{...}` escape at the start of `r`: the character and where the escape ends.
pub open spec fn unicode_escape(r: Seq<char>) -> Option<(char, int)> {
    if r.len() >= 3 && r[0] == '\\' && r[1] == 'u' && r[2] == '{' {
        let close = brace_end(r, 3);
        if close < r.len() && close <= 9 {
            match hex_value(r.subrange(3, close)) {
                Some(v) => match scalar(v) {
                    Some(c) => Some((c, close + 1)),
                    None => None,
                },
                None => None,
            }
        } else {
            None
        }
    } else {
        None
    }
}

/// The characters of a quoted string, its escapes undone.
pub open spec fn unescape(r: Seq<char>) -> Seq<char>
    decreases r.len(),
{
    if r.len() == 0 {
        Seq::empty()
    } else if r[0] == '\\' && r.len() >= 2 {
        match unicode_escape(r) {
            Some((c, n)) => if 2 <= n <= r.len() {
                seq![c] + unescape(r.subrange(n, r.len() as int))
            } else {
                seq![escaped(r[1])] + unescape(r.subrange(2, r.len() as int))
            },
            None => seq![escaped(r[1])] + unescape(r.subrange(2, r.len() as int)),
        }
    } else {
        seq![r[0]] + unescape(r.subrange(1, r.len() as int))
    }
}

/// A string written `Identifier("...")` or a quoted string, as its characters.
pub open spec fn quoted_text(d: SNode) -> Option<Seq<char>> {
    match d {
        SNode::Quoted(r) => Some(unescape(r)),
        _ => None,
    }
}

pub open spec fn ident(d: SNode) -> Option<Seq<char>> {
    match call1(d, "Identifier"@) {
        Some(q) => quoted_text(q),
        None => None,
    }
}

// ---------------------------------------------------------------------------------------
// The same readings, executable.

fn name_is(n: &Vec<char>, s: &str) -> (r: bool)
    ensures
        r == (n@ == s@),
{
    let m = s.unicode_len();
    if n.len() != m {
        return false;
    }
    let mut i: usize = 0;
    while i < m
        invariant
            0 <= i <= m,
            m == s@.len(),
            n.len() == m,
            forall|k: int| 0 <= k < i ==> n@[k] == s@[k],
        decreases m - i,
    {
        if n[i] != s.get_char(i) {
            return false;
        }
        i += 1;
    }
    assert(n@ =~= s@);
    true
}

fn variant_exec<'a>(d: &'a Node, name: &str) -> (r: Option<&'a Vec<(Vec<char>, Node)>>)
    ensures
        r matches Some(fs) ==> variant(d@, name@) == Some(fviews(fs@)) && fsizes(fviews(fs@)) < ssize(d@),
        r is None ==> variant(d@, name@) is None,
{
    match d {
        Node::Call(n, args) => {
            if name_is(n, name) && args.len() == 1 {
                match &args[0] {
                    Node::Record(rn, fs) => {
                        proof {
                            let vs = nviews(args@);
                            assert(vs[0] == nview(args@[0]));
                            assert(nview(args@[0]) == SNode::Record(rn@, fviews(fs@)));
                            assert(vs.subrange(1, 1) =~= Seq::<SNode>::empty());
                            assert(ssizes(vs) == ssize(vs[0]) + ssizes(vs.subrange(1, 1)));
                            assert(ssizes(Seq::<SNode>::empty()) == 0);
                        }
                        Some(fs)
                    },
                    _ => {
                        assert(nviews(args@)[0] == nview(args@[0]));
                        None
                    },
                }
            } else {
                None
            }
        },
        _ => None,
    }
}

fn call1_exec<'a>(d: &'a Node, name: &str) -> (r: Option<&'a Node>)
    ensures
        r matches Some(x) ==> call1(d@, name@) == Some(x@) && ssize(x@) < ssize(d@),
        r is None ==> call1(d@, name@) is None,
{
    match d {
        Node::Call(n, args) => {
            if name_is(n, name) && args.len() == 1 {
                proof {
                    let vs = nviews(args@);
                    assert(vs[0] == nview(args@[0]));
                    assert(vs.subrange(1, 1) =~= Seq::<SNode>::empty());
                }
                Some(&args[0])
            } else {
                None
            }
        },
        _ => None,
    }
}

fn fld_exec<'a>(fs: &'a Vec<(Vec<char>, Node)>, name: &str) -> (r: Option<&'a Node>)
    ensures
        r matches Some(x) ==> fld(fviews(fs@), name@) == Some(x@) && ssize(x@) <= fsizes(fviews(fs@)),
        r is None ==> fld(fviews(fs@), name@) is None,
{
    let ghost all = fviews(fs@);
    proof {
        lemma_fld_size(all, name@);
    }
    let mut i: usize = 0;
    assert(all.subrange(0, all.len() as int) =~= all);
    while i < fs.len()
        invariant
            0 <= i <= fs.len(),
            all == fviews(fs@),
            all.len() == fs.len(),
            fld(all, name@) == fld(all.subrange(i as int, all.len() as int), name@),
        decreases fs.len() - i,
    {
        let ghost rest = all.subrange(i as int, all.len() as int);
        assert(rest[0] == all[i as int]);
        assert(all[i as int] == (fs@[i as int].0@, nview(fs@[i as int].1)));
        assert(rest.subrange(1, rest.len() as int) =~= all.subrange(i + 1, all.len() as int));
        if name_is(&fs[i].0, name) {
            assert(rest[0].0 == name@);
            assert(fld(rest, name@) == Some(rest[0].1));
            proof {
                lemma_fld_size(all, name@);
            }
            return Some(&fs[i].1);
        }
        i += 1;
    }
    None
}

fn list_exec<'a>(d: &'a Node) -> (r: Option<&'a Vec<Node>>)
    ensures
        r matches Some(vs) ==> d@ == SNode::List(nviews(vs@)),
        r is None ==> !(d@ is List),
{
    match d {
        Node::List(vs) => Some(vs),
        _ => None,
    }
}

fn list_fld_exec<'a>(fs: &'a Vec<(Vec<char>, Node)>, name: &str) -> (r: Option<&'a Vec<Node>>)
    ensures
        r matches Some(vs) ==> list_fld(fviews(fs@), name@) == Some(nviews(vs@)) && ssizes(nviews(vs@)) < fsizes(
            fviews(fs@),
        ),
        r is None ==> list_fld(fviews(fs@), name@) is None,
{
    match fld_exec(fs, name) {
        Some(x) => list_exec(x),
        None => None,
    }
}

fn opt_exec<'a>(d: &'a Node) -> (r: Option<Option<&'a Node>>)
    ensures
        r matches Some(Some(x)) ==> opt(d@) == Some(Some(x@)) && ssize(x@) < ssize(d@),
        r matches Some(None) ==> opt(d@) == Some(None::<SNode>),
        r is None ==> opt(d@) is None,
{
    if let Node::Word(w) = d {
        if name_is(w, "None") {
            return Some(None);
        }
    }
    match call1_exec(d, "Some") {
        Some(x) => Some(Some(x)),
        None => None,
    }
}

fn hex_digit_exec(c: char) -> (r: Option<u32>)
    ensures
        r matches Some(v) ==> hex_digit(c) == Some(v as nat),
        r is None ==> hex_digit(c) is None,
{
    if '0' <= c && c <= '9' {
        Some((c as u32) - ('0' as u32))
    } else if 'a' <= c && c <= 'f' {
        Some((c as u32) - ('a' as u32) + 10)
    } else if 'A' <= c && c <= 'F' {
        Some((c as u32) - ('A' as u32) + 10)
    } else {
        None
    }
}

/// Reads the `\u{...}` escape starting at `i`.
fn unicode_escape_exec(r: &Vec<char>, i: usize) -> (res: Option<(char, usize)>)
    requires
        i <= r.len(),
    ensures
        res matches Some((c, n)) ==> unicode_escape(r@.subrange(i as int, r.len() as int)) == Some((c, n - i))
            && i + 2 <= n <= r.len(),
        res is None ==> unicode_escape(r@.subrange(i as int, r.len() as int)) is None,
{
    let ghost s = r@.subrange(i as int, r.len() as int);
    if !(r.len() - i >= 3 && r[i] == '\\' && r[i + 1] == 'u' && r[i + 2] == '{') {
        return None;
    }
    let mut j = i + 3;
    while j < r.len() && r[j] != '}'
        invariant
            i + 3 <= j <= r.len(),
            s == r@.subrange(i as int, r.len() as int),
            brace_end(s, j - i) == brace_end(s, 3),
        decreases r.len() - j,
    {
        j += 1;
    }
    assert(brace_end(s, j - i) == j - i);
    if j >= r.len() || j - i > 9 {
        return None;
    }
    let ghost digits = s.subrange(3, j - i);
    let mut v: u32 = 0;
    let mut k = i + 3;
    while k < j
        invariant
            i + 3 <= k <= j,
            j - i <= 9,
            j < r.len(),
            s == r@.subrange(i as int, r.len() as int),
            s.len() >= 3 && s[0] == '\\' && s[1] == 'u' && s[2] == '{',
            brace_end(s, 3) == j - i,
            digits == s.subrange(3, j - i),
            hex_value(digits.subrange(0, k - i - 3)) == Some(v as nat),
            v < pow16(k - i - 3),
            k - i - 3 < 6 || k == j,
        decreases j - k,
    {
        assert(digits.subrange(0, k + 1 - i - 3).drop_last() =~= digits.subrange(0, k - i - 3));
        assert(digits.subrange(0, k + 1 - i - 3).last() == r@[k as int]);
        match hex_digit_exec(r[k]) {
            Some(d) => {
                proof {
                    lemma_pow16(k - i - 3);
                }
                v = v * 16 + d;
            },
            None => {
                proof {
                    assert(digits[k - i - 3] == r@[k as int]);
                    lemma_hex_none(digits, k - i - 3);
                }
                return None;
            },
        }
        k += 1;
    }
    assert(digits.subrange(0, j - i - 3) =~= digits);
    match char_from_u32(v) {
        Some(c) => {
            Some((c, j + 1))
        },
        None => None,
    }
}

pub open spec fn pow16(n: int) -> nat
    decreases n,
{
    if n <= 0 {
        1
    } else {
        16 * pow16(n - 1)
    }
}

proof fn lemma_pow16(n: int)
    requires
        0 <= n < 6,
    ensures
        pow16(n + 1) <= 0x1000000,
        16 * pow16(n) == pow16(n + 1),
{
    reveal_with_fuel(pow16, 8);
    assert(pow16(6) == 0x1000000);
}

proof fn lemma_hex_none(digits: Seq<char>, k: int)
    requires
        0 <= k < digits.len(),
        hex_digit(digits[k]) is None,
    ensures
        hex_value(digits) is None,
    decreases digits.len(),
{
    if k < digits.len() - 1 {
        lemma_hex_none(digits.drop_last(), k);
    }
}

/// Undoes the escapes of a quoted string.
fn unescape_exec(r: &Vec<char>) -> (out: String)
    ensures
        out@ == unescape(r@),
{
    let mut out = String::new();
    let mut i: usize = 0;
    assert(r@.subrange(0, r.len() as int) =~= r@);
    assert(out@ + unescape(r@) =~= unescape(r@));
    while i < r.len()
        invariant
            0 <= i <= r.len(),
            out@ + unescape(r@.subrange(i as int, r.len() as int)) == unescape(r@),
        decreases r.len() - i,
    {
        let ghost s = r@.subrange(i as int, r.len() as int);
        let ghost before = out@;
        if r[i] == '\\' && r.len() - i >= 2 {
            match unicode_escape_exec(r, i) {
                Some((c, n)) => {
                    push_char(&mut out, c);
                    assert(s.subrange(n - i, s.len() as int) =~= r@.subrange(n as int, r.len() as int));
                    assert(out@ + unescape(r@.subrange(n as int, r.len() as int)) =~= before + unescape(s));
                    i = n;
                },
                None => {
                    let c = r[i + 1];
                    let e = if c == 'n' {
                        '\n'
                    } else if c == 't' {
                        '\t'
                    } else if c == 'r' {
                        '\r'
                    } else if c == '0' {
                        '\0'
                    } else {
                        c
                    };
                    push_char(&mut out, e);
                    assert(s[1] == c);
                    assert(s.subrange(2, s.len() as int) =~= r@.subrange(i + 2, r.len() as int));
                    assert(out@ + unescape(r@.subrange(i + 2, r.len() as int)) =~= before + unescape(s));
                    i = i + 2;
                },
            }
        } else {
            push_char(&mut out, r[i]);
            assert(s.subrange(1, s.len() as int) =~= r@.subrange(i + 1, r.len() as int));
            assert(out@ + unescape(r@.subrange(i + 1, r.len() as int)) =~= before + unescape(s));
            i = i + 1;
        }
    }
    assert(r@.subrange(r.len() as int, r.len() as int) =~= Seq::<char>::empty());
    assert(out@ + Seq::<char>::empty() =~= out@);
    out
}

fn quoted_exec(d: &Node) -> (r: Option<String>)
    ensures
        r matches Some(s) ==> quoted_text(d@) == Some(s@),
        r is None ==> quoted_text(d@) is None,
{
    match d {
        Node::Quoted(q) => Some(unescape_exec(q)),
        _ => None,
    }
}

fn ident_exec(d: &Node) -> (r: Option<String>)
    ensures
        r matches Some(s) ==> ident(d@) == Some(s@),
        r is None ==> ident(d@) is None,
{
    match call1_exec(d, "Identifier") {
        Some(q) => quoted_exec(q),
        None => None,
    }
}

} // verus!

verus! {

// ---------------------------------------------------------------------------------------
// What a text-form value describes in the library's syntax tree.

/// The operator a word names.
pub open spec fn operator_of(d: SNode) -> Option<Operator> {
    match d {
        SNode::Word(w) => if w == "Add"@ {
            Some(Operator::Add)
        } else if w == "Sub"@ {
            Some(Operator::Sub)
        } else if w == "Mult"@ {
            Some(Operator::Mult)
        } else if w == "MatMult"@ {
            Some(Operator::MatMult)
        } else if w == "Div"@ {
            Some(Operator::Div)
        } else if w == "Mod"@ {
            Some(Operator::Mod)
        } else if w == "Pow"@ {
            Some(Operator::Pow)
        } else if w == "LShift"@ {
            Some(Operator::LShift)
        } else if w == "RShift"@ {
            Some(Operator::RShift)
        } else if w == "BitOr"@ {
            Some(Operator::BitOr)
        } else if w == "BitXor"@ {
            Some(Operator::BitXor)
        } else if w == "BitAnd"@ {
            Some(Operator::BitAnd)
        } else if w == "FloorDiv"@ {
            Some(Operator::FloorDiv)
        } else {
            None
        },
        _ => None,
    }
}

/// The unary operator a word names.
pub open spec fn unary_of(d: SNode) -> Option<UnaryOp> {
    match d {
        SNode::Word(w) => if w == "Invert"@ {
            Some(UnaryOp::Invert)
        } else if w == "Not"@ {
            Some(UnaryOp::Not)
        } else if w == "UAdd"@ {
            Some(UnaryOp::UAdd)
        } else if w == "USub"@ {
            Some(UnaryOp::USub)
        } else {
            None
        },
        _ => None,
    }
}

/// A word of decimal digits.
pub open spec fn all_digits(w: Seq<char>) -> bool {
    w.len() > 0 && forall|i: int| 0 <= i < w.len() ==> is_digit(#[trigger] w[i])
}

/// An integer as `to_i64` gives it: its value where it fits in an `i64`.
pub open spec fn int_of(w: Seq<char>) -> Option<i64> {
    if digits_value(w) <= i64::MAX {
        Some(digits_value(w) as i64)
    } else {
        None
    }
}

/// The literal a value describes: `None`, `Bool(..)`, `Str(..)`, `Bytes(..)`, `Int(..)`,
/// `Tuple([..])`, `Float(..)`, and any other literal as `Other`.
pub open spec fn describes_const(d: SNode, c: Constant) -> bool
    decreases c, 0nat,
{
    if d == SNode::Word("None"@) {
        c is NoneValue
    } else if call1(d, "Bool"@) is Some {
        let x = call1(d, "Bool"@).unwrap();
        if x == SNode::Word("true"@) {
            c == Constant::Bool(true)
        } else if x == SNode::Word("false"@) {
            c == Constant::Bool(false)
        } else {
            false
        }
    } else if call1(d, "Str"@) is Some {
        match quoted_text(call1(d, "Str"@).unwrap()) {
            Some(s) => c matches Constant::Str(t) && t@ == s,
            None => false,
        }
    } else if call1(d, "Bytes"@) is Some {
        c is Bytes
    } else if call1(d, "Int"@) is Some {
        match call1(d, "Int"@).unwrap() {
            SNode::Word(w) => all_digits(w) && c == Constant::Int(int_of(w)),
            _ => false,
        }
    } else if call1(d, "Tuple"@) is Some {
        match call1(d, "Tuple"@).unwrap() {
            SNode::List(xs) => c matches Constant::Tuple(cs) && describes_consts(xs, cs@),
            _ => false,
        }
    } else if call1(d, "Float"@) is Some {
        c is Float
    } else {
        c is Other
    }
}

pub open spec fn describes_consts(xs: Seq<SNode>, cs: Seq<Constant>) -> bool
    decreases cs, 1nat,
{
    xs.len() == cs.len() && forall|i: int| 0 <= i < cs.len() ==> describes_const(xs[i], #[trigger] cs[i])
}

/// An expression field.
pub open spec fn fe(fs: Seq<(Seq<char>, SNode)>, name: Seq<char>, e: Expr) -> bool
    decreases e, 1nat,
{
    match fld(fs, name) {
        Some(x) => describes_expr(x, e),
        None => false,
    }
}

/// A field holding a list of expressions.
pub open spec fn fes(fs: Seq<(Seq<char>, SNode)>, name: Seq<char>, es: Seq<Expr>) -> bool
    decreases es, 1nat,
{
    match list_fld(fs, name) {
        Some(xs) => describes_exprs(xs, es),
        None => false,
    }
}

pub open spec fn describes_exprs(xs: Seq<SNode>, es: Seq<Expr>) -> bool
    decreases es, 0nat,
{
    xs.len() == es.len() && forall|i: int| 0 <= i < es.len() ==> describes_expr(xs[i], #[trigger] es[i])
}

/// An optional expression: `None`, or `Some(..)` of one.
pub open spec fn describes_opt(d: SNode, o: Option<Expr>) -> bool
    decreases o, 0nat,
{
    match opt(d) {
        Some(None) => o is None,
        Some(Some(x)) => match o {
            Some(e) => describes_expr(x, e),
            None => false,
        },
        None => false,
    }
}

pub open spec fn describes_optb(d: SNode, o: Option<Box<Expr>>) -> bool
    decreases o, 0nat,
{
    match opt(d) {
        Some(None) => o is None,
        Some(Some(x)) => match o {
            Some(e) => describes_expr(x, *e),
            None => false,
        },
        None => false,
    }
}

pub open spec fn describes_keys(xs: Seq<SNode>, ks: Seq<Option<Expr>>) -> bool
    decreases ks, 1nat,
{
    xs.len() == ks.len() && forall|i: int| 0 <= i < ks.len() ==> describes_opt(xs[i], #[trigger] ks[i])
}

/// A comprehension clause: a record with `target`, `iter` and `ifs`.
pub open spec fn describes_comp(d: SNode, c: Comprehension) -> bool
    decreases c, 0nat,
{
    match d {
        SNode::Record(_, f) => fe(f, "target"@, c.target) && fe(f, "iter"@, c.iter) && fes(f, "ifs"@, c.ifs@),
        _ => false,
    }
}

pub open spec fn describes_comps(xs: Seq<SNode>, cs: Seq<Comprehension>) -> bool
    decreases cs, 1nat,
{
    xs.len() == cs.len() && forall|i: int| 0 <= i < cs.len() ==> describes_comp(xs[i], #[trigger] cs[i])
}

/// The fields of an argument's definition: `ArgWithDefault { def: Arg { .. }, .. }`.
pub open spec fn arg_def(d: SNode) -> Option<Seq<(Seq<char>, SNode)>> {
    match d {
        SNode::Record(_, f) => match fld(f, "def"@) {
            Some(SNode::Record(_, g)) => Some(g),
            _ => None,
        },
        _ => None,
    }
}

/// The name of an argument.
pub open spec fn arg_name(d: SNode) -> Option<Seq<char>> {
    match arg_def(d) {
        Some(g) => match fld(g, "arg"@) {
            Some(x) => ident(x),
            None => None,
        },
        None => None,
    }
}

/// The positional arguments of an `Arguments` record.
pub open spec fn args_of(d: SNode) -> Option<Seq<SNode>> {
    match d {
        SNode::Record(_, f) => list_fld(f, "args"@),
        _ => None,
    }
}

/// The names of the positional arguments.
pub open spec fn describes_names(d: SNode, ns: Seq<String>) -> bool {
    match args_of(d) {
        Some(xs) => xs.len() == ns.len() && forall|i: int|
            0 <= i < ns.len() ==> arg_name(xs[i]) == Some((#[trigger] ns[i])@),
        None => false,
    }
}

/// A parameter: an argument's name and optional annotation.
pub open spec fn describes_param(d: SNode, p: Param) -> bool {
    arg_name(d) == Some(p.name@) && match arg_def(d) {
        Some(g) => match fld(g, "annotation"@) {
            Some(a) => describes_opt(a, p.annotation),
            None => false,
        },
        None => false,
    }
}

/// The parameters of an `Arguments` record: its positional arguments.
pub open spec fn describes_params(d: SNode, ps: Seq<Param>) -> bool {
    match args_of(d) {
        Some(xs) => xs.len() == ps.len() && forall|i: int|
            0 <= i < ps.len() ==> describes_param(xs[i], #[trigger] ps[i]),
        None => false,
    }
}

/// The operator in field `op`.
pub open spec fn f_op(f: Seq<(Seq<char>, SNode)>) -> Option<Operator> {
    match fld(f, "op"@) {
        Some(o) => operator_of(o),
        None => None,
    }
}

/// The unary operator in field `op`.
pub open spec fn f_unary(f: Seq<(Seq<char>, SNode)>) -> Option<UnaryOp> {
    match fld(f, "op"@) {
        Some(o) => unary_of(o),
        None => None,
    }
}

/// The identifier in a field.
pub open spec fn f_ident(f: Seq<(Seq<char>, SNode)>, name: Seq<char>) -> Option<Seq<char>> {
    match fld(f, name) {
        Some(x) => ident(x),
        None => None,
    }
}

/// The literal in field `value`.
pub open spec fn fconst(f: Seq<(Seq<char>, SNode)>, c: Constant) -> bool {
    match fld(f, "value"@) {
        Some(v) => describes_const(v, c),
        None => false,
    }
}

/// The argument names in field `args`.
pub open spec fn fnames(f: Seq<(Seq<char>, SNode)>, ns: Seq<String>) -> bool {
    match fld(f, "args"@) {
        Some(a) => describes_names(a, ns),
        None => false,
    }
}

/// The dictionary keys in field `keys`.
pub open spec fn fkeys(f: Seq<(Seq<char>, SNode)>, ks: Seq<Option<Expr>>) -> bool
    decreases ks, 2nat,
{
    match list_fld(f, "keys"@) {
        Some(xs) => describes_keys(xs, ks),
        None => false,
    }
}

/// The comprehension clauses in field `generators`.
pub open spec fn fcomps(f: Seq<(Seq<char>, SNode)>, gs: Seq<Comprehension>) -> bool
    decreases gs, 2nat,
{
    match list_fld(f, "generators"@) {
        Some(xs) => describes_comps(xs, gs),
        None => false,
    }
}

/// The optional expression in field `value`.
pub open spec fn foptb(f: Seq<(Seq<char>, SNode)>, o: Option<Box<Expr>>) -> bool
    decreases o, 1nat,
{
    match fld(f, "value"@) {
        Some(x) => describes_optb(x, o),
        None => false,
    }
}

/// The expression a value describes: one variant `Name(ExprName { .. })` for each kind of
/// expression, its fields read by name.
pub open spec fn describes_expr(d: SNode, e: Expr) -> bool
    decreases e, 0nat,
{
    if variant(d, "Constant"@) is Some {
        let f = variant(d, "Constant"@).unwrap();
        e matches Expr::Constant(c) && fconst(f, c)
    } else if variant(d, "Name"@) is Some {
        let f = variant(d, "Name"@).unwrap();
        e matches Expr::Name(n) && f_ident(f, "id"@) == Some(n@)
    } else if variant(d, "BinOp"@) is Some {
        let f = variant(d, "BinOp"@).unwrap();
        e matches Expr::BinOp(l, op, r) && fe(f, "left"@, *l) && f_op(f) == Some(op) && fe(f, "right"@, *r)
    } else if variant(d, "UnaryOp"@) is Some {
        let f = variant(d, "UnaryOp"@).unwrap();
        e matches Expr::UnaryOp(op, x) && f_unary(f) == Some(op) && fe(f, "operand"@, *x)
    } else if variant(d, "BoolOp"@) is Some {
        let f = variant(d, "BoolOp"@).unwrap();
        e matches Expr::BoolOp(vs) && fes(f, "values"@, vs@)
    } else if variant(d, "Compare"@) is Some {
        let f = variant(d, "Compare"@).unwrap();
        e matches Expr::Compare(l, cs) && fe(f, "left"@, *l) && fes(f, "comparators"@, cs@)
    } else if variant(d, "Call"@) is Some {
        let f = variant(d, "Call"@).unwrap();
        e matches Expr::Call(g, args) && fe(f, "func"@, *g) && fes(f, "args"@, args@)
    } else if variant(d, "List"@) is Some {
        let f = variant(d, "List"@).unwrap();
        e matches Expr::List(vs) && fes(f, "elts"@, vs@)
    } else if variant(d, "Tuple"@) is Some {
        let f = variant(d, "Tuple"@).unwrap();
        e matches Expr::Tuple(vs) && fes(f, "elts"@, vs@)
    } else if variant(d, "Set"@) is Some {
        let f = variant(d, "Set"@).unwrap();
        e matches Expr::SetExpr(vs) && fes(f, "elts"@, vs@)
    } else if variant(d, "Dict"@) is Some {
        let f = variant(d, "Dict"@).unwrap();
        e matches Expr::Dict(ks, vs) && fkeys(f, ks@) && fes(f, "values"@, vs@)
    } else if variant(d, "ListComp"@) is Some {
        let f = variant(d, "ListComp"@).unwrap();
        e matches Expr::ListComp(x, gs) && fe(f, "elt"@, *x) && fcomps(f, gs@)
    } else if variant(d, "SetComp"@) is Some {
        let f = variant(d, "SetComp"@).unwrap();
        e matches Expr::SetComp(x, gs) && fe(f, "elt"@, *x) && fcomps(f, gs@)
    } else if variant(d, "GeneratorExp"@) is Some {
        let f = variant(d, "GeneratorExp"@).unwrap();
        e matches Expr::GeneratorExp(x, gs) && fe(f, "elt"@, *x) && fcomps(f, gs@)
    } else if variant(d, "DictComp"@) is Some {
        let f = variant(d, "DictComp"@).unwrap();
        e matches Expr::DictComp(k, v, gs) && fe(f, "key"@, *k) && fe(f, "value"@, *v) && fcomps(f, gs@)
    } else if variant(d, "Lambda"@) is Some {
        let f = variant(d, "Lambda"@).unwrap();
        e matches Expr::Lambda(ns, b) && fnames(f, ns@) && fe(f, "body"@, *b)
    } else if variant(d, "IfExp"@) is Some {
        let f = variant(d, "IfExp"@).unwrap();
        e matches Expr::IfExp(t, b, o) && fe(f, "test"@, *t) && fe(f, "body"@, *b) && fe(f, "orelse"@, *o)
    } else if variant(d, "Subscript"@) is Some {
        let f = variant(d, "Subscript"@).unwrap();
        e matches Expr::Subscript(v, s) && fe(f, "value"@, *v) && fe(f, "slice"@, *s)
    } else if variant(d, "Attribute"@) is Some {
        let f = variant(d, "Attribute"@).unwrap();
        e matches Expr::Attribute(v, a) && fe(f, "value"@, *v) && f_ident(f, "attr"@) == Some(a@)
    } else if variant(d, "Slice"@) is Some {
        e is Slice
    } else if variant(d, "Await"@) is Some {
        let f = variant(d, "Await"@).unwrap();
        e matches Expr::Await(v) && fe(f, "value"@, *v)
    } else if variant(d, "Yield"@) is Some {
        let f = variant(d, "Yield"@).unwrap();
        e matches Expr::Yield(o) && foptb(f, o)
    } else if variant(d, "YieldFrom"@) is Some {
        let f = variant(d, "YieldFrom"@).unwrap();
        e matches Expr::YieldFrom(v) && fe(f, "value"@, *v)
    } else if variant(d, "Starred"@) is Some {
        let f = variant(d, "Starred"@).unwrap();
        e matches Expr::Starred(v) && fe(f, "value"@, *v)
    } else if variant(d, "NamedExpr"@) is Some {
        let f = variant(d, "NamedExpr"@).unwrap();
        e matches Expr::NamedExpr(v) && fe(f, "value"@, *v)
    } else if variant(d, "FormattedValue"@) is Some {
        let f = variant(d, "FormattedValue"@).unwrap();
        e matches Expr::FormattedValue(v) && fe(f, "value"@, *v)
    } else if variant(d, "JoinedStr"@) is Some {
        e is JoinedStr
    } else {
        false
    }
}

} // verus!

verus! {

/// A field holding an optional expression.
pub open spec fn fopt(f: Seq<(Seq<char>, SNode)>, name: Seq<char>, o: Option<Expr>) -> bool {
    match fld(f, name) {
        Some(x) => describes_opt(x, o),
        None => false,
    }
}

/// The parameters in field `args`.
pub open spec fn fparams(f: Seq<(Seq<char>, SNode)>, ps: Seq<Param>) -> bool {
    match fld(f, "args"@) {
        Some(a) => describes_params(a, ps),
        None => false,
    }
}

/// A field holding a list of statements.
pub open spec fn fss(f: Seq<(Seq<char>, SNode)>, name: Seq<char>, ss: Seq<Stmt>) -> bool
    decreases ss, 2nat,
{
    match list_fld(f, name) {
        Some(xs) => describes_stmts(xs, ss),
        None => false,
    }
}

pub open spec fn describes_stmts(xs: Seq<SNode>, ss: Seq<Stmt>) -> bool
    decreases ss, 1nat,
{
    xs.len() == ss.len() && forall|i: int| 0 <= i < ss.len() ==> describes_stmt(xs[i], #[trigger] ss[i])
}

/// The items of a `with`: records whose `context_expr` is the expression.
pub open spec fn fwiths(f: Seq<(Seq<char>, SNode)>, es: Seq<Expr>) -> bool {
    match list_fld(f, "items"@) {
        Some(xs) => xs.len() == es.len() && forall|i: int| 0 <= i < es.len() ==> with_item(xs[i], #[trigger] es[i]),
        None => false,
    }
}

/// One item of a `with`: a record whose `context_expr` is the expression.
pub open spec fn with_item(d: SNode, e: Expr) -> bool {
    match d {
        SNode::Record(_, g) => fe(g, "context_expr"@, e),
        _ => false,
    }
}

/// The handlers of a `try`: variants `ExceptHandler(..)` whose `body` is the statements.
pub open spec fn fhandlers(f: Seq<(Seq<char>, SNode)>, hs: Seq<Vec<Stmt>>) -> bool
    decreases hs, 2nat,
{
    match list_fld(f, "handlers"@) {
        Some(xs) => xs.len() == hs.len() && forall|i: int|
            0 <= i < hs.len() ==> fhandler(xs[i], #[trigger] hs[i]),
        None => false,
    }
}

pub open spec fn fhandler(d: SNode, h: Vec<Stmt>) -> bool
    decreases h, 3nat,
{
    match variant(d, "ExceptHandler"@) {
        Some(g) => fss(g, "body"@, h@),
        None => false,
    }
}

/// The statement a value describes: one variant `Name(StmtName { .. })` for each kind of
/// statement read, and any other statement as `Other`.
pub open spec fn describes_stmt(d: SNode, s: Stmt) -> bool
    decreases s, 0nat,
{
    if variant(d, "FunctionDef"@) is Some {
        let f = variant(d, "FunctionDef"@).unwrap();
        s matches Stmt::FunctionDef { name, params, result, body } && f_ident(f, "name"@) == Some(name@)
            && fparams(f, params@) && fopt(f, "returns"@, result) && fss(f, "body"@, body@)
    } else if variant(d, "AsyncFunctionDef"@) is Some {
        let f = variant(d, "AsyncFunctionDef"@).unwrap();
        s matches Stmt::AsyncFunctionDef { name, body } && f_ident(f, "name"@) == Some(name@) && fss(
            f,
            "body"@,
            body@,
        )
    } else if variant(d, "ClassDef"@) is Some {
        let f = variant(d, "ClassDef"@).unwrap();
        s matches Stmt::ClassDef { name, body } && f_ident(f, "name"@) == Some(name@) && fss(f, "body"@, body@)
    } else if variant(d, "Return"@) is Some {
        let f = variant(d, "Return"@).unwrap();
        s matches Stmt::Return(o) && fopt(f, "value"@, o)
    } else if variant(d, "Assign"@) is Some {
        let f = variant(d, "Assign"@).unwrap();
        s matches Stmt::Assign { targets, value } && fes(f, "targets"@, targets@) && fe(f, "value"@, value)
    } else if variant(d, "AugAssign"@) is Some {
        let f = variant(d, "AugAssign"@).unwrap();
        s matches Stmt::AugAssign(v) && fe(f, "value"@, v)
    } else if variant(d, "AnnAssign"@) is Some {
        let f = variant(d, "AnnAssign"@).unwrap();
        s matches Stmt::AnnAssign { target, annotation, value } && fe(f, "target"@, target) && fe(
            f,
            "annotation"@,
            annotation,
        ) && fopt(f, "value"@, value)
    } else if variant(d, "For"@) is Some {
        let f = variant(d, "For"@).unwrap();
        s matches Stmt::For { target, iter, body, orelse } && fe(f, "target"@, target) && fe(f, "iter"@, iter)
            && fss(f, "body"@, body@) && fss(f, "orelse"@, orelse@)
    } else if variant(d, "While"@) is Some {
        let f = variant(d, "While"@).unwrap();
        s matches Stmt::While { test, body, orelse } && fe(f, "test"@, test) && fss(f, "body"@, body@) && fss(
            f,
            "orelse"@,
            orelse@,
        )
    } else if variant(d, "If"@) is Some {
        let f = variant(d, "If"@).unwrap();
        s matches Stmt::If { test, body, orelse } && fe(f, "test"@, test) && fss(f, "body"@, body@) && fss(
            f,
            "orelse"@,
            orelse@,
        )
    } else if variant(d, "With"@) is Some {
        let f = variant(d, "With"@).unwrap();
        s matches Stmt::With { items, body } && fwiths(f, items@) && fss(f, "body"@, body@)
    } else if variant(d, "Try"@) is Some {
        let f = variant(d, "Try"@).unwrap();
        s matches Stmt::Try { body, handlers } && fss(f, "body"@, body@) && fhandlers(f, handlers@)
    } else if variant(d, "Raise"@) is Some {
        s is Raise
    } else if variant(d, "Import"@) is Some {
        s is Import
    } else if variant(d, "ImportFrom"@) is Some {
        s is ImportFrom
    } else if variant(d, "Expr"@) is Some {
        let f = variant(d, "Expr"@).unwrap();
        s matches Stmt::Expr(v) && fe(f, "value"@, v)
    } else {
        s is Other
    }
}

/// The module a value describes: `Module(ModModule { body: [..], .. })`.
pub open spec fn describes_module(d: SNode, m: Module) -> bool {
    match variant(d, "Module"@) {
        Some(f) => fss(f, "body"@, m.body@),
        None => false,
    }
}

/// The expression a whole parse describes: `Expression(ModExpression { body: .., .. })`.
pub open spec fn describes_expression(d: SNode, e: Expr) -> bool {
    match variant(d, "Expression"@) {
        Some(f) => fe(f, "body"@, e),
        None => false,
    }
}

} // verus!

verus! {

// ---------------------------------------------------------------------------------------
// Reading the syntax tree out of the text form.

fn operator_exec(d: &Node) -> (r: Option<Operator>)
    ensures
        r == operator_of(d@),
{
    match d {
        Node::Word(w) => if name_is(w, "Add") {
            Some(Operator::Add)
        } else if name_is(w, "Sub") {
            Some(Operator::Sub)
        } else if name_is(w, "Mult") {
            Some(Operator::Mult)
        } else if name_is(w, "MatMult") {
            Some(Operator::MatMult)
        } else if name_is(w, "Div") {
            Some(Operator::Div)
        } else if name_is(w, "Mod") {
            Some(Operator::Mod)
        } else if name_is(w, "Pow") {
            Some(Operator::Pow)
        } else if name_is(w, "LShift") {
            Some(Operator::LShift)
        } else if name_is(w, "RShift") {
            Some(Operator::RShift)
        } else if name_is(w, "BitOr") {
            Some(Operator::BitOr)
        } else if name_is(w, "BitXor") {
            Some(Operator::BitXor)
        } else if name_is(w, "BitAnd") {
            Some(Operator::BitAnd)
        } else if name_is(w, "FloorDiv") {
            Some(Operator::FloorDiv)
        } else {
            None
        },
        _ => None,
    }
}

fn unary_exec(d: &Node) -> (r: Option<UnaryOp>)
    ensures
        r == unary_of(d@),
{
    match d {
        Node::Word(w) => if name_is(w, "Invert") {
            Some(UnaryOp::Invert)
        } else if name_is(w, "Not") {
            Some(UnaryOp::Not)
        } else if name_is(w, "UAdd") {
            Some(UnaryOp::UAdd)
        } else if name_is(w, "USub") {
            Some(UnaryOp::USub)
        } else {
            None
        },
        _ => None,
    }
}

fn f_op_exec(f: &Vec<(Vec<char>, Node)>) -> (r: Option<Operator>)
    ensures
        r == f_op(fviews(f@)),
{
    match fld_exec(f, "op") {
        Some(o) => operator_exec(o),
        None => None,
    }
}

fn f_unary_exec(f: &Vec<(Vec<char>, Node)>) -> (r: Option<UnaryOp>)
    ensures
        r == f_unary(fviews(f@)),
{
    match fld_exec(f, "op") {
        Some(o) => unary_exec(o),
        None => None,
    }
}

fn f_ident_exec(f: &Vec<(Vec<char>, Node)>, name: &str) -> (r: Option<String>)
    ensures
        r matches Some(s) ==> f_ident(fviews(f@), name@) == Some(s@),
        r is None ==> f_ident(fviews(f@), name@) is None,
{
    match fld_exec(f, name) {
        Some(x) => ident_exec(x),
        None => None,
    }
}

/// Reads a decimal word as `to_i64` would give its value; `None` when it is no such word.
fn int_exec(w: &Vec<char>) -> (r: Option<Option<i64>>)
    ensures
        r matches Some(o) ==> all_digits(w@) && o == int_of(w@),
        r is None ==> !all_digits(w@),
{
    if w.len() == 0 {
        return None;
    }
    let mut v: u128 = 0;
    let mut over = false;
    let mut i: usize = 0;
    while i < w.len()
        invariant
            0 <= i <= w.len(),
            forall|k: int| 0 <= k < i ==> is_digit(#[trigger] w@[k]),
            !over ==> v == digits_value(w@.take(i as int)) && v <= i64::MAX,
            over ==> digits_value(w@.take(i as int)) > i64::MAX,
        decreases w.len() - i,
    {
        let c = w[i];
        if !('0' <= c && c <= '9') {
            assert(!is_digit(w@[i as int]));
            return None;
        }
        assert(w@.take(i + 1).drop_last() =~= w@.take(i as int));
        assert(w@.take(i + 1).last() == c);
        let dg = (c as u32 - '0' as u32) as u128;
        if !over {
            let nv = v * 10 + dg;
            if nv > 9223372036854775807u128 {
                over = true;
            } else {
                v = nv;
            }
        }
        i += 1;
    }
    assert(w@.take(w.len() as int) =~= w@);
    if over {
        Some(None)
    } else {
        Some(Some(v as i64))
    }
}

fn const_from(d: &Node) -> (r: Option<Constant>)
    ensures
        r matches Some(c) ==> describes_const(d@, c),
        r is None ==> forall|c: Constant| !describes_const(d@, c),
    decreases ssize(d@), 0nat,
{
    if let Node::Word(w) = d {
        if name_is(w, "None") {
            return Some(Constant::NoneValue);
        }
    }
    if let Some(x) = call1_exec(d, "Bool") {
        if let Node::Word(w) = x {
            if name_is(w, "true") {
                return Some(Constant::Bool(true));
            }
            if name_is(w, "false") {
                return Some(Constant::Bool(false));
            }
        }
        return None;
    }
    if let Some(x) = call1_exec(d, "Str") {
        return match quoted_exec(x) {
            Some(s) => Some(Constant::Str(s)),
            None => None,
        };
    }
    if let Some(_) = call1_exec(d, "Bytes") {
        return Some(Constant::Bytes);
    }
    if let Some(x) = call1_exec(d, "Int") {
        if let Node::Word(w) = x {
            return match int_exec(w) {
                Some(o) => Some(Constant::Int(o)),
                None => None,
            };
        }
        return None;
    }
    if let Some(x) = call1_exec(d, "Tuple") {
        if let Node::List(xs) = x {
            return match consts_from(xs) {
                Some(cs) => Some(Constant::Tuple(cs)),
                None => {
                    assert forall|c: Constant| !describes_const(d@, c) by {
                        if let Constant::Tuple(cs) = c {
                            assert(!describes_consts(nviews(xs@), cs@));
                        }
                    }
                    None
                },
            };
        }
        return None;
    }
    if let Some(_) = call1_exec(d, "Float") {
        return Some(Constant::Float);
    }
    Some(Constant::Other)
}

fn consts_from(xs: &Vec<Node>) -> (r: Option<Vec<Constant>>)
    ensures
        r matches Some(cs) ==> describes_consts(nviews(xs@), cs@),
        r is None ==> forall|cs: Seq<Constant>| !describes_consts(nviews(xs@), cs),
    decreases ssizes(nviews(xs@)), 1nat,
{
    let ghost ds = nviews(xs@);
    let mut out: Vec<Constant> = Vec::new();
    let mut i: usize = 0;
    while i < xs.len()
        invariant
            0 <= i <= xs.len(),
            ds == nviews(xs@),
            out.len() == i,
            forall|j: int| 0 <= j < i ==> describes_const(ds[j], #[trigger] out@[j]),
        decreases xs.len() - i,
    {
        proof {
            lemma_ssizes_elem(ds, i as int);
        }
        match const_from(&xs[i]) {
            Some(c) => {
                out.push(c);
            },
            None => {
                assert(ds[i as int] == xs@[i as int]@);
                assert forall|cs: Seq<Constant>| !describes_consts(ds, cs) by {
                    if describes_consts(ds, cs) {
                        assert(describes_const(ds[i as int], cs[i as int]));
                    }
                }
                return None;
            },
        }
        i += 1;
    }
    Some(out)
}

fn fconst_exec(f: &Vec<(Vec<char>, Node)>) -> (r: Option<Constant>)
    ensures
        r matches Some(c) ==> fconst(fviews(f@), c),
        r is None ==> forall|c: Constant| !fconst(fviews(f@), c),
{
    match fld_exec(f, "value") {
        Some(x) => {
            let r = const_from(x);
            assert forall|c: Constant| r is None implies !fconst(fviews(f@), c) by {
                assert(fld(fviews(f@), "value"@) == Some(x@));
                assert(!describes_const(x@, c));
            }
            r
        },
        None => None,
    }
}

fn arg_def_exec<'a>(d: &'a Node) -> (r: Option<&'a Vec<(Vec<char>, Node)>>)
    ensures
        r matches Some(g) ==> arg_def(d@) == Some(fviews(g@)) && fsizes(fviews(g@)) < ssize(d@),
        r is None ==> arg_def(d@) is None,
{
    match d {
        Node::Record(_, f) => match fld_exec(f, "def") {
            Some(Node::Record(_, g)) => Some(g),
            _ => None,
        },
        _ => None,
    }
}

fn arg_name_exec(d: &Node) -> (r: Option<String>)
    ensures
        r matches Some(s) ==> arg_name(d@) == Some(s@),
        r is None ==> arg_name(d@) is None,
{
    match arg_def_exec(d) {
        Some(g) => f_ident_exec(g, "arg"),
        None => None,
    }
}

fn args_of_exec<'a>(d: &'a Node) -> (r: Option<&'a Vec<Node>>)
    ensures
        r matches Some(xs) ==> args_of(d@) == Some(nviews(xs@)),
        r is None ==> args_of(d@) is None,
{
    match d {
        Node::Record(_, f) => list_fld_exec(f, "args"),
        _ => None,
    }
}

fn fnames_exec(f: &Vec<(Vec<char>, Node)>) -> (r: Option<Vec<String>>)
    ensures
        r matches Some(ns) ==> fnames(fviews(f@), ns@),
        r is None ==> forall|ns: Seq<String>| !fnames(fviews(f@), ns),
{
    let a = match fld_exec(f, "args") {
        Some(a) => a,
        None => return None,
    };
    let xs = match args_of_exec(a) {
        Some(xs) => xs,
        None => return None,
    };
    let ghost ds = nviews(xs@);
    let mut out: Vec<String> = Vec::new();
    let mut i: usize = 0;
    while i < xs.len()
        invariant
            0 <= i <= xs.len(),
            ds == nviews(xs@),
            fld(fviews(f@), "args"@) == Some(a@),
            args_of(a@) == Some(ds),
            out.len() == i,
            forall|j: int| 0 <= j < i ==> arg_name(ds[j]) == Some((#[trigger] out@[j])@),
        decreases xs.len() - i,
    {
        match arg_name_exec(&xs[i]) {
            Some(n) => {
                out.push(n);
            },
            None => {
                assert forall|ns: Seq<String>| !fnames(fviews(f@), ns) by {
                    assert(ds[i as int] == xs@[i as int]@);
                    if fnames(fviews(f@), ns) {
                        assert(arg_name(ds[i as int]) == Some(ns[i as int]@));
                    }
                }
                return None;
            },
        }
        i += 1;
    }
    Some(out)
}

fn fe_exec(f: &Vec<(Vec<char>, Node)>, name: &str) -> (r: Option<Expr>)
    ensures
        r matches Some(e) ==> fe(fviews(f@), name@, e),
        r is None ==> forall|e: Expr| !fe(fviews(f@), name@, e),
    decreases fsizes(fviews(f@)), 2nat,
{
    match fld_exec(f, name) {
        Some(x) => {
            let r = expr_from(x);
            assert forall|e: Expr| r is None implies !fe(fviews(f@), name@, e) by {
                assert(fld(fviews(f@), name@) == Some(x@));
                assert(!describes_expr(x@, e));
            }
            r
        },
        None => None,
    }
}

fn fes_exec(f: &Vec<(Vec<char>, Node)>, name: &str) -> (r: Option<Vec<Expr>>)
    ensures
        r matches Some(es) ==> fes(fviews(f@), name@, es@),
        r is None ==> forall|es: Seq<Expr>| !fes(fviews(f@), name@, es),
    decreases fsizes(fviews(f@)), 2nat,
{
    match list_fld_exec(f, name) {
        Some(xs) => {
            let r = exprs_from(xs);
            assert forall|es: Seq<Expr>| r is None implies !fes(fviews(f@), name@, es) by {
                assert(list_fld(fviews(f@), name@) == Some(nviews(xs@)));
                assert(!describes_exprs(nviews(xs@), es));
            }
            r
        },
        None => None,
    }
}

fn exprs_from(xs: &Vec<Node>) -> (r: Option<Vec<Expr>>)
    ensures
        r matches Some(es) ==> describes_exprs(nviews(xs@), es@),
        r is None ==> forall|es: Seq<Expr>| !describes_exprs(nviews(xs@), es),
    decreases ssizes(nviews(xs@)), 2nat,
{
    let ghost ds = nviews(xs@);
    let mut out: Vec<Expr> = Vec::new();
    let mut i: usize = 0;
    while i < xs.len()
        invariant
            0 <= i <= xs.len(),
            ds == nviews(xs@),
            out.len() == i,
            forall|j: int| 0 <= j < i ==> describes_expr(ds[j], #[trigger] out@[j]),
        decreases xs.len() - i,
    {
        proof {
            lemma_ssizes_elem(ds, i as int);
        }
        match expr_from(&xs[i]) {
            Some(e) => {
                out.push(e);
            },
            None => {
                assert(ds[i as int] == xs@[i as int]@);
                assert forall|es: Seq<Expr>| !describes_exprs(ds, es) by {
                    if describes_exprs(ds, es) {
                        assert(describes_expr(ds[i as int], es[i as int]));
                    }
                }
                return None;
            },
        }
        i += 1;
    }
    Some(out)
}

fn opt_from(d: &Node) -> (r: Option<Option<Expr>>)
    ensures
        r matches Some(o) ==> describes_opt(d@, o),
        r is None ==> forall|o: Option<Expr>| !describes_opt(d@, o),
    decreases ssize(d@), 1nat,
{
    match opt_exec(d) {
        Some(None) => Some(None),
        Some(Some(x)) => match expr_from(x) {
            Some(e) => Some(Some(e)),
            None => {
                assert forall|o: Option<Expr>| !describes_opt(d@, o) by {
                    if o is Some {
                        assert(!describes_expr(x@, o.unwrap()));
                    }
                }
                None
            },
        },
        None => None,
    }
}

fn optb_from(d: &Node) -> (r: Option<Option<Box<Expr>>>)
    ensures
        r matches Some(o) ==> describes_optb(d@, o),
        r is None ==> forall|o: Option<Box<Expr>>| !describes_optb(d@, o),
    decreases ssize(d@), 1nat,
{
    match opt_exec(d) {
        Some(None) => Some(None),
        Some(Some(x)) => match expr_from(x) {
            Some(e) => Some(Some(Box::new(e))),
            None => {
                assert forall|o: Option<Box<Expr>>| !describes_optb(d@, o) by {
                    if o is Some {
                        assert(!describes_expr(x@, *o.unwrap()));
                    }
                }
                None
            },
        },
        None => None,
    }
}

fn foptb_exec(f: &Vec<(Vec<char>, Node)>) -> (r: Option<Option<Box<Expr>>>)
    ensures
        r matches Some(o) ==> foptb(fviews(f@), o),
        r is None ==> forall|o: Option<Box<Expr>>| !foptb(fviews(f@), o),
    decreases fsizes(fviews(f@)), 2nat,
{
    match fld_exec(f, "value") {
        Some(x) => {
            let r = optb_from(x);
            assert forall|o: Option<Box<Expr>>| r is None implies !foptb(fviews(f@), o) by {
                assert(fld(fviews(f@), "value"@) == Some(x@));
                assert(!describes_optb(x@, o));
            }
            r
        },
        None => None,
    }
}

fn fopt_exec(f: &Vec<(Vec<char>, Node)>, name: &str) -> (r: Option<Option<Expr>>)
    ensures
        r matches Some(o) ==> fopt(fviews(f@), name@, o),
        r is None ==> forall|o: Option<Expr>| !fopt(fviews(f@), name@, o),
    decreases fsizes(fviews(f@)), 2nat,
{
    match fld_exec(f, name) {
        Some(x) => {
            let r = opt_from(x);
            assert forall|o: Option<Expr>| r is None implies !fopt(fviews(f@), name@, o) by {
                assert(fld(fviews(f@), name@) == Some(x@));
                assert(!describes_opt(x@, o));
            }
            r
        },
        None => None,
    }
}

fn keys_from(xs: &Vec<Node>) -> (r: Option<Vec<Option<Expr>>>)
    ensures
        r matches Some(ks) ==> describes_keys(nviews(xs@), ks@),
        r is None ==> forall|ks: Seq<Option<Expr>>| !describes_keys(nviews(xs@), ks),
    decreases ssizes(nviews(xs@)), 2nat,
{
    let ghost ds = nviews(xs@);
    let mut out: Vec<Option<Expr>> = Vec::new();
    let mut i: usize = 0;
    while i < xs.len()
        invariant
            0 <= i <= xs.len(),
            ds == nviews(xs@),
            out.len() == i,
            forall|j: int| 0 <= j < i ==> describes_opt(ds[j], #[trigger] out@[j]),
        decreases xs.len() - i,
    {
        proof {
            lemma_ssizes_elem(ds, i as int);
        }
        match opt_from(&xs[i]) {
            Some(k) => {
                out.push(k);
            },
            None => {
                assert(ds[i as int] == xs@[i as int]@);
                assert forall|ks: Seq<Option<Expr>>| !describes_keys(ds, ks) by {
                    if describes_keys(ds, ks) {
                        assert(describes_opt(ds[i as int], ks[i as int]));
                    }
                }
                return None;
            },
        }
        i += 1;
    }
    Some(out)
}

fn fkeys_exec(f: &Vec<(Vec<char>, Node)>) -> (r: Option<Vec<Option<Expr>>>)
    ensures
        r matches Some(ks) ==> fkeys(fviews(f@), ks@),
        r is None ==> forall|ks: Seq<Option<Expr>>| !fkeys(fviews(f@), ks),
    decreases fsizes(fviews(f@)), 2nat,
{
    match list_fld_exec(f, "keys") {
        Some(xs) => {
            let r = keys_from(xs);
            assert forall|ks: Seq<Option<Expr>>| r is None implies !fkeys(fviews(f@), ks) by {
                assert(list_fld(fviews(f@), "keys"@) == Some(nviews(xs@)));
                assert(!describes_keys(nviews(xs@), ks));
            }
            r
        },
        None => None,
    }
}

fn comp_from(d: &Node) -> (r: Option<Comprehension>)
    ensures
        r matches Some(c) ==> describes_comp(d@, c),
        r is None ==> forall|c: Comprehension| !describes_comp(d@, c),
    decreases ssize(d@), 1nat,
{
    match d {
        Node::Record(_, f) => {
            let target = match fe_exec(f, "target") {
                Some(e) => e,
                None => {
                    assert forall|c: Comprehension| !describes_comp(d@, c) by {
                        assert(!fe(fviews(f@), "target"@, c.target));
                    }
                    return None;
                },
            };
            let iter = match fe_exec(f, "iter") {
                Some(e) => e,
                None => {
                    assert forall|c: Comprehension| !describes_comp(d@, c) by {
                        assert(!fe(fviews(f@), "iter"@, c.iter));
                    }
                    return None;
                },
            };
            let ifs = match fes_exec(f, "ifs") {
                Some(es) => es,
                None => {
                    assert forall|c: Comprehension| !describes_comp(d@, c) by {
                        assert(!fes(fviews(f@), "ifs"@, c.ifs@));
                    }
                    return None;
                },
            };
            Some(Comprehension { target, iter, ifs })
        },
        _ => None,
    }
}

fn comps_from(xs: &Vec<Node>) -> (r: Option<Vec<Comprehension>>)
    ensures
        r matches Some(cs) ==> describes_comps(nviews(xs@), cs@),
        r is None ==> forall|cs: Seq<Comprehension>| !describes_comps(nviews(xs@), cs),
    decreases ssizes(nviews(xs@)), 2nat,
{
    let ghost ds = nviews(xs@);
    let mut out: Vec<Comprehension> = Vec::new();
    let mut i: usize = 0;
    while i < xs.len()
        invariant
            0 <= i <= xs.len(),
            ds == nviews(xs@),
            out.len() == i,
            forall|j: int| 0 <= j < i ==> describes_comp(ds[j], #[trigger] out@[j]),
        decreases xs.len() - i,
    {
        proof {
            lemma_ssizes_elem(ds, i as int);
        }
        match comp_from(&xs[i]) {
            Some(c) => {
                out.push(c);
            },
            None => {
                assert(ds[i as int] == xs@[i as int]@);
                assert forall|cs: Seq<Comprehension>| !describes_comps(ds, cs) by {
                    if describes_comps(ds, cs) {
                        assert(describes_comp(ds[i as int], cs[i as int]));
                    }
                }
                return None;
            },
        }
        i += 1;
    }
    Some(out)
}

fn fcomps_exec(f: &Vec<(Vec<char>, Node)>) -> (r: Option<Vec<Comprehension>>)
    ensures
        r matches Some(cs) ==> fcomps(fviews(f@), cs@),
        r is None ==> forall|cs: Seq<Comprehension>| !fcomps(fviews(f@), cs),
    decreases fsizes(fviews(f@)), 2nat,
{
    match list_fld_exec(f, "generators") {
        Some(xs) => {
            let r = comps_from(xs);
            assert forall|cs: Seq<Comprehension>| r is None implies !fcomps(fviews(f@), cs) by {
                assert(list_fld(fviews(f@), "generators"@) == Some(nviews(xs@)));
                assert(!describes_comps(nviews(xs@), cs));
            }
            r
        },
        None => None,
    }
}

} // verus!

verus! {

/// Reads the expression a text-form value describes.
#[verifier::rlimit(80)]
fn expr_from(d: &Node) -> (r: Option<Expr>)
    ensures
        r matches Some(e) ==> describes_expr(d@, e),
        r is None ==> forall|e: Expr| !describes_expr(d@, e),
    decreases ssize(d@), 1nat,
{
    if let Some(f) = variant_exec(d, "Constant") {
        let c = match fconst_exec(f) {
            Some(x) => x,
            None => {
                assert forall|e: Expr| !describes_expr(d@, e) by {
                    if let Expr::Constant(a0) = e {
                        assert(!fconst(fviews(f@), a0));
                    }
                }
                return None;
            },
        };
        return Some(Expr::Constant(c));
    }
    if let Some(f) = variant_exec(d, "Name") {
        let n = match f_ident_exec(f, "id") {
            Some(x) => x,
            None => {
                assert forall|e: Expr| !describes_expr(d@, e) by {
                    if let Expr::Name(a0) = e {
                        assert(f_ident(fviews(f@), "id"@) is None);
                    }
                }
                return None;
            },
        };
        return Some(Expr::Name(n));
    }
    if let Some(f) = variant_exec(d, "BinOp") {
        let l = match fe_exec(f, "left") {
            Some(x) => x,
            None => {
                assert forall|e: Expr| !describes_expr(d@, e) by {
                    if let Expr::BinOp(a0, a1, a2) = e {
                        assert(!fe(fviews(f@), "left"@, *a0));
                    }
                }
                return None;
            },
        };
        let op = match f_op_exec(f) {
            Some(x) => x,
            None => {
                assert forall|e: Expr| !describes_expr(d@, e) by {
                    if let Expr::BinOp(a0, a1, a2) = e {
                        assert(f_op(fviews(f@)) is None);
                    }
                }
                return None;
            },
        };
        let r = match fe_exec(f, "right") {
            Some(x) => x,
            None => {
                assert forall|e: Expr| !describes_expr(d@, e) by {
                    if let Expr::BinOp(a0, a1, a2) = e {
                        assert(!fe(fviews(f@), "right"@, *a2));
                    }
                }
                return None;
            },
        };
        return Some(Expr::BinOp(Box::new(l), op, Box::new(r)));
    }
    if let Some(f) = variant_exec(d, "UnaryOp") {
        let op = match f_unary_exec(f) {
            Some(x) => x,
            None => {
                assert forall|e: Expr| !describes_expr(d@, e) by {
                    if let Expr::UnaryOp(a0, a1) = e {
                        assert(f_unary(fviews(f@)) is None);
                    }
                }
                return None;
            },
        };
        let x = match fe_exec(f, "operand") {
            Some(x) => x,
            None => {
                assert forall|e: Expr| !describes_expr(d@, e) by {
                    if let Expr::UnaryOp(a0, a1) = e {
                        assert(!fe(fviews(f@), "operand"@, *a1));
                    }
                }
                return None;
            },
        };
        return Some(Expr::UnaryOp(op, Box::new(x)));
    }
    if let Some(f) = variant_exec(d, "BoolOp") {
        let vs = match fes_exec(f, "values") {
            Some(x) => x,
            None => {
                assert forall|e: Expr| !describes_expr(d@, e) by {
                    if let Expr::BoolOp(a0) = e {
                        assert(!fes(fviews(f@), "values"@, a0@));
                    }
                }
                return None;
            },
        };
        return Some(Expr::BoolOp(vs));
    }
    if let Some(f) = variant_exec(d, "Compare") {
        let l = match fe_exec(f, "left") {
            Some(x) => x,
            None => {
                assert forall|e: Expr| !describes_expr(d@, e) by {
                    if let Expr::Compare(a0, a1) = e {
                        assert(!fe(fviews(f@), "left"@, *a0));
                    }
                }
                return None;
            },
        };
        let cs = match fes_exec(f, "comparators") {
            Some(x) => x,
            None => {
                assert forall|e: Expr| !describes_expr(d@, e) by {
                    if let Expr::Compare(a0, a1) = e {
                        assert(!fes(fviews(f@), "comparators"@, a1@));
                    }
                }
                return None;
            },
        };
        return Some(Expr::Compare(Box::new(l), cs));
    }
    if let Some(f) = variant_exec(d, "Call") {
        let g = match fe_exec(f, "func") {
            Some(x) => x,
            None => {
                assert forall|e: Expr| !describes_expr(d@, e) by {
                    if let Expr::Call(a0, a1) = e {
                        assert(!fe(fviews(f@), "func"@, *a0));
                    }
                }
                return None;
            },
        };
        let args = match fes_exec(f, "args") {
            Some(x) => x,
            None => {
                assert forall|e: Expr| !describes_expr(d@, e) by {
                    if let Expr::Call(a0, a1) = e {
                        assert(!fes(fviews(f@), "args"@, a1@));
                    }
                }
                return None;
            },
        };
        return Some(Expr::Call(Box::new(g), args));
    }
    if let Some(f) = variant_exec(d, "List") {
        let vs = match fes_exec(f, "elts") {
            Some(x) => x,
            None => {
                assert forall|e: Expr| !describes_expr(d@, e) by {
                    if let Expr::List(a0) = e {
                        assert(!fes(fviews(f@), "elts"@, a0@));
                    }
                }
                return None;
            },
        };
        return Some(Expr::List(vs));
    }
    if let Some(f) = variant_exec(d, "Tuple") {
        let vs = match fes_exec(f, "elts") {
            Some(x) => x,
            None => {
                assert forall|e: Expr| !describes_expr(d@, e) by {
                    if let Expr::Tuple(a0) = e {
                        assert(!fes(fviews(f@), "elts"@, a0@));
                    }
                }
                return None;
            },
        };
        return Some(Expr::Tuple(vs));
    }
    if let Some(f) = variant_exec(d, "Set") {
        let vs = match fes_exec(f, "elts") {
            Some(x) => x,
            None => {
                assert forall|e: Expr| !describes_expr(d@, e) by {
                    if let Expr::SetExpr(a0) = e {
                        assert(!fes(fviews(f@), "elts"@, a0@));
                    }
                }
                return None;
            },
        };
        return Some(Expr::SetExpr(vs));
    }
    if let Some(f) = variant_exec(d, "Dict") {
        let ks = match fkeys_exec(f) {
            Some(x) => x,
            None => {
                assert forall|e: Expr| !describes_expr(d@, e) by {
                    if let Expr::Dict(a0, a1) = e {
                        assert(!fkeys(fviews(f@), a0@));
                    }
                }
                return None;
            },
        };
        let vs = match fes_exec(f, "values") {
            Some(x) => x,
            None => {
                assert forall|e: Expr| !describes_expr(d@, e) by {
                    if let Expr::Dict(a0, a1) = e {
                        assert(!fes(fviews(f@), "values"@, a1@));
                    }
                }
                return None;
            },
        };
        return Some(Expr::Dict(ks, vs));
    }
    if let Some(f) = variant_exec(d, "ListComp") {
        let x = match fe_exec(f, "elt") {
            Some(x) => x,
            None => {
                assert forall|e: Expr| !describes_expr(d@, e) by {
                    if let Expr::ListComp(a0, a1) = e {
                        assert(!fe(fviews(f@), "elt"@, *a0));
                    }
                }
                return None;
            },
        };
        let gs = match fcomps_exec(f) {
            Some(x) => x,
            None => {
                assert forall|e: Expr| !describes_expr(d@, e) by {
                    if let Expr::ListComp(a0, a1) = e {
                        assert(!fcomps(fviews(f@), a1@));
                    }
                }
                return None;
            },
        };
        return Some(Expr::ListComp(Box::new(x), gs));
    }
    if let Some(f) = variant_exec(d, "SetComp") {
        let x = match fe_exec(f, "elt") {
            Some(x) => x,
            None => {
                assert forall|e: Expr| !describes_expr(d@, e) by {
                    if let Expr::SetComp(a0, a1) = e {
                        assert(!fe(fviews(f@), "elt"@, *a0));
                    }
                }
                return None;
            },
        };
        let gs = match fcomps_exec(f) {
            Some(x) => x,
            None => {
                assert forall|e: Expr| !describes_expr(d@, e) by {
                    if let Expr::SetComp(a0, a1) = e {
                        assert(!fcomps(fviews(f@), a1@));
                    }
                }
                return None;
            },
        };
        return Some(Expr::SetComp(Box::new(x), gs));
    }
    expr_from_more(d)
}

/// Reads the expressions of the kinds after those `expr_from` tries itself.
#[verifier::rlimit(80)]
fn expr_from_more(d: &Node) -> (r: Option<Expr>)
    requires
        variant(d@, "Constant"@) is None,
        variant(d@, "Name"@) is None,
        variant(d@, "BinOp"@) is None,
        variant(d@, "UnaryOp"@) is None,
        variant(d@, "BoolOp"@) is None,
        variant(d@, "Compare"@) is None,
        variant(d@, "Call"@) is None,
        variant(d@, "List"@) is None,
        variant(d@, "Tuple"@) is None,
        variant(d@, "Set"@) is None,
        variant(d@, "Dict"@) is None,
        variant(d@, "ListComp"@) is None,
        variant(d@, "SetComp"@) is None,
    ensures
        r matches Some(e) ==> describes_expr(d@, e),
        r is None ==> forall|e: Expr| !describes_expr(d@, e),
    decreases ssize(d@), 0nat,
{
    if let Some(f) = variant_exec(d, "GeneratorExp") {
        let x = match fe_exec(f, "elt") {
            Some(x) => x,
            None => {
                assert forall|e: Expr| !describes_expr(d@, e) by {
                    if let Expr::GeneratorExp(a0, a1) = e {
                        assert(!fe(fviews(f@), "elt"@, *a0));
                    }
                }
                return None;
            },
        };
        let gs = match fcomps_exec(f) {
            Some(x) => x,
            None => {
                assert forall|e: Expr| !describes_expr(d@, e) by {
                    if let Expr::GeneratorExp(a0, a1) = e {
                        assert(!fcomps(fviews(f@), a1@));
                    }
                }
                return None;
            },
        };
        return Some(Expr::GeneratorExp(Box::new(x), gs));
    }
    if let Some(f) = variant_exec(d, "DictComp") {
        let k = match fe_exec(f, "key") {
            Some(x) => x,
            None => {
                assert forall|e: Expr| !describes_expr(d@, e) by {
                    if let Expr::DictComp(a0, a1, a2) = e {
                        assert(!fe(fviews(f@), "key"@, *a0));
                    }
                }
                return None;
            },
        };
        let v = match fe_exec(f, "value") {
            Some(x) => x,
            None => {
                assert forall|e: Expr| !describes_expr(d@, e) by {
                    if let Expr::DictComp(a0, a1, a2) = e {
                        assert(!fe(fviews(f@), "value"@, *a1));
                    }
                }
                return None;
            },
        };
        let gs = match fcomps_exec(f) {
            Some(x) => x,
            None => {
                assert forall|e: Expr| !describes_expr(d@, e) by {
                    if let Expr::DictComp(a0, a1, a2) = e {
                        assert(!fcomps(fviews(f@), a2@));
                    }
                }
                return None;
            },
        };
        return Some(Expr::DictComp(Box::new(k), Box::new(v), gs));
    }
    if let Some(f) = variant_exec(d, "Lambda") {
        let ns = match fnames_exec(f) {
            Some(x) => x,
            None => {
                assert forall|e: Expr| !describes_expr(d@, e) by {
                    if let Expr::Lambda(a0, a1) = e {
                        assert(!fnames(fviews(f@), a0@));
                    }
                }
                return None;
            },
        };
        let b = match fe_exec(f, "body") {
            Some(x) => x,
            None => {
                assert forall|e: Expr| !describes_expr(d@, e) by {
                    if let Expr::Lambda(a0, a1) = e {
                        assert(!fe(fviews(f@), "body"@, *a1));
                    }
                }
                return None;
            },
        };
        return Some(Expr::Lambda(ns, Box::new(b)));
    }
    if let Some(f) = variant_exec(d, "IfExp") {
        let t = match fe_exec(f, "test") {
            Some(x) => x,
            None => {
                assert forall|e: Expr| !describes_expr(d@, e) by {
                    if let Expr::IfExp(a0, a1, a2) = e {
                        assert(!fe(fviews(f@), "test"@, *a0));
                    }
                }
                return None;
            },
        };
        let b = match fe_exec(f, "body") {
            Some(x) => x,
            None => {
                assert forall|e: Expr| !describes_expr(d@, e) by {
                    if let Expr::IfExp(a0, a1, a2) = e {
                        assert(!fe(fviews(f@), "body"@, *a1));
                    }
                }
                return None;
            },
        };
        let o = match fe_exec(f, "orelse") {
            Some(x) => x,
            None => {
                assert forall|e: Expr| !describes_expr(d@, e) by {
                    if let Expr::IfExp(a0, a1, a2) = e {
                        assert(!fe(fviews(f@), "orelse"@, *a2));
                    }
                }
                return None;
            },
        };
        return Some(Expr::IfExp(Box::new(t), Box::new(b), Box::new(o)));
    }
    if let Some(f) = variant_exec(d, "Subscript") {
        let v = match fe_exec(f, "value") {
            Some(x) => x,
            None => {
                assert forall|e: Expr| !describes_expr(d@, e) by {
                    if let Expr::Subscript(a0, a1) = e {
                        assert(!fe(fviews(f@), "value"@, *a0));
                    }
                }
                return None;
            },
        };
        let sl = match fe_exec(f, "slice") {
            Some(x) => x,
            None => {
                assert forall|e: Expr| !describes_expr(d@, e) by {
                    if let Expr::Subscript(a0, a1) = e {
                        assert(!fe(fviews(f@), "slice"@, *a1));
                    }
                }
                return None;
            },
        };
        return Some(Expr::Subscript(Box::new(v), Box::new(sl)));
    }
    if let Some(f) = variant_exec(d, "Attribute") {
        let v = match fe_exec(f, "value") {
            Some(x) => x,
            None => {
                assert forall|e: Expr| !describes_expr(d@, e) by {
                    if let Expr::Attribute(a0, a1) = e {
                        assert(!fe(fviews(f@), "value"@, *a0));
                    }
                }
                return None;
            },
        };
        let a = match f_ident_exec(f, "attr") {
            Some(x) => x,
            None => {
                assert forall|e: Expr| !describes_expr(d@, e) by {
                    if let Expr::Attribute(a0, a1) = e {
                        assert(f_ident(fviews(f@), "attr"@) is None);
                    }
                }
                return None;
            },
        };
        return Some(Expr::Attribute(Box::new(v), a));
    }
    if let Some(_) = variant_exec(d, "Slice") {
        return Some(Expr::Slice);
    }
    if let Some(f) = variant_exec(d, "Await") {
        let v = match fe_exec(f, "value") {
            Some(x) => x,
            None => {
                assert forall|e: Expr| !describes_expr(d@, e) by {
                    if let Expr::Await(a0) = e {
                        assert(!fe(fviews(f@), "value"@, *a0));
                    }
                }
                return None;
            },
        };
        return Some(Expr::Await(Box::new(v)));
    }
    if let Some(f) = variant_exec(d, "Yield") {
        let o = match foptb_exec(f) {
            Some(x) => x,
            None => {
                assert forall|e: Expr| !describes_expr(d@, e) by {
                    if let Expr::Yield(a0) = e {
                        assert(!foptb(fviews(f@), a0));
                    }
                }
                return None;
            },
        };
        return Some(Expr::Yield(o));
    }
    if let Some(f) = variant_exec(d, "YieldFrom") {
        let v = match fe_exec(f, "value") {
            Some(x) => x,
            None => {
                assert forall|e: Expr| !describes_expr(d@, e) by {
                    if let Expr::YieldFrom(a0) = e {
                        assert(!fe(fviews(f@), "value"@, *a0));
                    }
                }
                return None;
            },
        };
        return Some(Expr::YieldFrom(Box::new(v)));
    }
    if let Some(f) = variant_exec(d, "Starred") {
        let v = match fe_exec(f, "value") {
            Some(x) => x,
            None => {
                assert forall|e: Expr| !describes_expr(d@, e) by {
                    if let Expr::Starred(a0) = e {
                        assert(!fe(fviews(f@), "value"@, *a0));
                    }
                }
                return None;
            },
        };
        return Some(Expr::Starred(Box::new(v)));
    }
    if let Some(f) = variant_exec(d, "NamedExpr") {
        let v = match fe_exec(f, "value") {
            Some(x) => x,
            None => {
                assert forall|e: Expr| !describes_expr(d@, e) by {
                    if let Expr::NamedExpr(a0) = e {
                        assert(!fe(fviews(f@), "value"@, *a0));
                    }
                }
                return None;
            },
        };
        return Some(Expr::NamedExpr(Box::new(v)));
    }
    if let Some(f) = variant_exec(d, "FormattedValue") {
        let v = match fe_exec(f, "value") {
            Some(x) => x,
            None => {
                assert forall|e: Expr| !describes_expr(d@, e) by {
                    if let Expr::FormattedValue(a0) = e {
                        assert(!fe(fviews(f@), "value"@, *a0));
                    }
                }
                return None;
            },
        };
        return Some(Expr::FormattedValue(Box::new(v)));
    }
    if let Some(_) = variant_exec(d, "JoinedStr") {
        return Some(Expr::JoinedStr);
    }
    None
}

} // verus!

verus! {

fn param_from(x: &Node) -> (r: Option<Param>)
    ensures
        r matches Some(p) ==> describes_param(x@, p),
        r is None ==> forall|p: Param| !describes_param(x@, p),
{
    let name = match arg_name_exec(x) {
        Some(n) => n,
        None => return None,
    };
    let g = match arg_def_exec(x) {
        Some(g) => g,
        None => return None,
    };
    let a = match fld_exec(g, "annotation") {
        Some(a) => a,
        None => return None,
    };
    match opt_from(a) {
        Some(annotation) => Some(Param { name, annotation }),
        None => {
            assert forall|p: Param| !describes_param(x@, p) by {
                assert(!describes_opt(a@, p.annotation));
            }
            None
        },
    }
}

fn fparams_exec(f: &Vec<(Vec<char>, Node)>) -> (r: Option<Vec<Param>>)
    ensures
        r matches Some(ps) ==> fparams(fviews(f@), ps@),
        r is None ==> forall|ps: Seq<Param>| !fparams(fviews(f@), ps),
{
    let a = match fld_exec(f, "args") {
        Some(a) => a,
        None => return None,
    };
    let xs = match args_of_exec(a) {
        Some(xs) => xs,
        None => return None,
    };
    let ghost ds = nviews(xs@);
    let mut out: Vec<Param> = Vec::new();
    let mut i: usize = 0;
    while i < xs.len()
        invariant
            0 <= i <= xs.len(),
            ds == nviews(xs@),
            fld(fviews(f@), "args"@) == Some(a@),
            args_of(a@) == Some(ds),
            out.len() == i,
            forall|j: int| 0 <= j < i ==> describes_param(ds[j], #[trigger] out@[j]),
        decreases xs.len() - i,
    {
        match param_from(&xs[i]) {
            Some(p) => {
                out.push(p);
            },
            None => {
                assert forall|ps: Seq<Param>| !fparams(fviews(f@), ps) by {
                    assert(ds[i as int] == xs@[i as int]@);
                    if fparams(fviews(f@), ps) {
                        assert(describes_param(ds[i as int], ps[i as int]));
                    }
                }
                return None;
            },
        }
        i += 1;
    }
    Some(out)
}

fn fwiths_exec(f: &Vec<(Vec<char>, Node)>) -> (r: Option<Vec<Expr>>)
    ensures
        r matches Some(es) ==> fwiths(fviews(f@), es@),
        r is None ==> forall|es: Seq<Expr>| !fwiths(fviews(f@), es),
{
    let xs = match list_fld_exec(f, "items") {
        Some(xs) => xs,
        None => return None,
    };
    let ghost ds = nviews(xs@);
    let mut out: Vec<Expr> = Vec::new();
    let mut i: usize = 0;
    while i < xs.len()
        invariant
            0 <= i <= xs.len(),
            ds == nviews(xs@),
            list_fld(fviews(f@), "items"@) == Some(ds),
            out.len() == i,
            forall|j: int| 0 <= j < i ==> with_item(ds[j], #[trigger] out@[j]),
        decreases xs.len() - i,
    {
        assert(ds[i as int] == xs@[i as int]@);
        let item = match &xs[i] {
            Node::Record(_, g) => {
                let r = fe_exec(g, "context_expr");
                assert forall|e: Expr| r is None implies !with_item(ds[i as int], e) by {
                    assert(!fe(fviews(g@), "context_expr"@, e));
                }
                r
            },
            _ => None,
        };
        match item {
            Some(e) => {
                out.push(e);
            },
            None => {
                assert forall|es: Seq<Expr>| !fwiths(fviews(f@), es) by {
                    if fwiths(fviews(f@), es) {
                        assert(with_item(ds[i as int], es[i as int]));
                    }
                }
                return None;
            },
        }
        i += 1;
    }
    Some(out)
}

fn fss_exec(f: &Vec<(Vec<char>, Node)>, name: &str) -> (r: Option<Vec<Stmt>>)
    ensures
        r matches Some(ss) ==> fss(fviews(f@), name@, ss@),
        r is None ==> forall|ss: Seq<Stmt>| !fss(fviews(f@), name@, ss),
    decreases fsizes(fviews(f@)), 2nat,
{
    match list_fld_exec(f, name) {
        Some(xs) => {
            let r = stmts_from(xs);
            assert forall|ss: Seq<Stmt>| r is None implies !fss(fviews(f@), name@, ss) by {
                assert(list_fld(fviews(f@), name@) == Some(nviews(xs@)));
                assert(!describes_stmts(nviews(xs@), ss));
            }
            r
        },
        None => None,
    }
}

fn stmts_from(xs: &Vec<Node>) -> (r: Option<Vec<Stmt>>)
    ensures
        r matches Some(ss) ==> describes_stmts(nviews(xs@), ss@),
        r is None ==> forall|ss: Seq<Stmt>| !describes_stmts(nviews(xs@), ss),
    decreases ssizes(nviews(xs@)), 2nat,
{
    let ghost ds = nviews(xs@);
    let mut out: Vec<Stmt> = Vec::new();
    let mut i: usize = 0;
    while i < xs.len()
        invariant
            0 <= i <= xs.len(),
            ds == nviews(xs@),
            out.len() == i,
            forall|j: int| 0 <= j < i ==> describes_stmt(ds[j], #[trigger] out@[j]),
        decreases xs.len() - i,
    {
        proof {
            lemma_ssizes_elem(ds, i as int);
        }
        match stmt_from(&xs[i]) {
            Some(st) => {
                out.push(st);
            },
            None => {
                assert(ds[i as int] == xs@[i as int]@);
                assert forall|ss: Seq<Stmt>| !describes_stmts(ds, ss) by {
                    if describes_stmts(ds, ss) {
                        assert(describes_stmt(ds[i as int], ss[i as int]));
                    }
                }
                return None;
            },
        }
        i += 1;
    }
    Some(out)
}

fn fhandler_exec(x: &Node) -> (r: Option<Vec<Stmt>>)
    ensures
        r matches Some(h) ==> fhandler(x@, h),
        r is None ==> forall|h: Vec<Stmt>| !fhandler(x@, h),
    decreases ssize(x@), 1nat,
{
    match variant_exec(x, "ExceptHandler") {
        Some(g) => {
            let r = fss_exec(g, "body");
            assert forall|h: Vec<Stmt>| r is None implies !fhandler(x@, h) by {
                assert(!fss(fviews(g@), "body"@, h@));
            }
            r
        },
        None => None,
    }
}

fn fhandlers_exec(f: &Vec<(Vec<char>, Node)>) -> (r: Option<Vec<Vec<Stmt>>>)
    ensures
        r matches Some(hs) ==> fhandlers(fviews(f@), hs@),
        r is None ==> forall|hs: Seq<Vec<Stmt>>| !fhandlers(fviews(f@), hs),
    decreases fsizes(fviews(f@)), 2nat,
{
    let xs = match list_fld_exec(f, "handlers") {
        Some(xs) => xs,
        None => return None,
    };
    let ghost ds = nviews(xs@);
    let mut out: Vec<Vec<Stmt>> = Vec::new();
    let mut i: usize = 0;
    while i < xs.len()
        invariant
            0 <= i <= xs.len(),
            ds == nviews(xs@),
            list_fld(fviews(f@), "handlers"@) == Some(ds),
            ssizes(ds) < fsizes(fviews(f@)),
            out.len() == i,
            forall|j: int| 0 <= j < i ==> fhandler(ds[j], #[trigger] out@[j]),
        decreases xs.len() - i,
    {
        proof {
            lemma_ssizes_elem(ds, i as int);
        }
        assert(ds[i as int] == xs@[i as int]@);
        match fhandler_exec(&xs[i]) {
            Some(h) => {
                out.push(h);
            },
            None => {
                assert forall|hs: Seq<Vec<Stmt>>| !fhandlers(fviews(f@), hs) by {
                    if fhandlers(fviews(f@), hs) {
                        assert(fhandler(ds[i as int], hs[i as int]));
                    }
                }
                return None;
            },
        }
        i += 1;
    }
    Some(out)
}

/// Reads the statement a text-form value describes.
#[verifier::rlimit(80)]
fn stmt_from(d: &Node) -> (r: Option<Stmt>)
    ensures
        r matches Some(s) ==> describes_stmt(d@, s),
        r is None ==> forall|s: Stmt| !describes_stmt(d@, s),
    decreases ssize(d@), 1nat,
{
    if let Some(f) = variant_exec(d, "FunctionDef") {
        let name = match f_ident_exec(f, "name") {
            Some(x) => x,
            None => {
                assert forall|s: Stmt| !describes_stmt(d@, s) by {
                    if let Stmt::FunctionDef { name: a0, params: a1, result: a2, body: a3 } = s {
                        assert(f_ident(fviews(f@), "name"@) is None);
                    }
                }
                return None;
            },
        };
        let params = match fparams_exec(f) {
            Some(x) => x,
            None => {
                assert forall|s: Stmt| !describes_stmt(d@, s) by {
                    if let Stmt::FunctionDef { name: a0, params: a1, result: a2, body: a3 } = s {
                        assert(!fparams(fviews(f@), a1@));
                    }
                }
                return None;
            },
        };
        let result = match fopt_exec(f, "returns") {
            Some(x) => x,
            None => {
                assert forall|s: Stmt| !describes_stmt(d@, s) by {
                    if let Stmt::FunctionDef { name: a0, params: a1, result: a2, body: a3 } = s {
                        assert(!fopt(fviews(f@), "returns"@, a2));
                    }
                }
                return None;
            },
        };
        let body = match fss_exec(f, "body") {
            Some(x) => x,
            None => {
                assert forall|s: Stmt| !describes_stmt(d@, s) by {
                    if let Stmt::FunctionDef { name: a0, params: a1, result: a2, body: a3 } = s {
                        assert(!fss(fviews(f@), "body"@, a3@));
                    }
                }
                return None;
            },
        };
        return Some(Stmt::FunctionDef { name, params, result, body });
    }
    if let Some(f) = variant_exec(d, "AsyncFunctionDef") {
        let name = match f_ident_exec(f, "name") {
            Some(x) => x,
            None => {
                assert forall|s: Stmt| !describes_stmt(d@, s) by {
                    if let Stmt::AsyncFunctionDef { name: a0, body: a1 } = s {
                        assert(f_ident(fviews(f@), "name"@) is None);
                    }
                }
                return None;
            },
        };
        let body = match fss_exec(f, "body") {
            Some(x) => x,
            None => {
                assert forall|s: Stmt| !describes_stmt(d@, s) by {
                    if let Stmt::AsyncFunctionDef { name: a0, body: a1 } = s {
                        assert(!fss(fviews(f@), "body"@, a1@));
                    }
                }
                return None;
            },
        };
        return Some(Stmt::AsyncFunctionDef { name, body });
    }
    if let Some(f) = variant_exec(d, "ClassDef") {
        let name = match f_ident_exec(f, "name") {
            Some(x) => x,
            None => {
                assert forall|s: Stmt| !describes_stmt(d@, s) by {
                    if let Stmt::ClassDef { name: a0, body: a1 } = s {
                        assert(f_ident(fviews(f@), "name"@) is None);
                    }
                }
                return None;
            },
        };
        let body = match fss_exec(f, "body") {
            Some(x) => x,
            None => {
                assert forall|s: Stmt| !describes_stmt(d@, s) by {
                    if let Stmt::ClassDef { name: a0, body: a1 } = s {
                        assert(!fss(fviews(f@), "body"@, a1@));
                    }
                }
                return None;
            },
        };
        return Some(Stmt::ClassDef { name, body });
    }
    if let Some(f) = variant_exec(d, "Return") {
        let o = match fopt_exec(f, "value") {
            Some(x) => x,
            None => {
                assert forall|s: Stmt| !describes_stmt(d@, s) by {
                    if let Stmt::Return(a0) = s {
                        assert(!fopt(fviews(f@), "value"@, a0));
                    }
                }
                return None;
            },
        };
        return Some(Stmt::Return(o));
    }
    if let Some(f) = variant_exec(d, "Assign") {
        let targets = match fes_exec(f, "targets") {
            Some(x) => x,
            None => {
                assert forall|s: Stmt| !describes_stmt(d@, s) by {
                    if let Stmt::Assign { targets: a0, value: a1 } = s {
                        assert(!fes(fviews(f@), "targets"@, a0@));
                    }
                }
                return None;
            },
        };
        let value = match fe_exec(f, "value") {
            Some(x) => x,
            None => {
                assert forall|s: Stmt| !describes_stmt(d@, s) by {
                    if let Stmt::Assign { targets: a0, value: a1 } = s {
                        assert(!fe(fviews(f@), "value"@, a1));
                    }
                }
                return None;
            },
        };
        return Some(Stmt::Assign { targets, value });
    }
    if let Some(f) = variant_exec(d, "AugAssign") {
        let v = match fe_exec(f, "value") {
            Some(x) => x,
            None => {
                assert forall|s: Stmt| !describes_stmt(d@, s) by {
                    if let Stmt::AugAssign(a0) = s {
                        assert(!fe(fviews(f@), "value"@, a0));
                    }
                }
                return None;
            },
        };
        return Some(Stmt::AugAssign(v));
    }
    if let Some(f) = variant_exec(d, "AnnAssign") {
        let target = match fe_exec(f, "target") {
            Some(x) => x,
            None => {
                assert forall|s: Stmt| !describes_stmt(d@, s) by {
                    if let Stmt::AnnAssign { target: a0, annotation: a1, value: a2 } = s {
                        assert(!fe(fviews(f@), "target"@, a0));
                    }
                }
                return None;
            },
        };
        let annotation = match fe_exec(f, "annotation") {
            Some(x) => x,
            None => {
                assert forall|s: Stmt| !describes_stmt(d@, s) by {
                    if let Stmt::AnnAssign { target: a0, annotation: a1, value: a2 } = s {
                        assert(!fe(fviews(f@), "annotation"@, a1));
                    }
                }
                return None;
            },
        };
        let value = match fopt_exec(f, "value") {
            Some(x) => x,
            None => {
                assert forall|s: Stmt| !describes_stmt(d@, s) by {
                    if let Stmt::AnnAssign { target: a0, annotation: a1, value: a2 } = s {
                        assert(!fopt(fviews(f@), "value"@, a2));
                    }
                }
                return None;
            },
        };
        return Some(Stmt::AnnAssign { target, annotation, value });
    }
    stmt_from_more(d)
}

/// Reads the statements of the kinds after those `stmt_from` tries itself.
#[verifier::rlimit(80)]
fn stmt_from_more(d: &Node) -> (r: Option<Stmt>)
    requires
        variant(d@, "FunctionDef"@) is None,
        variant(d@, "AsyncFunctionDef"@) is None,
        variant(d@, "ClassDef"@) is None,
        variant(d@, "Return"@) is None,
        variant(d@, "Assign"@) is None,
        variant(d@, "AugAssign"@) is None,
        variant(d@, "AnnAssign"@) is None,
    ensures
        r matches Some(s) ==> describes_stmt(d@, s),
        r is None ==> forall|s: Stmt| !describes_stmt(d@, s),
    decreases ssize(d@), 0nat,
{
    if let Some(f) = variant_exec(d, "For") {
        let target = match fe_exec(f, "target") {
            Some(x) => x,
            None => {
                assert forall|s: Stmt| !describes_stmt(d@, s) by {
                    if let Stmt::For { target: a0, iter: a1, body: a2, orelse: a3 } = s {
                        assert(!fe(fviews(f@), "target"@, a0));
                    }
                }
                return None;
            },
        };
        let iter = match fe_exec(f, "iter") {
            Some(x) => x,
            None => {
                assert forall|s: Stmt| !describes_stmt(d@, s) by {
                    if let Stmt::For { target: a0, iter: a1, body: a2, orelse: a3 } = s {
                        assert(!fe(fviews(f@), "iter"@, a1));
                    }
                }
                return None;
            },
        };
        let body = match fss_exec(f, "body") {
            Some(x) => x,
            None => {
                assert forall|s: Stmt| !describes_stmt(d@, s) by {
                    if let Stmt::For { target: a0, iter: a1, body: a2, orelse: a3 } = s {
                        assert(!fss(fviews(f@), "body"@, a2@));
                    }
                }
                return None;
            },
        };
        let orelse = match fss_exec(f, "orelse") {
            Some(x) => x,
            None => {
                assert forall|s: Stmt| !describes_stmt(d@, s) by {
                    if let Stmt::For { target: a0, iter: a1, body: a2, orelse: a3 } = s {
                        assert(!fss(fviews(f@), "orelse"@, a3@));
                    }
                }
                return None;
            },
        };
        return Some(Stmt::For { target, iter, body, orelse });
    }
    if let Some(f) = variant_exec(d, "While") {
        let test = match fe_exec(f, "test") {
            Some(x) => x,
            None => {
                assert forall|s: Stmt| !describes_stmt(d@, s) by {
                    if let Stmt::While { test: a0, body: a1, orelse: a2 } = s {
                        assert(!fe(fviews(f@), "test"@, a0));
                    }
                }
                return None;
            },
        };
        let body = match fss_exec(f, "body") {
            Some(x) => x,
            None => {
                assert forall|s: Stmt| !describes_stmt(d@, s) by {
                    if let Stmt::While { test: a0, body: a1, orelse: a2 } = s {
                        assert(!fss(fviews(f@), "body"@, a1@));
                    }
                }
                return None;
            },
        };
        let orelse = match fss_exec(f, "orelse") {
            Some(x) => x,
            None => {
                assert forall|s: Stmt| !describes_stmt(d@, s) by {
                    if let Stmt::While { test: a0, body: a1, orelse: a2 } = s {
                        assert(!fss(fviews(f@), "orelse"@, a2@));
                    }
                }
                return None;
            },
        };
        return Some(Stmt::While { test, body, orelse });
    }
    if let Some(f) = variant_exec(d, "If") {
        let test = match fe_exec(f, "test") {
            Some(x) => x,
            None => {
                assert forall|s: Stmt| !describes_stmt(d@, s) by {
                    if let Stmt::If { test: a0, body: a1, orelse: a2 } = s {
                        assert(!fe(fviews(f@), "test"@, a0));
                    }
                }
                return None;
            },
        };
        let body = match fss_exec(f, "body") {
            Some(x) => x,
            None => {
                assert forall|s: Stmt| !describes_stmt(d@, s) by {
                    if let Stmt::If { test: a0, body: a1, orelse: a2 } = s {
                        assert(!fss(fviews(f@), "body"@, a1@));
                    }
                }
                return None;
            },
        };
        let orelse = match fss_exec(f, "orelse") {
            Some(x) => x,
            None => {
                assert forall|s: Stmt| !describes_stmt(d@, s) by {
                    if let Stmt::If { test: a0, body: a1, orelse: a2 } = s {
                        assert(!fss(fviews(f@), "orelse"@, a2@));
                    }
                }
                return None;
            },
        };
        return Some(Stmt::If { test, body, orelse });
    }
    if let Some(f) = variant_exec(d, "With") {
        let items = match fwiths_exec(f) {
            Some(x) => x,
            None => {
                assert forall|s: Stmt| !describes_stmt(d@, s) by {
                    if let Stmt::With { items: a0, body: a1 } = s {
                        assert(!fwiths(fviews(f@), a0@));
                    }
                }
                return None;
            },
        };
        let body = match fss_exec(f, "body") {
            Some(x) => x,
            None => {
                assert forall|s: Stmt| !describes_stmt(d@, s) by {
                    if let Stmt::With { items: a0, body: a1 } = s {
                        assert(!fss(fviews(f@), "body"@, a1@));
                    }
                }
                return None;
            },
        };
        return Some(Stmt::With { items, body });
    }
    if let Some(f) = variant_exec(d, "Try") {
        let body = match fss_exec(f, "body") {
            Some(x) => x,
            None => {
                assert forall|s: Stmt| !describes_stmt(d@, s) by {
                    if let Stmt::Try { body: a0, handlers: a1 } = s {
                        assert(!fss(fviews(f@), "body"@, a0@));
                    }
                }
                return None;
            },
        };
        let handlers = match fhandlers_exec(f) {
            Some(x) => x,
            None => {
                assert forall|s: Stmt| !describes_stmt(d@, s) by {
                    if let Stmt::Try { body: a0, handlers: a1 } = s {
                        assert(!fhandlers(fviews(f@), a1@));
                    }
                }
                return None;
            },
        };
        return Some(Stmt::Try { body, handlers });
    }
    if let Some(_) = variant_exec(d, "Raise") {
        return Some(Stmt::Raise);
    }
    if let Some(_) = variant_exec(d, "Import") {
        return Some(Stmt::Import);
    }
    if let Some(_) = variant_exec(d, "ImportFrom") {
        return Some(Stmt::ImportFrom);
    }
    if let Some(f) = variant_exec(d, "Expr") {
        let v = match fe_exec(f, "value") {
            Some(x) => x,
            None => {
                assert forall|s: Stmt| !describes_stmt(d@, s) by {
                    if let Stmt::Expr(a0) = s {
                        assert(!fe(fviews(f@), "value"@, a0));
                    }
                }
                return None;
            },
        };
        return Some(Stmt::Expr(v));
    }
    Some(Stmt::Other)
}

} // verus!

verus! {

fn module_from(d: &Node) -> (r: Option<Module>)
    ensures
        r matches Some(m) ==> describes_module(d@, m),
        r is None ==> forall|m: Module| !describes_module(d@, m),
{
    match variant_exec(d, "Module") {
        Some(f) => match fss_exec(f, "body") {
            Some(body) => Some(Module { body }),
            None => {
                assert forall|m: Module| !describes_module(d@, m) by {
                    assert(!fss(fviews(f@), "body"@, m.body@));
                }
                None
            },
        },
        None => None,
    }
}

fn expression_from(d: &Node) -> (r: Option<Expr>)
    ensures
        r matches Some(e) ==> describes_expression(d@, e),
        r is None ==> forall|e: Expr| !describes_expression(d@, e),
{
    match variant_exec(d, "Expression") {
        Some(f) => {
            let r = fe_exec(f, "body");
            assert forall|e: Expr| r is None implies !describes_expression(d@, e) by {
                assert(!fe(fviews(f@), "body"@, e));
            }
            r
        },
        None => None,
    }
}

/// A text that holds, in the text form, the tree of a module that `m` is read from.
pub open spec fn text_module(t: Seq<char>, m: Module) -> bool {
    t.len() < usize::MAX && match read_text(t) {
        Some(d) => describes_module(d, m),
        None => false,
    }
}

/// A text that holds, in the text form, the tree of an expression that `e` is read from.
pub open spec fn text_expression(t: Seq<char>, e: Expr) -> bool {
    t.len() < usize::MAX && match read_text(t) {
        Some(d) => describes_expression(d, e),
        None => false,
    }
}

/// What parsing a module's source gives: on a parse error, `Parse error: ` and the
/// parser's message; otherwise the module read from the parser's tree, if the tree holds
/// one, and else the unreadable-tree message.
pub open spec fn module_parse(source: Seq<char>, r: Result<Module, String>) -> bool {
    &&& module_text(source) is Err ==> r is Err && r->Err_0@ =~= "Parse error: "@ + module_text(source)->Err_0
    &&& module_text(source) is Ok ==> (r is Ok <==> exists|x: Module| #[trigger] text_module(module_text(source)->Ok_0, x))
    &&& module_text(source) is Ok && r is Ok ==> text_module(module_text(source)->Ok_0, r->Ok_0)
    &&& module_text(source) is Ok && r is Err ==> r->Err_0@ =~= unreadable_msg()
}

/// The message when the parser's tree cannot be read.
pub open spec fn unreadable_msg() -> Seq<char> {
    "Parse error: the syntax tree could not be read"@
}

fn read_tree(t: &String) -> (r: Option<Node>)
    ensures
        r matches Some(d) ==> t@.len() < usize::MAX && read_text(t@) == Some(d@),
        r is None ==> t@.len() >= usize::MAX || read_text(t@) is None,
{
    let cs = chars_of(t.as_str());
    if cs.len() >= usize::MAX {
        return None;
    }
    read_text_exec(&cs)
}

/// Parses Python source as a module: a parse error gives `Parse error: ` and the parser's
/// message; otherwise the module is read from the parser's tree.
pub fn parse_module(source: &str) -> (r: Result<Module, String>)
    ensures
        module_text(source@) is Err ==> r is Err && r->Err_0@ =~= "Parse error: "@ + module_text(source@)->Err_0,
        module_text(source@) is Ok ==> (r is Ok <==> exists|x: Module| #[trigger] text_module(module_text(source@)->Ok_0, x)),
        module_text(source@) is Ok && r is Ok ==> text_module(module_text(source@)->Ok_0, r->Ok_0),
        module_text(source@) is Ok && r is Err ==> r->Err_0@ =~= unreadable_msg(),
        module_parse(source@, r),
{
    match parse_module_text(source) {
        Err(e) => {
            let mut msg = String::from_str("Parse error: ");
            msg.append(e.as_str());
            Err(msg)
        },
        Ok(t) => {
            assert(module_text(source@)->Ok_0 == t@);
            let unreadable = String::from_str("Parse error: the syntax tree could not be read");
            match read_tree(&t) {
                Some(d) => match module_from(&d) {
                    Some(m) => {
                        assert(text_module(t@, m));
                        assert(exists|x: Module| #[trigger] text_module(module_text(source@)->Ok_0, x));
                        Ok(m)
                    },
                    None => {
                        assert forall|m: Module| !text_module(t@, m) by {
                            assert(!describes_module(d@, m));
                        }
                        Err(unreadable)
                    },
                },
                None => {
                    assert forall|m: Module| !text_module(t@, m) by {}
                    Err(unreadable)
                },
            }
        },
    }
}

/// Parses Python source as one expression: a parse error gives `Parse error: ` and the
/// parser's message; otherwise the expression is read from the parser's tree, and a tree
/// that holds no expression gives `Expected expression`.
pub fn parse_expression(source: &str) -> (r: Result<Expr, String>)
    ensures
        expression_text(source@) is Err ==> r is Err && r->Err_0@ =~= "Parse error: "@ + expression_text(source@)->Err_0,
        expression_text(source@) is Ok ==> (r is Ok <==> exists|x: Expr| #[trigger] text_expression(expression_text(source@)->Ok_0, x)),
        expression_text(source@) is Ok && r is Ok ==> text_expression(expression_text(source@)->Ok_0, r->Ok_0),
        expression_text(source@) is Ok && r is Err ==> r->Err_0@ =~= "Expected expression"@,
{
    match parse_expression_text(source) {
        Err(e) => {
            let mut msg = String::from_str("Parse error: ");
            msg.append(e.as_str());
            Err(msg)
        },
        Ok(t) => {
            assert(expression_text(source@)->Ok_0 == t@);
            let expected = String::from_str("Expected expression");
            match read_tree(&t) {
                Some(d) => match expression_from(&d) {
                    Some(e) => {
                        assert(text_expression(t@, e));
                        assert(exists|x: Expr| #[trigger] text_expression(expression_text(source@)->Ok_0, x));
                        Ok(e)
                    },
                    None => {
                        assert forall|e: Expr| !text_expression(t@, e) by {
                            assert(!describes_expression(d@, e));
                        }
                        Err(expected)
                    },
                },
                None => {
                    assert forall|e: Expr| !text_expression(t@, e) by {}
                    Err(expected)
                },
            }
        },
    }
}

} // verus!

verus! {

// ---------------------------------------------------------------------------------------
// Where the statements of a module stand in its source.

/// Where the first `.` from `i` on stands, or the length.
pub open spec fn first_dot(w: Seq<char>, i: int) -> int
    decreases w.len() - i,
{
    if i < 0 || i >= w.len() || w[i] == '.' {
        i
    } else {
        first_dot(w, i + 1)
    }
}

/// The offsets of a range written `start..end`.
pub open spec fn range_value(w: Seq<char>) -> Option<(nat, nat)> {
    let k = first_dot(w, 0);
    if 0 <= k && k + 1 < w.len() && w[k + 1] == '.' && all_digits(w.subrange(0, k)) && all_digits(
        w.subrange(k + 2, w.len() as int),
    ) {
        Some((digits_value(w.subrange(0, k)), digits_value(w.subrange(k + 2, w.len() as int))))
    } else {
        None
    }
}

/// The range of a statement: the `range` field of its record.
pub open spec fn stmt_range(d: SNode) -> Option<(nat, nat)> {
    match d {
        SNode::Call(_, args) => if args.len() == 1 && args[0] is Record {
            match fld(args[0]->Record_1, "range"@) {
                Some(SNode::Word(w)) => range_value(w),
                _ => None,
            }
        } else {
            None
        },
        _ => None,
    }
}

/// The statements of a module's tree.
pub open spec fn body_nodes(d: SNode) -> Option<Seq<SNode>> {
    match variant(d, "Module"@) {
        Some(f) => list_fld(f, "body"@),
        None => None,
    }
}

/// A text that holds the tree of a module whose statements stand at `sp`.
pub open spec fn text_spans(t: Seq<char>, sp: Seq<Span>) -> bool {
    t.len() < usize::MAX && match read_text(t) {
        Some(d) => match body_nodes(d) {
            Some(xs) => xs.len() == sp.len() && forall|i: int|
                0 <= i < sp.len() ==> stmt_range(xs[i]) == Some(((#[trigger] sp[i]).start as nat, sp[i].end as nat)),
            None => false,
        },
        None => false,
    }
}

/// Reads a word of decimal digits as a `usize`.
fn usize_of(w: &Vec<char>) -> (r: Option<usize>)
    ensures
        r matches Some(v) ==> all_digits(w@) && v as nat == digits_value(w@),
        r is None ==> !all_digits(w@) || digits_value(w@) > usize::MAX,
{
    if w.len() == 0 {
        return None;
    }
    let mut v: usize = 0;
    let mut i: usize = 0;
    while i < w.len()
        invariant
            0 <= i <= w.len(),
            forall|k: int| 0 <= k < i ==> is_digit(#[trigger] w@[k]),
            v as nat == digits_value(w@.take(i as int)),
        decreases w.len() - i,
    {
        let c = w[i];
        if !('0' <= c && c <= '9') {
            assert(!is_digit(w@[i as int]));
            return None;
        }
        assert(w@.take(i + 1).drop_last() =~= w@.take(i as int));
        assert(w@.take(i + 1).last() == c);
        let dg = (c as u32 - '0' as u32) as usize;
        if v > (usize::MAX - dg) / 10 {
            assert(v * 10 + dg > usize::MAX) by (nonlinear_arith)
                requires
                    v > (usize::MAX - dg) / 10,
                    dg <= 9,
            ;
            proof {
                if all_digits(w@) {
                    crate::cli::lemma_digits_value_grows(w@, i + 1);
                }
            }
            return None;
        }
        assert(v * 10 + dg <= usize::MAX) by (nonlinear_arith)
            requires
                v <= (usize::MAX - dg) / 10,
                dg <= 9,
        ;
        v = v * 10 + dg;
        i += 1;
    }
    assert(w@.take(w.len() as int) =~= w@);
    Some(v)
}

fn first_dot_exec(w: &Vec<char>) -> (r: usize)
    ensures
        r == first_dot(w@, 0),
        r <= w.len(),
{
    let mut i: usize = 0;
    while i < w.len() && w[i] != '.'
        invariant
            0 <= i <= w.len(),
            first_dot(w@, i as int) == first_dot(w@, 0),
        decreases w.len() - i,
    {
        i += 1;
    }
    i
}

fn stmt_span(d: &Node) -> (r: Option<Span>)
    ensures
        r matches Some(sp) ==> stmt_range(d@) == Some((sp.start as nat, sp.end as nat)),
        r is None ==> forall|sp: Span| stmt_range(d@) != Some((sp.start as nat, sp.end as nat)),
{
    let args = match d {
        Node::Call(_, args) => args,
        _ => return None,
    };
    if args.len() != 1 {
        return None;
    }
    assert(nviews(args@)[0] == nview(args@[0]));
    let fs = match &args[0] {
        Node::Record(_, fs) => fs,
        _ => return None,
    };
    let w = match fld_exec(fs, "range") {
        Some(Node::Word(w)) => w,
        _ => return None,
    };
    let k = first_dot_exec(w);
    if !(k < w.len() && k + 1 < w.len() && w[k + 1] == '.') {
        return None;
    }
    let a = slice_chars(w, 0, k);
    let b = slice_chars(w, k + 2, w.len());
    let start = match usize_of(&a) {
        Some(v) => v,
        None => return None,
    };
    let end = match usize_of(&b) {
        Some(v) => v,
        None => return None,
    };
    Some(Span { start, end })
}

/// The spans of the statements of a module's source, as the parser gives them: a parse
/// error gives `Parse error: ` and the parser's message.
pub fn statement_spans(source: &str) -> (r: Result<Vec<Span>, String>)
    ensures
        module_text(source@) is Err ==> r is Err && r->Err_0@ =~= "Parse error: "@ + module_text(source@)->Err_0,
        module_text(source@) is Ok ==> (r is Ok <==> exists|x: Seq<Span>| #[trigger] text_spans(module_text(source@)->Ok_0, x)),
        module_text(source@) is Ok && r is Ok ==> text_spans(module_text(source@)->Ok_0, r->Ok_0@),
        module_text(source@) is Ok && r is Err ==> r->Err_0@ =~= unreadable_msg(),
{
    let t = match parse_module_text(source) {
        Err(e) => {
            let mut msg = String::from_str("Parse error: ");
            msg.append(e.as_str());
            return Err(msg);
        },
        Ok(t) => t,
    };
    assert(module_text(source@)->Ok_0 == t@);
    let unreadable = String::from_str("Parse error: the syntax tree could not be read");
    let d = match read_tree(&t) {
        Some(d) => d,
        None => {
            assert forall|x: Seq<Span>| !text_spans(t@, x) by {}
            return Err(unreadable);
        },
    };
    let xs = match variant_exec(&d, "Module") {
        Some(f) => match list_fld_exec(f, "body") {
            Some(xs) => xs,
            None => {
                assert forall|x: Seq<Span>| !text_spans(t@, x) by {}
                return Err(unreadable);
            },
        },
        None => {
            assert forall|x: Seq<Span>| !text_spans(t@, x) by {}
            return Err(unreadable);
        },
    };
    let ghost ds = nviews(xs@);
    assert(body_nodes(d@) == Some(ds));
    let mut out: Vec<Span> = Vec::new();
    let mut i: usize = 0;
    while i < xs.len()
        invariant
            0 <= i <= xs.len(),
            ds == nviews(xs@),
            module_text(source@) is Ok,
            module_text(source@)->Ok_0 == t@,
            unreadable@ == unreadable_msg(),
            t@.len() < usize::MAX,
            read_text(t@) == Some(d@),
            body_nodes(d@) == Some(ds),
            out.len() == i,
            forall|j: int|
                0 <= j < i ==> stmt_range(ds[j]) == Some(((#[trigger] out@[j]).start as nat, out@[j].end as nat)),
        decreases xs.len() - i,
    {
        assert(ds[i as int] == xs@[i as int]@);
        match stmt_span(&xs[i]) {
            Some(sp) => {
                out.push(sp);
            },
            None => {
                assert forall|x: Seq<Span>| !text_spans(t@, x) by {
                    if text_spans(t@, x) {
                        assert(stmt_range(ds[i as int]) == Some((x[i as int].start as nat, x[i as int].end as nat)));
                    }
                }
                return Err(unreadable);
            },
        }
        i += 1;
    }
    assert(text_spans(t@, out@));
    Ok(out)
}

} // verus!
