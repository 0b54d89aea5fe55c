//! The text form of a tree of values, as `{:?}` writes one: words, quoted strings, lists
//! `[a, b]`, tuple variants `Name(a, b)` (or a bare `(a, b)`), and records
//! `Name { f: a, g: b }`.
use vstd::prelude::*;

verus! {

/// A value of the text form, as a model.
pub enum SNode {
    /// A run of characters none of which is a delimiter.
    Word(Seq<char>),
    /// A quoted string: the characters between the quotes, escapes kept.
    Quoted(Seq<char>),
    List(Seq<SNode>),
    /// A tuple variant; a bare tuple has an empty name.
    Call(Seq<char>, Seq<SNode>),
    /// A record with at least one field.
    Record(Seq<char>, Seq<(Seq<char>, SNode)>),
}

/// A value of the text form.
pub enum Node {
    Word(Vec<char>),
    Quoted(Vec<char>),
    List(Vec<Node>),
    Call(Vec<char>, Vec<Node>),
    Record(Vec<char>, Vec<(Vec<char>, Node)>),
}

pub open spec fn nview(n: Node) -> SNode
    decreases n,
{
    match n {
        Node::Word(w) => SNode::Word(w@),
        Node::Quoted(q) => SNode::Quoted(q@),
        Node::List(vs) => SNode::List(nviews(vs@)),
        Node::Call(name, vs) => SNode::Call(name@, nviews(vs@)),
        Node::Record(name, fs) => SNode::Record(name@, fviews(fs@)),
    }
}

pub open spec fn nviews(s: Seq<Node>) -> Seq<SNode>
    decreases s,
{
    Seq::new(s.len(), |i: int| if 0 <= i < s.len() { nview(s[i]) } else { SNode::Word(Seq::empty()) })
}

pub open spec fn fviews(s: Seq<(Vec<char>, Node)>) -> Seq<(Seq<char>, SNode)>
    decreases s,
{
    Seq::new(
        s.len(),
        |i: int|
            if 0 <= i < s.len() {
                (s[i].0@, nview(s[i].1))
            } else {
                (Seq::empty(), SNode::Word(Seq::empty()))
            },
    )
}

impl View for Node {
    type V = SNode;

    open spec fn view(&self) -> SNode {
        nview(*self)
    }
}

/// The characters that end a word.
pub open spec fn is_delim(c: char) -> bool {
    c == ' ' || c == ',' || c == '(' || c == ')' || c == '[' || c == ']' || c == '{' || c == '}'
        || c == '"' || c == ':'
}

/// Where the word starting at `p` ends.
pub open spec fn word_end(t: Seq<char>, p: int) -> int
    decreases t.len() - p,
{
    if p < 0 || p >= t.len() || is_delim(t[p]) {
        p
    } else {
        word_end(t, p + 1)
    }
}

/// Where the closing quote of a string whose characters start at `p` stands: the first
/// `"` that no backslash escapes.
pub open spec fn quote_end(t: Seq<char>, p: int) -> Option<int>
    decreases t.len() - p,
{
    if p < 0 || p >= t.len() {
        None
    } else if t[p] == '"' {
        Some(p)
    } else if t[p] == '\\' {
        if p + 1 < t.len() {
            quote_end(t, p + 2)
        } else {
            None
        }
    } else {
        quote_end(t, p + 1)
    }
}

/// Whether `t` holds `c` at `p`.
pub open spec fn at(t: Seq<char>, p: int, c: char) -> bool {
    0 <= p < t.len() && t[p] == c
}

/// The value that starts at `p`, and where it ends.
pub open spec fn read_value(t: Seq<char>, p: int) -> Option<(SNode, int)>
    decreases t.len() - p, 0nat,
{
    if p < 0 || p >= t.len() {
        None
    } else if t[p] == '"' {
        match quote_end(t, p + 1) {
            Some(q) => Some((SNode::Quoted(t.subrange(p + 1, q)), q + 1)),
            None => None,
        }
    } else if t[p] == '[' {
        match read_items(t, p + 1, ']') {
            Some((vs, q)) => Some((SNode::List(vs), q)),
            None => None,
        }
    } else if t[p] == '(' {
        match read_items(t, p + 1, ')') {
            Some((vs, q)) => Some((SNode::Call(Seq::empty(), vs), q)),
            None => None,
        }
    } else if is_delim(t[p]) {
        None
    } else {
        let q = word_end(t, p + 1);
        proof {
            lemma_word_end(t, p + 1);
        }
        let name = t.subrange(p, q);
        if at(t, q, '(') {
            match read_items(t, q + 1, ')') {
                Some((vs, r)) => Some((SNode::Call(name, vs), r)),
                None => None,
            }
        } else if at(t, q, ' ') && at(t, q + 1, '{') {
            match read_fields(t, q + 2) {
                Some((fs, r)) => Some((SNode::Record(name, fs), r)),
                None => None,
            }
        } else {
            Some((SNode::Word(name), q))
        }
    }
}

/// The items of a list or tuple whose first item starts at `p`, up to and past `close`.
pub open spec fn read_items(t: Seq<char>, p: int, close: char) -> Option<(Seq<SNode>, int)>
    decreases t.len() - p, 1nat,
{
    if at(t, p, close) {
        Some((Seq::empty(), p + 1))
    } else {
        match read_value(t, p) {
            Some((v, q)) => if q <= p || q > t.len() {
                None
            } else {
                match read_more_items(t, q, close) {
                    Some((vs, r)) => Some((seq![v] + vs, r)),
                    None => None,
                }
            },
            None => None,
        }
    }
}

/// The items after one that ends at `p`: `, item` again and again, then `close`.
pub open spec fn read_more_items(t: Seq<char>, p: int, close: char) -> Option<(Seq<SNode>, int)>
    decreases t.len() - p, 1nat,
{
    if at(t, p, close) {
        Some((Seq::empty(), p + 1))
    } else if at(t, p, ',') && at(t, p + 1, ' ') {
        match read_value(t, p + 2) {
            Some((v, q)) => if q <= p || q > t.len() {
                None
            } else {
                match read_more_items(t, q, close) {
                    Some((vs, r)) => Some((seq![v] + vs, r)),
                    None => None,
                }
            },
            None => None,
        }
    } else {
        None
    }
}

/// The fields of a record after its `{`: ` name: value`, then `, name: value` again and
/// again, then ` }`.
pub open spec fn read_fields(t: Seq<char>, p: int) -> Option<(Seq<(Seq<char>, SNode)>, int)>
    decreases t.len() - p, 1nat,
{
    if at(t, p, ' ') {
        read_field(t, p + 1)
    } else {
        None
    }
}

/// A field starting at `p` and those after it.
pub open spec fn read_field(t: Seq<char>, p: int) -> Option<(Seq<(Seq<char>, SNode)>, int)>
    decreases t.len() - p, 1nat,
{
    let q = word_end(t, p);
    if p < 0 || q <= p || !(at(t, q, ':') && at(t, q + 1, ' ')) {
        None
    } else {
        match read_value(t, q + 2) {
            Some((v, r)) => if r <= q || r > t.len() {
                None
            } else if at(t, r, ',') && at(t, r + 1, ' ') {
                match read_field(t, r + 2) {
                    Some((fs, e)) => Some((seq![(t.subrange(p, q), v)] + fs, e)),
                    None => None,
                }
            } else if at(t, r, ' ') && at(t, r + 1, '}') {
                Some((seq![(t.subrange(p, q), v)], r + 2))
            } else {
                None
            },
            None => None,
        }
    }
}

/// The value that a whole text holds, if it holds exactly one.
pub open spec fn read_text(t: Seq<char>) -> Option<SNode> {
    match read_value(t, 0) {
        Some((v, q)) => if q == t.len() {
            Some(v)
        } else {
            None
        },
        None => None,
    }
}

pub proof fn lemma_word_end(t: Seq<char>, p: int)
    requires
        0 <= p <= t.len(),
    ensures
        p <= word_end(t, p) <= t.len(),
    decreases t.len() - p,
{
    if p < t.len() && !is_delim(t[p]) {
        lemma_word_end(t, p + 1);
    }
}

pub proof fn lemma_quote_end(t: Seq<char>, p: int)
    requires
        0 <= p,
    ensures
        quote_end(t, p) matches Some(q) ==> p <= q < t.len() && t[q] == '"',
    decreases t.len() - p,
{
    if p < t.len() && t[p] != '"' {
        if t[p] == '\\' {
            if p + 1 < t.len() {
                lemma_quote_end(t, p + 2);
            }
        } else {
            lemma_quote_end(t, p + 1);
        }
    }
}

/// The characters from `a` to `b`.
pub fn slice_chars(t: &Vec<char>, a: usize, b: usize) -> (r: Vec<char>)
    requires
        a <= b <= t.len(),
    ensures
        r@ == t@.subrange(a as int, b as int),
{
    let mut r: Vec<char> = Vec::new();
    let mut i = a;
    while i < b
        invariant
            a <= i <= b <= t.len(),
            r@ == t@.subrange(a as int, i as int),
        decreases b - i,
    {
        r.push(t[i]);
        assert(r@ =~= t@.subrange(a as int, i + 1));
        i += 1;
    }
    r
}

fn is_delim_exec(c: char) -> (r: bool)
    ensures
        r == is_delim(c),
{
    c == ' ' || c == ',' || c == '(' || c == ')' || c == '[' || c == ']' || c == '{' || c == '}'
        || c == '"' || c == ':'
}

fn at_exec(t: &Vec<char>, p: usize, c: char) -> (r: bool)
    ensures
        r == at(t@, p as int, c),
{
    p < t.len() && t[p] == c
}

fn word_end_exec(t: &Vec<char>, p: usize) -> (r: usize)
    requires
        p <= t.len(),
    ensures
        r == word_end(t@, p as int),
        p <= r <= t.len(),
{
    let mut q = p;
    proof {
        lemma_word_end(t@, p as int);
    }
    while q < t.len() && !is_delim_exec(t[q])
        invariant
            p <= q <= t.len(),
            word_end(t@, q as int) == word_end(t@, p as int),
        decreases t.len() - q,
    {
        q += 1;
    }
    q
}

fn quote_end_exec(t: &Vec<char>, p: usize) -> (r: Option<usize>)
    requires
        p <= t.len(),
        t.len() < usize::MAX,
    ensures
        r matches Some(q) ==> quote_end(t@, p as int) == Some(q as int),
        r is None ==> quote_end(t@, p as int) is None,
{
    proof {
        lemma_quote_end(t@, p as int);
    }
    let mut q = p;
    while q < t.len()
        invariant
            p <= q <= t.len(),
            t.len() < usize::MAX,
            quote_end(t@, q as int) == quote_end(t@, p as int),
        decreases t.len() - q,
    {
        if t[q] == '"' {
            return Some(q);
        } else if t[q] == '\\' {
            if q + 2 > t.len() {
                assert(quote_end(t@, (q + 2) as int) is None);
                return None;
            }
            q += 2;
        } else {
            q += 1;
        }
    }
    None
}

/// Reads the value that starts at `p`.
pub fn read_value_exec(t: &Vec<char>, p: usize) -> (r: Option<(Node, usize)>)
    requires
        p <= t.len(),
        t.len() < usize::MAX,
    ensures
        r matches Some((v, q)) ==> read_value(t@, p as int) == Some((v@, q as int)) && q <= t.len(),
        r is None ==> read_value(t@, p as int) is None,
    decreases t.len() - p, 0nat,
{
    if p >= t.len() {
        return None;
    }
    let c = t[p];
    if c == '"' {
        match quote_end_exec(t, p + 1) {
            Some(q) => {
                proof {
                    lemma_quote_end(t@, p + 1);
                }
                let s = slice_chars(t, p + 1, q);
                Some((Node::Quoted(s), q + 1))
            },
            None => None,
        }
    } else if c == '[' {
        match read_items_exec(t, p + 1, ']') {
            Some((vs, q)) => Some((Node::List(vs), q)),
            None => None,
        }
    } else if c == '(' {
        match read_items_exec(t, p + 1, ')') {
            Some((vs, q)) => {
                let name: Vec<char> = Vec::new();
                assert(name@ =~= Seq::<char>::empty());
                Some((Node::Call(name, vs), q))
            },
            None => None,
        }
    } else if is_delim_exec(c) {
        None
    } else {
        let q = word_end_exec(t, p + 1);
        let name = slice_chars(t, p, q);
        if at_exec(t, q, '(') {
            match read_items_exec(t, q + 1, ')') {
                Some((vs, r)) => Some((Node::Call(name, vs), r)),
                None => None,
            }
        } else if at_exec(t, q, ' ') && at_exec(t, q + 1, '{') {
            match read_fields_exec(t, q + 2) {
                Some((fs, r)) => Some((Node::Record(name, fs), r)),
                None => None,
            }
        } else {
            Some((Node::Word(name), q))
        }
    }
}

fn read_items_exec(t: &Vec<char>, p: usize, close: char) -> (r: Option<(Vec<Node>, usize)>)
    requires
        p <= t.len(),
        t.len() < usize::MAX,
    ensures
        r matches Some((vs, q)) ==> read_items(t@, p as int, close) == Some((nviews(vs@), q as int)) && q <= t.len(),
        r is None ==> read_items(t@, p as int, close) is None,
    decreases t.len() - p, 1nat,
{
    if at_exec(t, p, close) {
        let vs: Vec<Node> = Vec::new();
        assert(nviews(vs@) =~= Seq::<SNode>::empty());
        return Some((vs, p + 1));
    }
    match read_value_exec(t, p) {
        Some((v, q)) => {
            if q <= p {
                return None;
            }
            match read_more_exec(t, q, close) {
                Some((vs, r)) => {
                    let ghost tail = vs@;
                    let mut out: Vec<Node> = Vec::new();
                    out.push(v);
                    let mut rest = vs;
                    out.append(&mut rest);
                    assert(nviews(out@) =~= seq![out@[0]@] + nviews(tail));
                    Some((out, r))
                },
                None => None,
            }
        },
        None => None,
    }
}

fn read_more_exec(t: &Vec<char>, p: usize, close: char) -> (r: Option<(Vec<Node>, usize)>)
    requires
        p <= t.len(),
        t.len() < usize::MAX,
    ensures
        r matches Some((vs, q)) ==> read_more_items(t@, p as int, close) == Some((nviews(vs@), q as int))
            && q <= t.len(),
        r is None ==> read_more_items(t@, p as int, close) is None,
    decreases t.len() - p, 1nat,
{
    if at_exec(t, p, close) {
        let vs: Vec<Node> = Vec::new();
        assert(nviews(vs@) =~= Seq::<SNode>::empty());
        return Some((vs, p + 1));
    }
    if !(at_exec(t, p, ',') && at_exec(t, p + 1, ' ')) {
        return None;
    }
    match read_value_exec(t, p + 2) {
        Some((v, q)) => {
            if q <= p {
                return None;
            }
            match read_more_exec(t, q, close) {
                Some((vs, r)) => {
                    let ghost tail = vs@;
                    let mut out: Vec<Node> = Vec::new();
                    out.push(v);
                    let mut rest = vs;
                    out.append(&mut rest);
                    assert(nviews(out@) =~= seq![out@[0]@] + nviews(tail));
                    Some((out, r))
                },
                None => None,
            }
        },
        None => None,
    }
}

fn read_fields_exec(t: &Vec<char>, p: usize) -> (r: Option<(Vec<(Vec<char>, Node)>, usize)>)
    requires
        p <= t.len(),
        t.len() < usize::MAX,
    ensures
        r matches Some((fs, q)) ==> read_fields(t@, p as int) == Some((fviews(fs@), q as int)) && q <= t.len(),
        r is None ==> read_fields(t@, p as int) is None,
    decreases t.len() - p, 1nat,
{
    if at_exec(t, p, ' ') {
        read_field_exec(t, p + 1)
    } else {
        None
    }
}

fn read_field_exec(t: &Vec<char>, p: usize) -> (r: Option<(Vec<(Vec<char>, Node)>, usize)>)
    requires
        p <= t.len(),
        t.len() < usize::MAX,
    ensures
        r matches Some((fs, q)) ==> read_field(t@, p as int) == Some((fviews(fs@), q as int)) && q <= t.len(),
        r is None ==> read_field(t@, p as int) is None,
    decreases t.len() - p, 1nat,
{
    let q = word_end_exec(t, p);
    if q <= p || !(at_exec(t, q, ':') && at_exec(t, q + 1, ' ')) {
        return None;
    }
    let name = slice_chars(t, p, q);
    match read_value_exec(t, q + 2) {
        Some((v, r)) => {
            if r <= q {
                return None;
            }
            if at_exec(t, r, ',') && at_exec(t, r + 1, ' ') {
                match read_field_exec(t, r + 2) {
                    Some((fs, e)) => {
                        let ghost tail = fs@;
                        let mut out: Vec<(Vec<char>, Node)> = Vec::new();
                        out.push((name, v));
                        let mut rest = fs;
                        out.append(&mut rest);
                        assert(fviews(out@) =~= seq![(out@[0].0@, out@[0].1@)] + fviews(tail));
                        Some((out, e))
                    },
                    None => None,
                }
            } else if at_exec(t, r, ' ') && at_exec(t, r + 1, '}') {
                let mut out: Vec<(Vec<char>, Node)> = Vec::new();
                out.push((name, v));
                assert(fviews(out@) =~= seq![(out@[0].0@, out@[0].1@)]);
                Some((out, r + 2))
            } else {
                None
            }
        },
        None => None,
    }
}

/// Reads the value that a whole text holds.
pub fn read_text_exec(t: &Vec<char>) -> (r: Option<Node>)
    requires
        t.len() < usize::MAX,
    ensures
        r matches Some(v) ==> read_text(t@) == Some(v@),
        r is None ==> read_text(t@) is None,
{
    match read_value_exec(t, 0) {
        Some((v, q)) => if q == t.len() {
            Some(v)
        } else {
            None
        },
        None => None,
    }
}

/// The text of a value in the text form.
pub open spec fn render(v: SNode) -> Seq<char>
    decreases v, 0nat,
{
    match v {
        SNode::Word(w) => w,
        SNode::Quoted(r) => seq!['"'] + r + seq!['"'],
        SNode::List(vs) => seq!['['] + render_items(vs) + seq![']'],
        SNode::Call(n, vs) => n + seq!['('] + render_items(vs) + seq![')'],
        SNode::Record(n, fs) => n + seq![' ', '{'] + render_fields(fs) + seq![' ', '}'],
    }
}

/// The text of items: each after the first preceded by `, `.
pub open spec fn render_items(vs: Seq<SNode>) -> Seq<char>
    decreases vs, 1nat,
{
    if vs.len() == 0 {
        Seq::empty()
    } else {
        render(vs[0]) + render_more(vs.subrange(1, vs.len() as int))
    }
}

pub open spec fn render_more(vs: Seq<SNode>) -> Seq<char>
    decreases vs, 1nat,
{
    if vs.len() == 0 {
        Seq::empty()
    } else {
        seq![',', ' '] + render(vs[0]) + render_more(vs.subrange(1, vs.len() as int))
    }
}

/// The text of fields: ` name: value`, then `, name: value` for each further one.
pub open spec fn render_fields(fs: Seq<(Seq<char>, SNode)>) -> Seq<char>
    decreases fs, 1nat,
{
    if fs.len() == 0 {
        Seq::empty()
    } else {
        seq![' '] + fs[0].0 + seq![':', ' '] + render(fs[0].1) + render_more_fields(fs.subrange(1, fs.len() as int))
    }
}

pub open spec fn render_more_fields(fs: Seq<(Seq<char>, SNode)>) -> Seq<char>
    decreases fs, 1nat,
{
    if fs.len() == 0 {
        Seq::empty()
    } else {
        seq![',', ' '] + fs[0].0 + seq![':', ' '] + render(fs[0].1) + render_more_fields(fs.subrange(1, fs.len() as int))
    }
}

/// What reading a value finds is what its text is: the value read from `p` to `q` renders
/// as the text between them.
#[verifier::spinoff_prover]
#[verifier::rlimit(80)]
pub proof fn lemma_read_value_sound(t: Seq<char>, p: int)
    ensures
        read_value(t, p) matches Some((v, q)) ==> p < q <= t.len() && render(v) == t.subrange(p, q),
    decreases t.len() - p, 0nat,
{
    if 0 <= p < t.len() {
        if t[p] == '"' {
            lemma_quote_end(t, p + 1);
            if let Some(q) = quote_end(t, p + 1) {
                assert(t.subrange(p, q + 1) =~= seq!['"'] + t.subrange(p + 1, q) + seq!['"']);
            }
        } else if t[p] == '[' {
            lemma_read_items_sound(t, p + 1, ']');
            if let Some((vs, q)) = read_items(t, p + 1, ']') {
                assert(t.subrange(p, q) =~= seq!['['] + t.subrange(p + 1, q));
                assert(t.subrange(p + 1, q) =~= t.subrange(p + 1, q - 1) + seq![']']);
            }
        } else if t[p] == '(' {
            lemma_read_items_sound(t, p + 1, ')');
            if let Some((vs, q)) = read_items(t, p + 1, ')') {
                assert(t.subrange(p, q) =~= Seq::<char>::empty() + seq!['('] + t.subrange(p + 1, q));
                assert(t.subrange(p + 1, q) =~= t.subrange(p + 1, q - 1) + seq![')']);
            }
        } else if !is_delim(t[p]) {
            let q = word_end(t, p + 1);
            lemma_word_end(t, p + 1);
            if at(t, q, '(') {
                lemma_read_items_sound(t, q + 1, ')');
                if let Some((vs, r)) = read_items(t, q + 1, ')') {
                    assert(t.subrange(p, r) =~= t.subrange(p, q) + seq!['('] + t.subrange(q + 1, r));
                    assert(t.subrange(q + 1, r) =~= t.subrange(q + 1, r - 1) + seq![')']);
                }
            } else if at(t, q, ' ') && at(t, q + 1, '{') {
                lemma_read_fields_sound(t, q + 2);
                if let Some((fs, r)) = read_fields(t, q + 2) {
                    assert(t.subrange(p, r) =~= t.subrange(p, q) + seq![' ', '{'] + t.subrange(q + 2, r));
                    assert(t.subrange(q + 2, r) =~= t.subrange(q + 2, r - 2) + seq![' ', '}']);
                }
            }
        }
    }
}

/// The items read from `p` render, with the closing character, as the text up to where
/// reading stopped.
#[verifier::spinoff_prover]
#[verifier::rlimit(80)]
pub proof fn lemma_read_items_sound(t: Seq<char>, p: int, close: char)
    ensures
        read_items(t, p, close) matches Some((vs, q)) ==> p < q <= t.len() && render_items(vs) + seq![close]
            == t.subrange(p, q),
    decreases t.len() - p, 1nat,
{
    if at(t, p, close) {
        assert(t.subrange(p, p + 1) =~= seq![close]);
        assert(render_items(Seq::<SNode>::empty()) + seq![close] =~= seq![close]);
    } else {
        lemma_read_value_sound(t, p);
        if let Some((v, q)) = read_value(t, p) {
            if q > p && q <= t.len() {
                lemma_read_more_sound(t, q, close);
                if let Some((vs, r)) = read_more_items(t, q, close) {
                    let all = seq![v] + vs;
                    assert(all[0] == v);
                    assert(all.subrange(1, all.len() as int) =~= vs);
                    assert(t.subrange(p, r) =~= t.subrange(p, q) + t.subrange(q, r));
                    assert(render_items(all) + seq![close] =~= render(v) + (render_more(vs) + seq![close]));
                }
            }
        }
    }
}

#[verifier::spinoff_prover]
#[verifier::rlimit(80)]
pub proof fn lemma_read_more_sound(t: Seq<char>, p: int, close: char)
    ensures
        read_more_items(t, p, close) matches Some((vs, q)) ==> p < q <= t.len() && render_more(vs) + seq![close]
            == t.subrange(p, q),
    decreases t.len() - p, 1nat,
{
    if at(t, p, close) {
        assert(t.subrange(p, p + 1) =~= seq![close]);
        assert(render_more(Seq::<SNode>::empty()) + seq![close] =~= seq![close]);
    } else if at(t, p, ',') && at(t, p + 1, ' ') {
        lemma_read_value_sound(t, p + 2);
        if let Some((v, q)) = read_value(t, p + 2) {
            if q > p && q <= t.len() {
                lemma_read_more_sound(t, q, close);
                if let Some((vs, r)) = read_more_items(t, q, close) {
                    let all = seq![v] + vs;
                    assert(all[0] == v);
                    assert(all.subrange(1, all.len() as int) =~= vs);
                    assert(t.subrange(p, r) =~= seq![',', ' '] + t.subrange(p + 2, q) + t.subrange(q, r));
                    assert(render_more(all) + seq![close] =~= seq![',', ' '] + render(v) + (render_more(vs) + seq![
                        close,
                    ]));
                }
            }
        }
    }
}

/// The fields read after a `{` render, with the closing ` }`, as the text up to where
/// reading stopped.
#[verifier::spinoff_prover]
#[verifier::rlimit(80)]
pub proof fn lemma_read_fields_sound(t: Seq<char>, p: int)
    ensures
        read_fields(t, p) matches Some((fs, q)) ==> p < q <= t.len() && render_fields(fs) + seq![' ', '}']
            == t.subrange(p, q),
    decreases t.len() - p, 1nat,
{
    if at(t, p, ' ') {
        lemma_read_field_sound(t, p + 1);
        if let Some((fs, q)) = read_field(t, p + 1) {
            assert(fs.len() > 0);
            assert(t.subrange(p, q) =~= seq![' '] + t.subrange(p + 1, q));
            assert(render_fields(fs) + seq![' ', '}'] =~= seq![' '] + (fs[0].0 + seq![':', ' '] + render(fs[0].1)
                + render_more_fields(fs.subrange(1, fs.len() as int)) + seq![' ', '}']));
        }
    }
}

/// A field read from `p`, and those after it, render as the text up to where reading
/// stopped: `name: value`, then `, name: value` for each further one, then ` }`.
#[verifier::spinoff_prover]
#[verifier::rlimit(80)]
pub proof fn lemma_read_field_sound(t: Seq<char>, p: int)
    ensures
        read_field(t, p) matches Some((fs, q)) ==> p < q <= t.len() && fs.len() > 0 && fs[0].0 + seq![':', ' ']
            + render(fs[0].1) + render_more_fields(fs.subrange(1, fs.len() as int)) + seq![' ', '}'] == t.subrange(
            p,
            q,
        ),
    decreases t.len() - p, 1nat,
{
    let q = word_end(t, p);
    if 0 <= p && p <= t.len() {
        lemma_word_end(t, p);
    }
    if !(p < 0 || q <= p || !(at(t, q, ':') && at(t, q + 1, ' '))) {
        lemma_read_value_sound(t, q + 2);
        if let Some((v, r)) = read_value(t, q + 2) {
            if !(r <= q || r > t.len()) {
                let name = t.subrange(p, q);
                if at(t, r, ',') && at(t, r + 1, ' ') {
                    lemma_read_field_sound(t, r + 2);
                    if let Some((fs, e)) = read_field(t, r + 2) {
                        let all = seq![(name, v)] + fs;
                        assert(all[0] == (name, v));
                        assert(all.subrange(1, all.len() as int) =~= fs);
                        assert(fs.subrange(0, fs.len() as int) =~= fs);
                        assert(render_more_fields(fs) =~= seq![',', ' '] + fs[0].0 + seq![':', ' '] + render(fs[0].1)
                            + render_more_fields(fs.subrange(1, fs.len() as int)));
                        assert(t.subrange(p, e) =~= name + seq![':', ' '] + t.subrange(q + 2, r) + seq![',', ' ']
                            + t.subrange(r + 2, e));
                    }
                } else if at(t, r, ' ') && at(t, r + 1, '}') {
                    let all = seq![(name, v)];
                    assert(all.subrange(1, 1) =~= Seq::<(Seq<char>, SNode)>::empty());
                    assert(t.subrange(p, r + 2) =~= name + seq![':', ' '] + t.subrange(q + 2, r) + seq![' ', '}']);
                }
            }
        }
    }
}

/// A whole text that reads as a value is that value's text.
pub proof fn lemma_read_text_sound(t: Seq<char>)
    ensures
        read_text(t) matches Some(v) ==> render(v) == t,
{
    lemma_read_value_sound(t, 0);
    if let Some((v, q)) = read_value(t, 0) {
        if q == t.len() {
            assert(t.subrange(0, q) =~= t);
        }
    }
}

} // verus!

