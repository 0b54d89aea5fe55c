//! The checker that the command line runs: names, literals, arithmetic, containers,
//! calls and attributes, with function signatures taken from their annotations.
use vstd::prelude::*;
use crate::types::{Type, SType, tviews, lemma_tviews_index};
use crate::equality::lemma_view_tag;
use crate::pyast::{Expr, Stmt, Param, Module, Operator};
use crate::context::{TypeContext, has_attr, opt_view};
use crate::subtype::union_of;
use crate::protocols::text_eq;
use crate::checker::{
    SChk, Env, SErr, TypeError, with_fresh, with_type, with_err, errs_match, err_matches,
    attr_names_of, const_type, attr_error_message, is_num,
};
use crate::constraints::SolverState;

verus! {

/// The type an annotation denotes.
pub open spec fn ann_type(e: Expr) -> SType
    decreases e,
{
    match e {
        Expr::Name(id) => name_type(id@),
        Expr::Subscript(v, sl) => match *v {
            Expr::Name(n) => if n@ == "list"@ || n@ == "List"@ {
                SType::List(Box::new(ann_type(*sl)))
            } else if n@ == "set"@ || n@ == "Set"@ {
                SType::SetOf(Box::new(ann_type(*sl)))
            } else if n@ == "dict"@ || n@ == "Dict"@ {
                match *sl {
                    Expr::Tuple(es) => if es.len() == 2 {
                        SType::Dict(Box::new(ann_type(es@[0])), Box::new(ann_type(es@[1])))
                    } else {
                        SType::Dict(Box::new(SType::Any), Box::new(SType::Any))
                    },
                    _ => SType::Dict(Box::new(SType::Any), Box::new(SType::Any)),
                }
            } else {
                SType::Generic(n@, seq![ann_type(*sl)])
            },
            _ => SType::Any,
        },
        Expr::BinOp(l, op, r) => if op == Operator::BitOr {
            SType::Union(seq![ann_type(*l), ann_type(*r)])
        } else {
            SType::Any
        },
        _ => SType::Any,
    }
}

/// The type a plain annotation name denotes: a builtin, or the class of that name.
pub open spec fn name_type(n: Seq<char>) -> SType {
    if n == "int"@ {
        SType::Int
    } else if n == "float"@ {
        SType::Float
    } else if n == "str"@ {
        SType::Str
    } else if n == "bool"@ {
        SType::Bool
    } else if n == "bytes"@ {
        SType::Bytes
    } else if n == "None"@ {
        SType::NoneType
    } else if n == "Any"@ {
        SType::Any
    } else {
        SType::Class(n)
    }
}

/// The type of arithmetic: `int` on two ints, `float` on two numbers, else `Any`.
pub open spec fn arith_type(l: SType, r: SType) -> SType {
    if l is Int && r is Int {
        SType::Int
    } else if is_num(l) && is_num(r) {
        SType::Float
    } else {
        SType::Any
    }
}

/// Inference of an expression: the state after it and its type.
pub open spec fn infer(env: Env, st: SChk, e: Expr) -> (SChk, SType)
    decreases e,
{
    match e {
        Expr::Constant(c) => (st, const_type(c)),
        Expr::Name(id) => if st.types.contains_key(id@) {
            (st, st.types[id@])
        } else {
            with_fresh(st)
        },
        Expr::BinOp(l, _, r) => {
            let (s1, lt) = infer(env, st, *l);
            let (s2, rt) = infer(env, s1, *r);
            (s2, arith_type(lt, rt))
        },
        Expr::List(es) => if es.len() == 0 {
            let (s1, v) = with_fresh(st);
            (s1, SType::List(Box::new(v)))
        } else {
            let (s1, ts) = infer_all(env, st, es@);
            (s1, SType::List(Box::new(union_of(ts))))
        },
        Expr::Tuple(es) => {
            let (s1, ts) = infer_all(env, st, es@);
            (s1, SType::Tuple(ts))
        },
        Expr::Dict(ks, vs) => {
            let (s1, kts) = infer_keys(env, st, ks@);
            let (s2, vts) = infer_all(env, s1, vs@);
            let (s3, k) = if kts.len() == 0 {
                with_fresh(s2)
            } else {
                (s2, union_of(kts))
            };
            let (s4, v) = if vts.len() == 0 {
                with_fresh(s3)
            } else {
                (s3, union_of(vts))
            };
            (s4, SType::Dict(Box::new(k), Box::new(v)))
        },
        Expr::Call(f, _) => {
            let (s1, ft) = infer(env, st, *f);
            match ft {
                SType::Function(_, r) => (s1, *r),
                _ => with_fresh(s1),
            }
        },
        Expr::Attribute(v, a) => {
            let (s1, vt) = infer(env, st, *v);
            match has_attr(env.classes, vt, a@, env.classes.len()) {
                Some(t) => (s1, t),
                None => with_fresh(with_err(s1, SErr::NoAttr(vt, a@, attr_names_of(env, vt)))),
            }
        },
        _ => (st, SType::Any),
    }
}

/// Inference of a list of expressions, in order.
pub open spec fn infer_all(env: Env, st: SChk, es: Seq<Expr>) -> (SChk, Seq<SType>)
    decreases es,
{
    if es.len() == 0 {
        (st, Seq::empty())
    } else {
        let (s1, ts) = infer_all(env, st, es.drop_last());
        let (s2, t) = infer(env, s1, es.last());
        (s2, ts.push(t))
    }
}

/// Inference of the dict keys in order, skipping `**` entries.
pub open spec fn infer_keys(env: Env, st: SChk, ks: Seq<Option<Expr>>) -> (SChk, Seq<SType>)
    decreases ks,
{
    if ks.len() == 0 {
        (st, Seq::empty())
    } else {
        let (s1, ts) = infer_keys(env, st, ks.drop_last());
        match ks.last() {
            Some(k) => {
                let (s2, t) = infer(env, s1, k);
                (s2, ts.push(t))
            },
            None => (s1, ts),
        }
    }
}

/// The parameter types of a function: annotated ones as annotated, others fresh.
pub open spec fn param_types(st: SChk, ps: Seq<Param>) -> (SChk, Seq<SType>)
    decreases ps.len(),
{
    if ps.len() == 0 {
        (st, Seq::empty())
    } else {
        let (s1, ts) = param_types(st, ps.drop_last());
        match ps.last().annotation {
            Some(a) => (s1, ts.push(ann_type(a))),
            None => {
                let (s2, v) = with_fresh(s1);
                (s2, ts.push(v))
            },
        }
    }
}

/// The names among the targets get the type, in order.
pub open spec fn assign_names(st: SChk, ts: Seq<Expr>, t: SType) -> SChk
    decreases ts.len(),
{
    if ts.len() == 0 {
        st
    } else {
        let s1 = assign_names(st, ts.drop_last(), t);
        match ts.last() {
            Expr::Name(n) => with_type(s1, n@, t),
            _ => s1,
        }
    }
}

/// Checking a statement: a function gets its signature and its body is checked; an
/// assignment gives each name target the value's type; returned and bare expressions are
/// inferred; other statements are passed over.
pub open spec fn check_stmt(env: Env, st: SChk, s: Stmt) -> SChk
    decreases s,
{
    match s {
        Stmt::FunctionDef { name, params, result, body } => {
            let (s1, pts) = param_types(st, params@);
            let (s2, rt) = match result {
                Some(r) => (s1, ann_type(r)),
                None => with_fresh(s1),
            };
            let s3 = with_type(s2, name@, SType::Function(pts, Box::new(rt)));
            check_stmts(env, s3, body@)
        },
        Stmt::Assign { targets, value } => {
            let (s1, vt) = infer(env, st, value);
            assign_names(s1, targets@, vt)
        },
        Stmt::Return(Some(v)) => infer(env, st, v).0,
        Stmt::Expr(e) => infer(env, st, e).0,
        _ => st,
    }
}

/// Checking statements in order.
pub open spec fn check_stmts(env: Env, st: SChk, ss: Seq<Stmt>) -> SChk
    decreases ss,
{
    if ss.len() == 0 {
        st
    } else {
        check_stmt(env, check_stmts(env, st, ss.drop_last()), ss.last())
    }
}

/// The type an annotation denotes.
pub fn type_from_annotation(e: &Expr) -> (r: Type)
    ensures
        r@ == ann_type(*e),
    decreases e,
{
    match e {
        Expr::Name(id) => {
            let n = id.as_str();
            if text_eq(n, "int") {
                Type::Int
            } else if text_eq(n, "float") {
                Type::Float
            } else if text_eq(n, "str") {
                Type::Str
            } else if text_eq(n, "bool") {
                Type::Bool
            } else if text_eq(n, "bytes") {
                Type::Bytes
            } else if text_eq(n, "None") {
                Type::NoneType
            } else if text_eq(n, "Any") {
                Type::Any
            } else {
                Type::Class(id.clone())
            }
        },
        Expr::Subscript(v, sl) => match &**v {
            Expr::Name(n) => {
                let s = n.as_str();
                if text_eq(s, "list") || text_eq(s, "List") {
                    Type::List(Box::new(type_from_annotation(sl)))
                } else if text_eq(s, "set") || text_eq(s, "Set") {
                    Type::SetOf(Box::new(type_from_annotation(sl)))
                } else if text_eq(s, "dict") || text_eq(s, "Dict") {
                    match &**sl {
                        Expr::Tuple(es) => {
                            if es.len() == 2 {
                                assert(decreases_to!(es => es@[0]));
                                Type::Dict(
                                    Box::new(type_from_annotation(&es[0])),
                                    Box::new(type_from_annotation(&es[1])),
                                )
                            } else {
                                Type::Dict(Box::new(Type::Any), Box::new(Type::Any))
                            }
                        },
                        _ => Type::Dict(Box::new(Type::Any), Box::new(Type::Any)),
                    }
                } else {
                    let mut args: Vec<Type> = Vec::new();
                    args.push(type_from_annotation(sl));
                    assert(tviews(args@) =~= seq![ann_type(**sl)]);
                    Type::Generic(n.clone(), args)
                }
            },
            _ => Type::Any,
        },
        Expr::BinOp(l, op, r) => {
            if let Operator::BitOr = op {
                let mut ts: Vec<Type> = Vec::new();
                ts.push(type_from_annotation(l));
                ts.push(type_from_annotation(r));
                assert(tviews(ts@) =~= seq![ann_type(**l), ann_type(**r)]);
                Type::Union(ts)
            } else {
                Type::Any
            }
        },
        _ => Type::Any,
    }
}

/// The checker of the command line.
pub struct TypeChecker {
    ctx: TypeContext,
    errors: Vec<TypeError>,
}

impl TypeChecker {
    /// What the checker knows of the classes.
    pub closed spec fn env(&self) -> Env {
        Env { classes: self.ctx@.classes, effects: Map::empty() }
    }

    /// The checker is in the state `st` (the types of names, the next variable, the
    /// errors).
    pub closed spec fn matches(&self, st: SChk) -> bool {
        &&& self.ctx@.types == st.types
        &&& self.ctx@.next_var == st.next
        &&& errs_match(self.errors@, st.errors)
    }

    /// The state of the checker, each error taken as its message.
    pub closed spec fn model(&self) -> SChk {
        SChk {
            types: self.ctx@.types,
            next: self.ctx@.next_var,
            errors: self.errors@.map_values(|e: TypeError| SErr::Text(e.message@)),
            attrs: Map::empty(),
            cur_class: None,
            ret: None,
            solver: SolverState { pending: Seq::empty(), bounds: Map::empty(), errors: Seq::empty() },
        }
    }

    /// Every error recorded is at line 0, column 0.
    pub closed spec fn wf(&self) -> bool {
        forall|i: int| 0 <= i < self.errors@.len() ==> (#[trigger] self.errors@[i]).line == 0 && self.errors@[i].col == 0
    }

    /// A checker over a fresh context.
    pub fn new() -> (r: Self)
        ensures
            r.wf(),
            r.env().classes == crate::context::builtin_classes(),
            r.model().types == Map::<Seq<char>, SType>::empty(),
            r.model().next == 0,
            r.model().errors == Seq::<SErr>::empty(),
    {
        Self::with_context(TypeContext::new())
    }

    /// A checker over the given context.
    pub fn with_context(ctx: TypeContext) -> (r: Self)
        ensures
            r.wf(),
            r.env().classes == ctx@.classes,
            r.model().types == ctx@.types,
            r.model().next == ctx@.next_var,
            r.model().errors == Seq::<SErr>::empty(),
    {
        let r = TypeChecker { ctx, errors: Vec::new() };
        assert(r.errors@.map_values(|e: TypeError| SErr::Text(e.message@)) =~= Seq::<SErr>::empty());
        r
    }

    proof fn lemma_matches_model(&self)
        requires
            self.wf(),
        ensures
            self.matches(self.model()),
    {
        assert forall|i: int| 0 <= i < self.errors@.len() implies err_matches(
            #[trigger] self.errors@[i],
            self.model().errors[i],
        ) by {}
    }

    /// Checks a module's statements in order, in the checker's context, and hands back
    /// the errors found; those of an earlier check are dropped.
    pub fn check(&mut self, module: &Module) -> (errs: Vec<TypeError>)
        requires
            old(self).wf(),
        ensures
            final(self).wf(),
            final(self).env() == old(self).env(),
            ({
                let fin = check_stmts(old(self).env(), SChk { errors: Seq::empty(), ..old(self).model() }, module.body@);
                &&& final(self).matches(fin)
                &&& errs_match(errs@, fin.errors)
            }),
    {
        self.errors.clear();
        let ghost st0 = SChk { errors: Seq::empty(), ..old(self).model() };
        assert(self.matches(st0)) by {
            assert(self.errors@.len() == 0);
        }
        self.check_stmts(&module.body, Ghost(st0));
        let mut out: Vec<TypeError> = Vec::new();
        let mut i: usize = 0;
        while i < self.errors.len()
            invariant
                0 <= i <= self.errors.len(),
                out.len() == i,
                forall|j: int| 0 <= j < i ==> #[trigger] out@[j] == self.errors@[j],
            decreases self.errors.len() - i,
        {
            out.push(self.errors[i].clone());
            i += 1;
        }
        proof {
            let fin = check_stmts(old(self).env(), st0, module.body@);
            assert forall|j: int| 0 <= j < out@.len() implies err_matches(#[trigger] out@[j], fin.errors[j]) by {
                assert(out@[j] == self.errors@[j]);
            }
        }
        out
    }

    /// Checks the last statement of a module and gives `None`, the type of a statement.
    pub fn infer(&mut self, module: &Module) -> (r: Type)
        requires
            old(self).wf(),
        ensures
            final(self).wf(),
            r@ == SType::NoneType,
            module.body.len() > 0 ==> final(self).matches(
                check_stmt(old(self).env(), old(self).model(), module.body@.last()),
            ),
            module.body.len() == 0 ==> *final(self) == *old(self),
    {
        if module.body.len() > 0 {
            let ghost st = self.model();
            proof {
                self.lemma_matches_model();
            }
            self.check_stmt(&module.body[module.body.len() - 1], Ghost(st));
        }
        Type::NoneType
    }

    fn fresh_var(&mut self, Ghost(st): Ghost<SChk>) -> (r: Type)
        requires
            old(self).matches(st),
        ensures
            final(self).matches(with_fresh(st).0),
            r@ == with_fresh(st).1,
            final(self).env() == old(self).env(),
            final(self).errors == old(self).errors,
    {
        self.ctx.fresh_var()
    }

    fn push_error(&mut self, message: String, Ghost(st): Ghost<SChk>, Ghost(e): Ghost<SErr>)
        requires
            old(self).matches(st),
            old(self).wf(),
            err_matches(TypeError { message, line: 0, col: 0 }, e),
        ensures
            final(self).matches(with_err(st, e)),
            final(self).env() == old(self).env(),
            final(self).wf(),
    {
        let ghost before = self.errors@;
        self.errors.push(TypeError { message, line: 0, col: 0 });
        assert forall|i: int| 0 <= i < self.errors@.len() implies err_matches(
            #[trigger] self.errors@[i],
            with_err(st, e).errors[i],
        ) by {
            if i < before.len() {
                assert(self.errors@[i] == before[i]);
            }
        }
    }

    fn infer_expr(&mut self, e: &Expr, Ghost(st): Ghost<SChk>) -> (r: Type)
        requires
            old(self).wf(),
            old(self).matches(st),
        ensures
            final(self).wf(),
            final(self).env() == old(self).env(),
            final(self).matches(infer(old(self).env(), st, *e).0),
            r@ == infer(old(self).env(), st, *e).1,
        decreases e, 1nat,
    {
        let ghost env = self.env();
        match e {
            Expr::Constant(c) => crate::checker::const_type_exec(c),
            Expr::Name(id) => match self.ctx.get_type(id.as_str()) {
                Some(t) => t,
                None => self.fresh_var(Ghost(st)),
            },
            Expr::BinOp(l, _, r) => {
                let lt = self.infer_expr(l, Ghost(st));
                let ghost s1 = infer(env, st, **l).0;
                let rt = self.infer_expr(r, Ghost(s1));
                proof {
                    lemma_view_tag(lt);
                    lemma_view_tag(rt);
                }
                let li = match &lt {
                    Type::Int => true,
                    _ => false,
                };
                let ri = match &rt {
                    Type::Int => true,
                    _ => false,
                };
                if li && ri {
                    Type::Int
                } else if crate::checker::is_num_exec(&lt) && crate::checker::is_num_exec(&rt) {
                    Type::Float
                } else {
                    Type::Any
                }
            },
            Expr::List(es) => {
                if es.len() == 0 {
                    let v = self.fresh_var(Ghost(st));
                    Type::List(Box::new(v))
                } else {
                    let ts = self.infer_exprs(es, Ghost(st));
                    Type::List(Box::new(Type::union(ts)))
                }
            },
            Expr::Tuple(es) => {
                let ts = self.infer_exprs(es, Ghost(st));
                Type::Tuple(ts)
            },
            Expr::Dict(ks, vs) => {
                let kts = self.infer_keys(ks, Ghost(st));
                let ghost s1 = infer_keys(env, st, ks@).0;
                let vts = self.infer_exprs(vs, Ghost(s1));
                let ghost s2 = infer_all(env, s1, vs@).0;
                let k = if kts.len() == 0 {
                    self.fresh_var(Ghost(s2))
                } else {
                    Type::union(kts)
                };
                let ghost s3 = if tviews(kts@).len() == 0 {
                    with_fresh(s2).0
                } else {
                    s2
                };
                let v = if vts.len() == 0 {
                    self.fresh_var(Ghost(s3))
                } else {
                    Type::union(vts)
                };
                Type::Dict(Box::new(k), Box::new(v))
            },
            Expr::Call(f, _) => {
                let ft = self.infer_expr(f, Ghost(st));
                let ghost s1 = infer(env, st, **f).0;
                proof {
                    lemma_view_tag(ft);
                }
                match ft {
                    Type::Function(_, r) => *r,
                    _ => self.fresh_var(Ghost(s1)),
                }
            },
            Expr::Attribute(v, a) => {
                let vt = self.infer_expr(v, Ghost(st));
                let ghost s1 = infer(env, st, **v).0;
                match self.ctx.has_attribute(&vt, a.as_str()) {
                    Some(t) => t,
                    None => {
                        let available = self.ctx.get_attributes(&vt);
                        let ghost names = attr_names_of(env, vt@);
                        let msg = attr_error_message(&vt, a.as_str(), &available, Ghost(names));
                        let ghost er = SErr::NoAttr(vt@, a@, names);
                        self.push_error(msg, Ghost(s1), Ghost(er));
                        self.fresh_var(Ghost(with_err(s1, er)))
                    },
                }
            },
            _ => Type::Any,
        }
    }

    fn infer_exprs(&mut self, es: &Vec<Expr>, Ghost(st): Ghost<SChk>) -> (r: Vec<Type>)
        requires
            old(self).wf(),
            old(self).matches(st),
        ensures
            final(self).wf(),
            final(self).env() == old(self).env(),
            final(self).matches(infer_all(old(self).env(), st, es@).0),
            tviews(r@) == infer_all(old(self).env(), st, es@).1,
        decreases es, 0nat,
    {
        let ghost env = self.env();
        let mut out: Vec<Type> = Vec::new();
        let mut i: usize = 0;
        assert(es@.take(0) =~= Seq::<Expr>::empty());
        assert(tviews(out@) =~= Seq::<SType>::empty());
        while i < es.len()
            invariant
                self.wf(),
                0 <= i <= es.len(),
                env == self.env(),
                self.matches(infer_all(env, st, es@.take(i as int)).0),
                tviews(out@) == infer_all(env, st, es@.take(i as int)).1,
            decreases es.len() - i,
        {
            let ghost cur = infer_all(env, st, es@.take(i as int)).0;
            assert(es@.take(i + 1).drop_last() =~= es@.take(i as int));
            assert(es@.take(i + 1).last() == es@[i as int]);
            assert(decreases_to!(es => es@[i as int]));
            let t = self.infer_expr(&es[i], Ghost(cur));
            let ghost before = out@;
            out.push(t);
            proof {
                assert(tviews(out@) =~= tviews(before).push(t@)) by {
                    assert forall|m: int| 0 <= m < out@.len() implies tviews(out@)[m] == tviews(before).push(t@)[m] by {
                        lemma_tviews_index(out@, m);
                        if m < before.len() {
                            lemma_tviews_index(before, m);
                            assert(out@[m] == before[m]);
                        }
                    }
                }
            }
            i += 1;
        }
        assert(es@.take(es.len() as int) =~= es@);
        out
    }

    fn infer_keys(&mut self, ks: &Vec<Option<Expr>>, Ghost(st): Ghost<SChk>) -> (r: Vec<Type>)
        requires
            old(self).wf(),
            old(self).matches(st),
        ensures
            final(self).wf(),
            final(self).env() == old(self).env(),
            final(self).matches(infer_keys(old(self).env(), st, ks@).0),
            tviews(r@) == infer_keys(old(self).env(), st, ks@).1,
        decreases ks, 0nat,
    {
        let ghost env = self.env();
        let mut out: Vec<Type> = Vec::new();
        let mut i: usize = 0;
        assert(ks@.take(0) =~= Seq::<Option<Expr>>::empty());
        assert(tviews(out@) =~= Seq::<SType>::empty());
        while i < ks.len()
            invariant
                self.wf(),
                0 <= i <= ks.len(),
                env == self.env(),
                self.matches(infer_keys(env, st, ks@.take(i as int)).0),
                tviews(out@) == infer_keys(env, st, ks@.take(i as int)).1,
            decreases ks.len() - i,
        {
            let ghost cur = infer_keys(env, st, ks@.take(i as int)).0;
            assert(ks@.take(i + 1).drop_last() =~= ks@.take(i as int));
            assert(ks@.take(i + 1).last() == ks@[i as int]);
            if let Some(k) = &ks[i] {
                assert(decreases_to!(ks => ks@[i as int]));
                let t = self.infer_expr(k, Ghost(cur));
                let ghost before = out@;
                out.push(t);
                proof {
                    assert(tviews(out@) =~= tviews(before).push(t@)) by {
                        assert forall|m: int| 0 <= m < out@.len() implies tviews(out@)[m] == tviews(before).push(t@)[m] by {
                            lemma_tviews_index(out@, m);
                            if m < before.len() {
                                lemma_tviews_index(before, m);
                                assert(out@[m] == before[m]);
                            }
                        }
                    }
                }
            }
            i += 1;
        }
        assert(ks@.take(ks.len() as int) =~= ks@);
        out
    }

    fn param_types(&mut self, ps: &Vec<Param>, Ghost(st): Ghost<SChk>) -> (r: Vec<Type>)
        requires
            old(self).wf(),
            old(self).matches(st),
        ensures
            final(self).wf(),
            final(self).env() == old(self).env(),
            final(self).matches(param_types(st, ps@).0),
            tviews(r@) == param_types(st, ps@).1,
    {
        let mut out: Vec<Type> = Vec::new();
        let mut i: usize = 0;
        assert(ps@.take(0) =~= Seq::<Param>::empty());
        assert(tviews(out@) =~= Seq::<SType>::empty());
        while i < ps.len()
            invariant
                self.wf(),
                0 <= i <= ps.len(),
                self.env() == old(self).env(),
                self.matches(param_types(st, ps@.take(i as int)).0),
                tviews(out@) == param_types(st, ps@.take(i as int)).1,
            decreases ps.len() - i,
        {
            let ghost cur = param_types(st, ps@.take(i as int)).0;
            assert(ps@.take(i + 1).drop_last() =~= ps@.take(i as int));
            assert(ps@.take(i + 1).last() == ps@[i as int]);
            let t = match &ps[i].annotation {
                Some(a) => type_from_annotation(a),
                None => self.fresh_var(Ghost(cur)),
            };
            let ghost before = out@;
            out.push(t);
            proof {
                assert(tviews(out@) =~= tviews(before).push(t@)) by {
                    assert forall|m: int| 0 <= m < out@.len() implies tviews(out@)[m] == tviews(before).push(t@)[m] by {
                        lemma_tviews_index(out@, m);
                        if m < before.len() {
                            lemma_tviews_index(before, m);
                            assert(out@[m] == before[m]);
                        }
                    }
                }
            }
            i += 1;
        }
        assert(ps@.take(ps.len() as int) =~= ps@);
        out
    }

    fn assign_names(&mut self, ts: &Vec<Expr>, t: &Type, Ghost(st): Ghost<SChk>)
        requires
            old(self).wf(),
            old(self).matches(st),
        ensures
            final(self).wf(),
            final(self).env() == old(self).env(),
            final(self).matches(assign_names(st, ts@, t@)),
    {
        let mut i: usize = 0;
        assert(ts@.take(0) =~= Seq::<Expr>::empty());
        while i < ts.len()
            invariant
                self.wf(),
                0 <= i <= ts.len(),
                self.env() == old(self).env(),
                self.matches(assign_names(st, ts@.take(i as int), t@)),
            decreases ts.len() - i,
        {
            assert(ts@.take(i + 1).drop_last() =~= ts@.take(i as int));
            assert(ts@.take(i + 1).last() == ts@[i as int]);
            if let Expr::Name(n) = &ts[i] {
                self.ctx.set_type(n.clone(), t.clone());
            }
            i += 1;
        }
        assert(ts@.take(ts.len() as int) =~= ts@);
    }

    fn check_stmt(&mut self, s: &Stmt, Ghost(st): Ghost<SChk>)
        requires
            old(self).wf(),
            old(self).matches(st),
        ensures
            final(self).wf(),
            final(self).env() == old(self).env(),
            final(self).matches(check_stmt(old(self).env(), st, *s)),
        decreases s, 1nat,
    {
        let ghost env = self.env();
        match s {
            Stmt::FunctionDef { name, params, result, body } => {
                let pts = self.param_types(params, Ghost(st));
                let ghost s1 = param_types(st, params@).0;
                let rt = match result {
                    Some(r) => type_from_annotation(r),
                    None => self.fresh_var(Ghost(s1)),
                };
                let ghost s2 = match result {
                    Some(r) => s1,
                    None => with_fresh(s1).0,
                };
                self.ctx.set_type(name.clone(), Type::Function(pts, Box::new(rt)));
                let ghost s3 = with_type(s2, name@, check_stmt_fn_type(st, params@, *result));
                assert(self.matches(s3));
                self.check_stmts(body, Ghost(s3));
            },
            Stmt::Assign { targets, value } => {
                let vt = self.infer_expr(value, Ghost(st));
                let ghost s1 = infer(env, st, *value).0;
                self.assign_names(targets, &vt, Ghost(s1));
            },
            Stmt::Return(Some(v)) => {
                let _ = self.infer_expr(v, Ghost(st));
            },
            Stmt::Expr(e) => {
                let _ = self.infer_expr(e, Ghost(st));
            },
            _ => {},
        }
    }

    fn check_stmts(&mut self, ss: &Vec<Stmt>, Ghost(st): Ghost<SChk>)
        requires
            old(self).wf(),
            old(self).matches(st),
        ensures
            final(self).wf(),
            final(self).env() == old(self).env(),
            final(self).matches(check_stmts(old(self).env(), st, ss@)),
        decreases ss, 0nat,
    {
        let ghost env = self.env();
        let mut i: usize = 0;
        assert(ss@.take(0) =~= Seq::<Stmt>::empty());
        while i < ss.len()
            invariant
                self.wf(),
                0 <= i <= ss.len(),
                env == self.env(),
                self.matches(check_stmts(env, st, ss@.take(i as int))),
            decreases ss.len() - i,
        {
            let ghost cur = check_stmts(env, st, ss@.take(i as int));
            assert(ss@.take(i + 1).drop_last() =~= ss@.take(i as int));
            assert(ss@.take(i + 1).last() == ss@[i as int]);
            assert(decreases_to!(ss => ss@[i as int]));
            self.check_stmt(&ss[i], Ghost(cur));
            i += 1;
        }
        assert(ss@.take(ss.len() as int) =~= ss@);
    }
}

/// The signature that checking a function definition records for it.
pub open spec fn check_stmt_fn_type(st: SChk, params: Seq<Param>, result: Option<Expr>) -> SType {
    let (s1, pts) = param_types(st, params);
    let rt = match result {
        Some(r) => ann_type(r),
        None => with_fresh(s1).1,
    };
    SType::Function(pts, Box::new(rt))
}

/// The errors that a checker made in a fresh context reports on a module body.
pub open spec fn cli_check_errs(body: Seq<Stmt>) -> Seq<SErr> {
    let st = SChk {
        types: Map::empty(),
        next: 0,
        errors: Seq::empty(),
        attrs: Map::empty(),
        cur_class: None,
        ret: None,
        solver: SolverState { pending: Seq::empty(), bounds: Map::empty(), errors: Seq::empty() },
    };
    check_stmts(Env { classes: crate::context::builtin_classes(), effects: Map::empty() }, st, body).errors
}

} // verus!
