//! Effect analysis: which side effects (I/O, mutation, exceptions, ...) the functions of a
//! module may have.
use vstd::prelude::*;
use crate::types::{Effect, EffectSet, SEffect, Type, SType};
use crate::ops::{effects_union, lemma_effects_union_any};
use crate::pyast::{Expr, Stmt, Module, Comprehension};
use crate::context::TypeContext;
use crate::assoc::{keyed_map, unique_keys, lemma_keyed_get, lemma_keyed_absent, lemma_keyed_update};
use crate::protocols::text_eq;

verus! {

/// The effects of a set of `Pure` alone.
pub open spec fn pure_set() -> Seq<SEffect> {
    seq![SEffect::Pure]
}

/// The built-in functions whose effects are known: pure ones, I/O, randomness and time.
pub open spec fn builtin_effect_of(name: Seq<char>) -> Option<Seq<SEffect>> {
    if name == "len"@ || name == "abs"@ || name == "min"@ || name == "max"@ || name == "sum"@
        || name == "all"@ || name == "any"@ || name == "sorted"@ || name == "reversed"@ || name
        == "enumerate"@ || name == "zip"@ || name == "map"@ || name == "filter"@ {
        Some(pure_set())
    } else if name == "print"@ || name == "input"@ || name == "open"@ || name == "read"@ || name
        == "write"@ {
        Some(seq![SEffect::IO])
    } else if name == "random"@ || name == "randint"@ || name == "choice"@ || name == "shuffle"@ {
        Some(seq![SEffect::Random])
    } else if name == "time"@ || name == "sleep"@ {
        Some(seq![SEffect::Time])
    } else {
        None
    }
}

/// The effects of evaluating an expression, given the effects found so far for the
/// module's functions and the types of names.
pub open spec fn expr_effects(fe: Map<Seq<char>, Seq<SEffect>>, types: Map<Seq<char>, SType>, e: Expr) -> Seq<SEffect>
    decreases e,
{
    match e {
        Expr::Call(f, args) => {
            let named = match *f {
                Expr::Name(n) => if builtin_effect_of(n@) is Some {
                    builtin_effect_of(n@)
                } else if fe.contains_key(n@) {
                    Some(fe[n@])
                } else if types.contains_key(n@) && types[n@] is Effect {
                    Some(types[n@]->Effect_1)
                } else {
                    None
                },
                _ => None,
            };
            match named {
                Some(s) => s,
                None => fold_exprs(fe, types, pure_set(), args@),
            }
        },
        Expr::Await(_) => seq![SEffect::Async],
        Expr::Yield(_) => seq![SEffect::Async],
        Expr::YieldFrom(_) => seq![SEffect::Async],
        Expr::BinOp(l, _, r) => effects_union(expr_effects(fe, types, *l), expr_effects(fe, types, *r)),
        Expr::UnaryOp(_, x) => expr_effects(fe, types, *x),
        Expr::Lambda(_, b) => expr_effects(fe, types, *b),
        Expr::IfExp(t, b, o) => effects_union(
            effects_union(expr_effects(fe, types, *t), expr_effects(fe, types, *b)),
            expr_effects(fe, types, *o),
        ),
        Expr::ListComp(elt, gens) => fold_gens(fe, types, expr_effects(fe, types, *elt), gens@),
        Expr::List(es) => fold_exprs(fe, types, pure_set(), es@),
        Expr::Tuple(es) => fold_exprs(fe, types, pure_set(), es@),
        Expr::Dict(ks, vs) => fold_exprs(fe, types, fold_keys(fe, types, pure_set(), ks@), vs@),
        _ => pure_set(),
    }
}

/// `acc` joined with the effects of each expression in turn.
pub open spec fn fold_exprs(fe: Map<Seq<char>, Seq<SEffect>>, types: Map<Seq<char>, SType>, acc: Seq<SEffect>, es: Seq<Expr>) -> Seq<SEffect>
    decreases es,
{
    if es.len() == 0 {
        acc
    } else {
        fold_exprs(
            fe,
            types,
            effects_union(acc, expr_effects(fe, types, es[0])),
            es.subrange(1, es.len() as int),
        )
    }
}

/// The same over dict keys, skipping `**` entries.
pub open spec fn fold_keys(fe: Map<Seq<char>, Seq<SEffect>>, types: Map<Seq<char>, SType>, acc: Seq<SEffect>, ks: Seq<Option<Expr>>) -> Seq<SEffect>
    decreases ks,
{
    if ks.len() == 0 {
        acc
    } else {
        let next = match ks[0] {
            Some(k) => effects_union(acc, expr_effects(fe, types, k)),
            None => acc,
        };
        fold_keys(fe, types, next, ks.subrange(1, ks.len() as int))
    }
}

/// The same over the clauses of a comprehension: the iterated expression, then the
/// conditions.
pub open spec fn fold_gens(fe: Map<Seq<char>, Seq<SEffect>>, types: Map<Seq<char>, SType>, acc: Seq<SEffect>, gs: Seq<Comprehension>) -> Seq<SEffect>
    decreases gs,
{
    if gs.len() == 0 {
        acc
    } else {
        let g = gs[0];
        fold_gens(
            fe,
            types,
            fold_exprs(fe, types, effects_union(acc, expr_effects(fe, types, g.iter)), g.ifs@),
            gs.subrange(1, gs.len() as int),
        )
    }
}

/// The effects of executing a statement of a function body.
pub open spec fn stmt_effects(fe: Map<Seq<char>, Seq<SEffect>>, types: Map<Seq<char>, SType>, s: Stmt) -> Seq<SEffect>
    decreases s,
{
    match s {
        Stmt::Expr(e) => expr_effects(fe, types, e),
        Stmt::Assign { value, .. } => effects_union(expr_effects(fe, types, value), seq![SEffect::Mutation]),
        Stmt::AugAssign(v) => effects_union(expr_effects(fe, types, v), seq![SEffect::Mutation]),
        Stmt::Raise => seq![SEffect::Exception],
        Stmt::Return(v) => match v {
            Some(x) => expr_effects(fe, types, x),
            None => pure_set(),
        },
        Stmt::For { iter, body, .. } => fold_stmts(fe, types, expr_effects(fe, types, iter), body@),
        Stmt::While { test, body, .. } => fold_stmts(fe, types, expr_effects(fe, types, test), body@),
        Stmt::If { test, body, orelse } => fold_stmts(
            fe,
            types,
            fold_stmts(fe, types, expr_effects(fe, types, test), body@),
            orelse@,
        ),
        _ => pure_set(),
    }
}

/// `acc` joined with the effects of each statement in turn.
pub open spec fn fold_stmts(fe: Map<Seq<char>, Seq<SEffect>>, types: Map<Seq<char>, SType>, acc: Seq<SEffect>, ss: Seq<Stmt>) -> Seq<SEffect>
    decreases ss,
{
    if ss.len() == 0 {
        acc
    } else {
        fold_stmts(
            fe,
            types,
            effects_union(acc, stmt_effects(fe, types, ss[0])),
            ss.subrange(1, ss.len() as int),
        )
    }
}

/// The function effects after analyzing a statement: each function definition, at any
/// depth of loops, branches, `with` and `try`, records the effects of its body.
pub open spec fn analyze(fe: Map<Seq<char>, Seq<SEffect>>, types: Map<Seq<char>, SType>, s: Stmt) -> Map<Seq<char>, Seq<SEffect>>
    decreases s,
{
    match s {
        Stmt::FunctionDef { name, body, .. } => fe.insert(name@, fold_stmts(fe, types, pure_set(), body@)),
        Stmt::AsyncFunctionDef { name, body } => fe.insert(
            name@,
            fold_stmts(fe, types, seq![SEffect::Async], body@),
        ),
        Stmt::For { body, .. } => analyze_all(fe, types, body@),
        Stmt::While { body, .. } => analyze_all(fe, types, body@),
        Stmt::If { body, orelse, .. } => analyze_all(analyze_all(fe, types, body@), types, orelse@),
        Stmt::With { body, .. } => analyze_all(fe, types, body@),
        Stmt::Try { body, handlers } => analyze_handlers(analyze_all(fe, types, body@), types, handlers@),
        _ => fe,
    }
}

/// Analysis of statements in turn.
pub open spec fn analyze_all(fe: Map<Seq<char>, Seq<SEffect>>, types: Map<Seq<char>, SType>, ss: Seq<Stmt>) -> Map<Seq<char>, Seq<SEffect>>
    decreases ss,
{
    if ss.len() == 0 {
        fe
    } else {
        analyze_all(analyze(fe, types, ss[0]), types, ss.subrange(1, ss.len() as int))
    }
}

/// Analysis of the bodies of exception handlers in turn.
pub open spec fn analyze_handlers(fe: Map<Seq<char>, Seq<SEffect>>, types: Map<Seq<char>, SType>, hs: Seq<Vec<Stmt>>) -> Map<Seq<char>, Seq<SEffect>>
    decreases hs,
{
    if hs.len() == 0 {
        fe
    } else {
        analyze_handlers(analyze_all(fe, types, hs[0]@), types, hs.subrange(1, hs.len() as int))
    }
}


/// The names and effect sets of a table of function effects.
pub open spec fn fx_view(s: Seq<(String, EffectSet)>) -> Seq<(Seq<char>, Seq<SEffect>)> {
    s.map_values(|p: (String, EffectSet)| (p.0@, p.1@))
}

/// The effects of a built-in function, when it is one whose effects are known.
fn builtin_effects(name: &str) -> (r: Option<EffectSet>)
    ensures
        r matches Some(e) ==> builtin_effect_of(name@) == Some(e@),
        r is None ==> builtin_effect_of(name@) is None,
{
    if text_eq(name, "len") || text_eq(name, "abs") || text_eq(name, "min") || text_eq(name, "max")
        || text_eq(name, "sum") || text_eq(name, "all") || text_eq(name, "any") || text_eq(
        name,
        "sorted",
    ) || text_eq(name, "reversed") || text_eq(name, "enumerate") || text_eq(name, "zip")
        || text_eq(name, "map") || text_eq(name, "filter") {
        Some(EffectSet::pure())
    } else if text_eq(name, "print") || text_eq(name, "input") || text_eq(name, "open") || text_eq(
        name,
        "read",
    ) || text_eq(name, "write") {
        Some(EffectSet::single(Effect::IO))
    } else if text_eq(name, "random") || text_eq(name, "randint") || text_eq(name, "choice")
        || text_eq(name, "shuffle") {
        Some(EffectSet::single(Effect::Random))
    } else if text_eq(name, "time") || text_eq(name, "sleep") {
        Some(EffectSet::single(Effect::Time))
    } else {
        None
    }
}

/// Tracks the side effects of the functions of a module.
pub struct EffectAnalyzer {
    function_effects: Vec<(String, EffectSet)>,
}

impl EffectAnalyzer {
    /// The effects found for each analyzed function, by name.
    pub closed spec fn functions(&self) -> Map<Seq<char>, Seq<SEffect>> {
        keyed_map(fx_view(self.function_effects@))
    }

    /// The table holds each function once.
    pub closed spec fn wf(&self) -> bool {
        unique_keys(fx_view(self.function_effects@))
    }

    /// An analyzer that has analyzed no function.
    pub fn new() -> (r: Self)
        ensures
            r.wf(),
            r.functions() == Map::<Seq<char>, Seq<SEffect>>::empty(),
    {
        let r = EffectAnalyzer { function_effects: Vec::new() };
        assert(fx_view(r.function_effects@) =~= Seq::<(Seq<char>, Seq<SEffect>)>::empty());
        r
    }

    /// The index of the function's entry.
    fn find(&self, name: &str) -> (r: Option<usize>)
        requires
            self.wf(),
        ensures
            r matches Some(i) ==> i < self.function_effects.len() && self.function_effects@[i as int].0@ == name@,
            r matches Some(i) ==> self.functions().contains_key(name@) && self.functions()[name@]
                == self.function_effects@[i as int].1@,
            r is None ==> !self.functions().contains_key(name@),
    {
        let ghost v = fx_view(self.function_effects@);
        let mut i: usize = 0;
        while i < self.function_effects.len()
            invariant
                0 <= i <= self.function_effects.len(),
                v == fx_view(self.function_effects@),
                unique_keys(v),
                forall|m: int| 0 <= m < i ==> (#[trigger] v[m]).0 != name@,
            decreases self.function_effects.len() - i,
        {
            if text_eq(self.function_effects[i].0.as_str(), name) {
                proof {
                    assert(v[i as int].0 == name@);
                    assert forall|m: int| i < m < v.len() implies (#[trigger] v[m]).0 != v[i as int].0 by {
                        assert(v[i as int].0 != v[m].0);
                    }
                    lemma_keyed_get(v, i as int);
                }
                return Some(i);
            }
            i += 1;
        }
        proof {
            lemma_keyed_absent(v, name@);
        }
        None
    }

    /// Records the effects of a function.
    fn record(&mut self, name: String, effects: EffectSet)
        requires
            old(self).wf(),
        ensures
            final(self).wf(),
            final(self).functions() == old(self).functions().insert(name@, effects@),
    {
        let ghost v = fx_view(self.function_effects@);
        let ghost ev = effects@;
        match self.find(name.as_str()) {
            Some(i) => {
                let ghost nm = self.function_effects@[i as int].0@;
                self.function_effects.set(i, (name, effects));
                proof {
                    assert(fx_view(self.function_effects@) =~= v.update(i as int, (v[i as int].0, ev)));
                    lemma_keyed_update(v, i as int, ev);
                    assert forall|a: int, b: int|
                        0 <= a < b < fx_view(self.function_effects@).len() implies #[trigger] fx_view(
                        self.function_effects@,
                    )[a].0 != #[trigger] fx_view(self.function_effects@)[b].0 by {
                        assert(fx_view(self.function_effects@)[a].0 == v[a].0);
                        assert(fx_view(self.function_effects@)[b].0 == v[b].0);
                    }
                }
            },
            None => {
                let ghost nv = name@;
                self.function_effects.push((name, effects));
                proof {
                    assert(fx_view(self.function_effects@) =~= v.push((nv, ev)));
                    assert(fx_view(self.function_effects@).drop_last() =~= v);
                    assert forall|m: int| 0 <= m < v.len() implies (#[trigger] v[m]).0 != nv by {
                        if v[m].0 == nv {
                            lemma_keyed_get_any(v, m);
                        }
                    }
                }
            },
        }
    }

    /// The effects of evaluating an expression.
    pub fn infer_expr_effects(&self, ctx: &TypeContext, e: &Expr) -> (r: EffectSet)
        requires
            self.wf(),
        ensures
            r@ == expr_effects(self.functions(), ctx@.types, *e),
        decreases e,
    {
        match e {
            Expr::Call(f, args) => self.infer_call_effects(ctx, f, args),
            Expr::Await(_) => EffectSet::single(Effect::Async),
            Expr::Yield(_) => EffectSet::single(Effect::Async),
            Expr::YieldFrom(_) => EffectSet::single(Effect::Async),
            Expr::BinOp(l, _, r) => {
                let a = self.infer_expr_effects(ctx, l);
                let b = self.infer_expr_effects(ctx, r);
                a.union(b)
            },
            Expr::UnaryOp(_, x) => self.infer_expr_effects(ctx, x),
            Expr::Lambda(_, b) => self.infer_expr_effects(ctx, b),
            Expr::IfExp(t, b, o) => {
                let test = self.infer_expr_effects(ctx, t);
                let body = self.infer_expr_effects(ctx, b);
                let orelse = self.infer_expr_effects(ctx, o);
                test.union(body).union(orelse)
            },
            Expr::ListComp(elt, gens) => {
                let first = self.infer_expr_effects(ctx, elt);
                self.fold_gens(ctx, first, gens)
            },
            Expr::List(es) => self.fold_exprs(ctx, EffectSet::pure(), es),
            Expr::Tuple(es) => self.fold_exprs(ctx, EffectSet::pure(), es),
            Expr::Dict(ks, vs) => {
                let keys = self.fold_keys(ctx, EffectSet::pure(), ks);
                self.fold_exprs(ctx, keys, vs)
            },
            _ => EffectSet::pure(),
        }
    }

    /// The effects of a call: a built-in's known effects, else those found for the named
    /// function, else those its type carries, else those of evaluating the arguments.
    fn infer_call_effects(&self, ctx: &TypeContext, f: &Expr, args: &Vec<Expr>) -> (r: EffectSet)
        requires
            self.wf(),
        ensures
            r@ == expr_effects(self.functions(), ctx@.types, Expr::Call(Box::new(*f), *args)),
        decreases args, 1nat,
    {
        if let Expr::Name(n) = f {
            if let Some(b) = builtin_effects(n.as_str()) {
                return b;
            }
            if let Some(i) = self.find(n.as_str()) {
                return self.function_effects[i].1.clone();
            }
            if let Some(t) = ctx.get_type(n.as_str()) {
                if let Type::Effect(_, effects) = t {
                    return effects;
                }
            }
        }
        self.fold_exprs(ctx, EffectSet::pure(), args)
    }

    /// `acc` joined with the effects of each expression in turn.
    fn fold_exprs(&self, ctx: &TypeContext, acc: EffectSet, es: &Vec<Expr>) -> (r: EffectSet)
        requires
            self.wf(),
        ensures
            r@ == fold_exprs(self.functions(), ctx@.types, acc@, es@),
        decreases es, 0nat,
    {
        let ghost fe = self.functions();
        let ghost tys = ctx@.types;
        let ghost target = fold_exprs(fe, tys, acc@, es@);
        let mut acc = acc;
        let mut i: usize = 0;
        assert(es@.subrange(0, es@.len() as int) =~= es@);
        while i < es.len()
            invariant
                self.wf(),
                0 <= i <= es.len(),
                fe == self.functions(),
                tys == ctx@.types,
                target == fold_exprs(fe, tys, acc@, es@.subrange(i as int, es@.len() as int)),
            decreases es.len() - i,
        {
            let ghost sub = es@.subrange(i as int, es@.len() as int);
            assert(sub[0] == es@[i as int]);
            assert(sub.subrange(1, sub.len() as int) =~= es@.subrange(i + 1, es@.len() as int));
            let x = self.infer_expr_effects(ctx, &es[i]);
            acc = acc.union(x);
            i += 1;
        }
        assert(es@.subrange(i as int, es@.len() as int) =~= Seq::<Expr>::empty());
        acc
    }

    /// The same over dict keys, skipping `**` entries.
    fn fold_keys(&self, ctx: &TypeContext, acc: EffectSet, ks: &Vec<Option<Expr>>) -> (r: EffectSet)
        requires
            self.wf(),
        ensures
            r@ == fold_keys(self.functions(), ctx@.types, acc@, ks@),
        decreases ks, 0nat,
    {
        let ghost fe = self.functions();
        let ghost tys = ctx@.types;
        let ghost target = fold_keys(fe, tys, acc@, ks@);
        let mut acc = acc;
        let mut i: usize = 0;
        assert(ks@.subrange(0, ks@.len() as int) =~= ks@);
        while i < ks.len()
            invariant
                self.wf(),
                0 <= i <= ks.len(),
                fe == self.functions(),
                tys == ctx@.types,
                target == fold_keys(fe, tys, acc@, ks@.subrange(i as int, ks@.len() as int)),
            decreases ks.len() - i,
        {
            let ghost sub = ks@.subrange(i as int, ks@.len() as int);
            assert(sub[0] == ks@[i as int]);
            assert(sub.subrange(1, sub.len() as int) =~= ks@.subrange(i + 1, ks@.len() as int));
            if let Some(k) = &ks[i] {
                let x = self.infer_expr_effects(ctx, k);
                acc = acc.union(x);
            }
            i += 1;
        }
        assert(ks@.subrange(i as int, ks@.len() as int) =~= Seq::<Option<Expr>>::empty());
        acc
    }

    /// The same over the clauses of a comprehension.
    fn fold_gens(&self, ctx: &TypeContext, acc: EffectSet, gs: &Vec<Comprehension>) -> (r: EffectSet)
        requires
            self.wf(),
        ensures
            r@ == fold_gens(self.functions(), ctx@.types, acc@, gs@),
        decreases gs, 0nat,
    {
        let ghost fe = self.functions();
        let ghost tys = ctx@.types;
        let ghost target = fold_gens(fe, tys, acc@, gs@);
        let mut acc = acc;
        let mut i: usize = 0;
        assert(gs@.subrange(0, gs@.len() as int) =~= gs@);
        while i < gs.len()
            invariant
                self.wf(),
                0 <= i <= gs.len(),
                fe == self.functions(),
                tys == ctx@.types,
                target == fold_gens(fe, tys, acc@, gs@.subrange(i as int, gs@.len() as int)),
            decreases gs.len() - i,
        {
            let ghost sub = gs@.subrange(i as int, gs@.len() as int);
            assert(sub[0] == gs@[i as int]);
            assert(sub.subrange(1, sub.len() as int) =~= gs@.subrange(i + 1, gs@.len() as int));
            let it = self.infer_expr_effects(ctx, &gs[i].iter);
            let joined = acc.union(it);
            acc = self.fold_exprs(ctx, joined, &gs[i].ifs);
            i += 1;
        }
        assert(gs@.subrange(i as int, gs@.len() as int) =~= Seq::<Comprehension>::empty());
        acc
    }

    /// The effects of executing a statement of a function body.
    fn infer_stmt_effects(&self, ctx: &TypeContext, s: &Stmt) -> (r: EffectSet)
        requires
            self.wf(),
        ensures
            r@ == stmt_effects(self.functions(), ctx@.types, *s),
        decreases s, 1nat,
    {
        match s {
            Stmt::Expr(e) => self.infer_expr_effects(ctx, e),
            Stmt::Assign { value, .. } => {
                let x = self.infer_expr_effects(ctx, value);
                x.union(EffectSet::single(Effect::Mutation))
            },
            Stmt::AugAssign(v) => {
                let x = self.infer_expr_effects(ctx, v);
                x.union(EffectSet::single(Effect::Mutation))
            },
            Stmt::Raise => EffectSet::single(Effect::Exception),
            Stmt::Return(v) => match v {
                Some(x) => self.infer_expr_effects(ctx, x),
                None => EffectSet::pure(),
            },
            Stmt::For { iter, body, .. } => {
                let x = self.infer_expr_effects(ctx, iter);
                self.fold_stmts(ctx, x, body)
            },
            Stmt::While { test, body, .. } => {
                let x = self.infer_expr_effects(ctx, test);
                self.fold_stmts(ctx, x, body)
            },
            Stmt::If { test, body, orelse } => {
                let x = self.infer_expr_effects(ctx, test);
                let y = self.fold_stmts(ctx, x, body);
                self.fold_stmts(ctx, y, orelse)
            },
            _ => EffectSet::pure(),
        }
    }

    /// `acc` joined with the effects of each statement in turn.
    fn fold_stmts(&self, ctx: &TypeContext, acc: EffectSet, ss: &Vec<Stmt>) -> (r: EffectSet)
        requires
            self.wf(),
        ensures
            r@ == fold_stmts(self.functions(), ctx@.types, acc@, ss@),
        decreases ss, 0nat,
    {
        let ghost fe = self.functions();
        let ghost tys = ctx@.types;
        let ghost target = fold_stmts(fe, tys, acc@, ss@);
        let mut acc = acc;
        let mut i: usize = 0;
        assert(ss@.subrange(0, ss@.len() as int) =~= ss@);
        while i < ss.len()
            invariant
                self.wf(),
                0 <= i <= ss.len(),
                fe == self.functions(),
                tys == ctx@.types,
                target == fold_stmts(fe, tys, acc@, ss@.subrange(i as int, ss@.len() as int)),
            decreases ss.len() - i,
        {
            let ghost sub = ss@.subrange(i as int, ss@.len() as int);
            assert(sub[0] == ss@[i as int]);
            assert(sub.subrange(1, sub.len() as int) =~= ss@.subrange(i + 1, ss@.len() as int));
            let x = self.infer_stmt_effects(ctx, &ss[i]);
            acc = acc.union(x);
            i += 1;
        }
        assert(ss@.subrange(i as int, ss@.len() as int) =~= Seq::<Stmt>::empty());
        acc
    }

    /// Analyzes a statement: records the effects of each function it defines, looking
    /// into loops, branches, `with` and `try`.
    fn analyze_stmt(&mut self, ctx: &TypeContext, s: &Stmt)
        requires
            old(self).wf(),
        ensures
            final(self).wf(),
            final(self).functions() == analyze(old(self).functions(), ctx@.types, *s),
        decreases s, 1nat,
    {
        match s {
            Stmt::FunctionDef { name, body, .. } => {
                let effects = self.fold_stmts(ctx, EffectSet::pure(), body);
                self.record(name.clone(), effects);
            },
            Stmt::AsyncFunctionDef { name, body } => {
                let effects = self.fold_stmts(ctx, EffectSet::single(Effect::Async), body);
                self.record(name.clone(), effects);
            },
            Stmt::For { body, .. } => self.analyze_all(ctx, body),
            Stmt::While { body, .. } => self.analyze_all(ctx, body),
            Stmt::If { body, orelse, .. } => {
                self.analyze_all(ctx, body);
                self.analyze_all(ctx, orelse);
            },
            Stmt::With { body, .. } => self.analyze_all(ctx, body),
            Stmt::Try { body, handlers } => {
                self.analyze_all(ctx, body);
                self.analyze_handlers(ctx, handlers);
            },
            _ => {},
        }
    }

    /// Analyzes the bodies of exception handlers in turn.
    fn analyze_handlers(&mut self, ctx: &TypeContext, hs: &Vec<Vec<Stmt>>)
        requires
            old(self).wf(),
        ensures
            final(self).wf(),
            final(self).functions() == analyze_handlers(old(self).functions(), ctx@.types, hs@),
        decreases hs, 0nat,
    {
        let ghost target = analyze_handlers(self.functions(), ctx@.types, hs@);
        let mut i: usize = 0;
        assert(hs@.subrange(0, hs@.len() as int) =~= hs@);
        while i < hs.len()
            invariant
                self.wf(),
                0 <= i <= hs.len(),
                target == analyze_handlers(self.functions(), ctx@.types, hs@.subrange(i as int, hs@.len() as int)),
            decreases hs.len() - i,
        {
            let ghost sub = hs@.subrange(i as int, hs@.len() as int);
            assert(sub[0] == hs@[i as int]);
            assert(sub.subrange(1, sub.len() as int) =~= hs@.subrange(i + 1, hs@.len() as int));
            self.analyze_all(ctx, &hs[i]);
            i += 1;
        }
        assert(hs@.subrange(i as int, hs@.len() as int) =~= Seq::<Vec<Stmt>>::empty());
    }

    /// Analyzes statements in turn.
    fn analyze_all(&mut self, ctx: &TypeContext, ss: &Vec<Stmt>)
        requires
            old(self).wf(),
        ensures
            final(self).wf(),
            final(self).functions() == analyze_all(old(self).functions(), ctx@.types, ss@),
        decreases ss, 0nat,
    {
        let ghost target = analyze_all(self.functions(), ctx@.types, ss@);
        let mut i: usize = 0;
        assert(ss@.subrange(0, ss@.len() as int) =~= ss@);
        while i < ss.len()
            invariant
                self.wf(),
                0 <= i <= ss.len(),
                target == analyze_all(self.functions(), ctx@.types, ss@.subrange(i as int, ss@.len() as int)),
            decreases ss.len() - i,
        {
            let ghost sub = ss@.subrange(i as int, ss@.len() as int);
            assert(sub[0] == ss@[i as int]);
            assert(sub.subrange(1, sub.len() as int) =~= ss@.subrange(i + 1, ss@.len() as int));
            self.analyze_stmt(ctx, &ss[i]);
            i += 1;
        }
        assert(ss@.subrange(i as int, ss@.len() as int) =~= Seq::<Stmt>::empty());
    }

    /// Analyzes the statements of a module and hands back the effects found for each
    /// function, one entry per function.
    pub fn analyze_module(&mut self, ctx: &TypeContext, module: &Module) -> (r: Vec<(String, EffectSet)>)
        requires
            old(self).wf(),
        ensures
            final(self).wf(),
            final(self).functions() == analyze_all(old(self).functions(), ctx@.types, module.body@),
            unique_keys(fx_view(r@)),
            keyed_map(fx_view(r@)) == final(self).functions(),
    {
        self.analyze_all(ctx, &module.body);
        let mut out: Vec<(String, EffectSet)> = Vec::new();
        let mut i: usize = 0;
        while i < self.function_effects.len()
            invariant
                0 <= i <= self.function_effects.len(),
                out.len() == i,
                fx_view(out@) == fx_view(self.function_effects@).take(i as int),
            decreases self.function_effects.len() - i,
        {
            let entry = (self.function_effects[i].0.clone(), self.function_effects[i].1.clone());
            let ghost before = out@;
            out.push(entry);
            proof {
                assert(fx_view(out@) =~= fx_view(self.function_effects@).take(i + 1)) by {
                    assert(fx_view(out@)[i as int] == fx_view(self.function_effects@)[i as int]);
                    assert forall|j: int| 0 <= j < i implies fx_view(out@)[j] == fx_view(before)[j] by {
                        assert(out@[j] == before[j]);
                    }
                }
            }
            i += 1;
        }
        assert(fx_view(self.function_effects@).take(i as int) =~= fx_view(self.function_effects@));
        out
    }

    /// Whether evaluating the expression has no effect but `Pure`.
    pub fn is_pure_expr(&self, ctx: &TypeContext, e: &Expr) -> (r: bool)
        requires
            self.wf(),
        ensures
            r == crate::ops::effects_pure(expr_effects(self.functions(), ctx@.types, *e)),
    {
        self.infer_expr_effects(ctx, e).is_pure()
    }

    /// The function type with the effects found for the function, when they are more
    /// than `Pure`.
    pub fn annotate_function_type(&self, name: &str, base_type: Type) -> (r: Type)
        requires
            self.wf(),
        ensures
            r@ == (if self.functions().contains_key(name@) && !crate::ops::effects_pure(
                self.functions()[name@],
            ) {
                SType::Effect(Box::new(base_type@), self.functions()[name@])
            } else {
                base_type@
            }),
    {
        match self.find(name) {
            Some(i) => {
                if !self.function_effects[i].1.is_pure() {
                    return Type::Effect(Box::new(base_type), self.function_effects[i].1.clone());
                }
                base_type
            },
            None => base_type,
        }
    }

    /// The effects found for a function, if it was analyzed.
    pub fn get_function_effects(&self, name: &str) -> (r: Option<&EffectSet>)
        requires
            self.wf(),
        ensures
            r matches Some(e) ==> self.functions().contains_key(name@) && e@ == self.functions()[name@],
            r is None ==> !self.functions().contains_key(name@),
    {
        match self.find(name) {
            Some(i) => Some(&self.function_effects[i].1),
            None => None,
        }
    }
}

/// An entry's key is in the map, whatever follows it.
proof fn lemma_keyed_get_any(s: Seq<(Seq<char>, Seq<SEffect>)>, j: int)
    requires
        0 <= j < s.len(),
    ensures
        keyed_map(s).contains_key(s[j].0),
    decreases s.len(),
{
    if j < s.len() - 1 {
        lemma_keyed_get_any(s.drop_last(), j);
        assert(s.drop_last()[j] == s[j]);
    }
}

/// The names and texts of a report.
pub open spec fn report_view(v: Seq<(String, String)>) -> Seq<(Seq<char>, Seq<char>)> {
    v.map_values(|p: (String, String)| (p.0@, p.1@))
}

/// How an effect set is reported: `pure`, or its debug notation.
pub open spec fn effect_report(es: Seq<SEffect>) -> Seq<char> {
    if crate::ops::effects_pure(es) {
        "pure"@
    } else {
        crate::debug::effects_dbg(es)
    }
}

/// The effects of each function of a module, analyzed in a fresh context, as reported to
/// users: the function's name with `pure` or the debug notation of its effects.
pub fn analyze_effects(module: &Module) -> (r: Vec<(String, String)>)
    ensures
        ({
            let fe = analyze_all(Map::empty(), Map::empty(), module.body@);
            &&& forall|k: Seq<char>| #[trigger] keyed_map(report_view(r@)).contains_key(k)
                <==> fe.contains_key(k)
            &&& forall|k: Seq<char>| #[trigger] fe.contains_key(k) ==> keyed_map(report_view(r@))[k]
                == effect_report(fe[k])
            &&& unique_keys(report_view(r@))
        }),
{
    let ctx = TypeContext::new();
    let mut analyzer = EffectAnalyzer::new();
    let table = analyzer.analyze_module(&ctx, module);
    let ghost tv = fx_view(table@);
    let mut out: Vec<(String, String)> = Vec::new();
    let mut i: usize = 0;
    while i < table.len()
        invariant
            0 <= i <= table.len(),
            tv == fx_view(table@),
            out.len() == i,
            forall|j: int| 0 <= j < i ==> #[trigger] out@[j].0@ == tv[j].0 && out@[j].1@ == effect_report(tv[j].1),
        decreases table.len() - i,
    {
        let name = table[i].0.clone();
        let text = if table[i].1.is_pure() {
            String::from_str("pure")
        } else {
            let mut s = String::new();
            crate::debug::write_effects_dbg(&table[i].1, &mut s);
            assert(s@ =~= crate::debug::effects_dbg(table@[i as int].1@));
            s
        };
        let ghost before = out@;
        out.push((name, text));
        proof {
            assert(tv[i as int] == (table@[i as int].0@, table@[i as int].1@));
            assert(out@[i as int].0@ == tv[i as int].0);
            assert(out@[i as int].1@ == effect_report(tv[i as int].1));
            assert forall|j: int| 0 <= j < i + 1 implies #[trigger] out@[j].0@ == tv[j].0 && out@[j].1@
                == effect_report(tv[j].1) by {
                if j < i {
                    assert(out@[j] == before[j]);
                }
            }
        }
        i += 1;
    }
    proof {
        let rv = report_view(out@);
        assert forall|j: int| 0 <= j < tv.len() implies #[trigger] rv[j] == (tv[j].0, effect_report(tv[j].1)) by {}
        lemma_keyed_reports(tv, rv);
        let fe = analyze_all(Map::empty(), Map::empty(), module.body@);
        assert(keyed_map(tv) == fe);
        assert forall|a: int, b: int| 0 <= a < b < rv.len() implies #[trigger] rv[a].0 != #[trigger] rv[b].0 by {
            assert(rv[a].0 == tv[a].0 && rv[b].0 == tv[b].0);
        }
    }
    out
}

/// Reporting the effects of each entry reports the effects of each function.
proof fn lemma_keyed_reports(s: Seq<(Seq<char>, Seq<SEffect>)>, r: Seq<(Seq<char>, Seq<char>)>)
    requires
        r.len() == s.len(),
        forall|i: int| 0 <= i < s.len() ==> #[trigger] r[i] == (s[i].0, effect_report(s[i].1)),
    ensures
        forall|k: Seq<char>| #[trigger] keyed_map(r).contains_key(k) <==> keyed_map(s).contains_key(k),
        forall|k: Seq<char>| #[trigger] keyed_map(s).contains_key(k) ==> keyed_map(r)[k] == effect_report(keyed_map(s)[k]),
    decreases s.len(),
{
    if s.len() > 0 {
        assert forall|i: int| 0 <= i < s.drop_last().len() implies #[trigger] r.drop_last()[i] == (
            s.drop_last()[i].0,
            effect_report(s.drop_last()[i].1),
        ) by {
            assert(r.drop_last()[i] == r[i]);
            assert(s.drop_last()[i] == s[i]);
        }
        lemma_keyed_reports(s.drop_last(), r.drop_last());
        let rd = r.drop_last();
        let sd = s.drop_last();
        assert(r.last() == r[r.len() - 1]);
        assert(s.last() == s[s.len() - 1]);
        assert(r.last() == (s.last().0, effect_report(s.last().1)));
        assert(keyed_map(r) == keyed_map(rd).insert(r.last().0, r.last().1));
        assert(keyed_map(s) == keyed_map(sd).insert(s.last().0, s.last().1));
        assert forall|k: Seq<char>| #[trigger] keyed_map(r).contains_key(k) <==> keyed_map(s).contains_key(k) by {
            if k != s.last().0 {
                assert(keyed_map(rd).contains_key(k) <==> keyed_map(sd).contains_key(k));
            }
        }
        assert forall|k: Seq<char>| #[trigger] keyed_map(s).contains_key(k) implies keyed_map(r)[k]
            == effect_report(keyed_map(s)[k]) by {
            if k != s.last().0 {
                assert(keyed_map(sd).contains_key(k));
                assert(keyed_map(rd)[k] == effect_report(keyed_map(sd)[k]));
            }
        }
    }
}

/// Folding statements into an effect list keeps every effect other than `Pure` of the
/// list and of each statement, and adds no other.
pub proof fn lemma_fold_stmts_members(
    fe: Map<Seq<char>, Seq<SEffect>>,
    types: Map<Seq<char>, SType>,
    acc: Seq<SEffect>,
    ss: Seq<Stmt>,
    x: SEffect,
)
    requires
        x != SEffect::Pure,
    ensures
        fold_stmts(fe, types, acc, ss).contains(x) <==> acc.contains(x) || exists|i: int|
            0 <= i < ss.len() && #[trigger] stmt_effects(fe, types, ss[i]).contains(x),
    decreases ss.len(),
{
    if ss.len() > 0 {
        let next = effects_union(acc, stmt_effects(fe, types, ss[0]));
        let rest = ss.subrange(1, ss.len() as int);
        lemma_effects_union_any(acc, stmt_effects(fe, types, ss[0]));
        lemma_fold_stmts_members(fe, types, next, rest, x);
        if exists|i: int| 0 <= i < rest.len() && #[trigger] stmt_effects(fe, types, rest[i]).contains(x) {
            let i = choose|i: int| 0 <= i < rest.len() && #[trigger] stmt_effects(fe, types, rest[i]).contains(x);
            assert(rest[i] == ss[i + 1]);
        }
        if exists|i: int| 0 <= i < ss.len() && #[trigger] stmt_effects(fe, types, ss[i]).contains(x) {
            let i = choose|i: int| 0 <= i < ss.len() && #[trigger] stmt_effects(fe, types, ss[i]).contains(x);
            if i > 0 {
                assert(rest[i - 1] == ss[i]);
            }
        }
    }
}

/// The effects of a loop or a branch are those of its test or iterated expression and
/// of every statement of its bodies: an effect other than `Pure` is in the statement's
/// effects exactly when it is in one of those.
pub proof fn lemma_compound_effects(fe: Map<Seq<char>, Seq<SEffect>>, types: Map<Seq<char>, SType>, s: Stmt, x: SEffect)
    requires
        x != SEffect::Pure,
    ensures
        s matches Stmt::For { iter, body, .. } ==> (stmt_effects(fe, types, s).contains(x) <==> expr_effects(
            fe,
            types,
            iter,
        ).contains(x) || exists|i: int| 0 <= i < body.len() && #[trigger] stmt_effects(fe, types, body@[i]).contains(x)),
        s matches Stmt::While { test, body, .. } ==> (stmt_effects(fe, types, s).contains(x) <==> expr_effects(
            fe,
            types,
            test,
        ).contains(x) || exists|i: int| 0 <= i < body.len() && #[trigger] stmt_effects(fe, types, body@[i]).contains(x)),
        s matches Stmt::If { test, body, orelse } ==> (stmt_effects(fe, types, s).contains(x) <==> expr_effects(
            fe,
            types,
            test,
        ).contains(x) || (exists|i: int| 0 <= i < body.len() && #[trigger] stmt_effects(fe, types, body@[i]).contains(x))
            || exists|i: int| 0 <= i < orelse.len() && #[trigger] stmt_effects(fe, types, orelse@[i]).contains(x)),
{
    match s {
        Stmt::For { iter, body, .. } => {
            lemma_fold_stmts_members(fe, types, expr_effects(fe, types, iter), body@, x);
        },
        Stmt::While { test, body, .. } => {
            lemma_fold_stmts_members(fe, types, expr_effects(fe, types, test), body@, x);
        },
        Stmt::If { test, body, orelse } => {
            let first = fold_stmts(fe, types, expr_effects(fe, types, test), body@);
            lemma_fold_stmts_members(fe, types, expr_effects(fe, types, test), body@, x);
            lemma_fold_stmts_members(fe, types, first, orelse@, x);
        },
        _ => {},
    }
}

/// An assignment mutates and has the effects of its value; `raise` raises; an
/// expression statement has the effects of its expression; a binary operation has the
/// effects of both operands.
pub proof fn lemma_simple_effects(fe: Map<Seq<char>, Seq<SEffect>>, types: Map<Seq<char>, SType>, s: Stmt, e: Expr, x: SEffect)
    requires
        x != SEffect::Pure,
    ensures
        s matches Stmt::Assign { value, .. } ==> (stmt_effects(fe, types, s).contains(x) <==> x == SEffect::Mutation
            || expr_effects(fe, types, value).contains(x)),
        s matches Stmt::AugAssign(value) ==> (stmt_effects(fe, types, s).contains(x) <==> x == SEffect::Mutation
            || expr_effects(fe, types, value).contains(x)),
        s is Raise ==> (stmt_effects(fe, types, s).contains(x) <==> x == SEffect::Exception),
        s matches Stmt::Expr(v) ==> stmt_effects(fe, types, s) == expr_effects(fe, types, v),
        e matches Expr::BinOp(l, _, r) ==> (expr_effects(fe, types, e).contains(x) <==> expr_effects(fe, types, *l).contains(
            x,
        ) || expr_effects(fe, types, *r).contains(x)),
{
    match s {
        Stmt::Assign { value, .. } => {
            lemma_effects_union_any(expr_effects(fe, types, value), seq![SEffect::Mutation]);
            if seq![SEffect::Mutation].contains(x) {
                assert(seq![SEffect::Mutation][0] == x);
            }
            if x == SEffect::Mutation {
                assert(seq![SEffect::Mutation][0] == x);
            }
        },
        Stmt::AugAssign(value) => {
            lemma_effects_union_any(expr_effects(fe, types, value), seq![SEffect::Mutation]);
            if seq![SEffect::Mutation].contains(x) {
                assert(seq![SEffect::Mutation][0] == x);
            }
            if x == SEffect::Mutation {
                assert(seq![SEffect::Mutation][0] == x);
            }
        },
        Stmt::Raise => {
            if seq![SEffect::Exception].contains(x) {
                assert(seq![SEffect::Exception][0] == x);
            }
            if x == SEffect::Exception {
                assert(seq![SEffect::Exception][0] == x);
            }
        },
        _ => {},
    }
    if let Expr::BinOp(l, _, r) = e {
        lemma_effects_union_any(expr_effects(fe, types, *l), expr_effects(fe, types, *r));
    }
}

/// The effects recorded for a function are those of the statements of its body: an
/// effect other than `Pure` is recorded exactly when one of those statements has it
/// (and `Async` always for an `async` function).
pub proof fn lemma_function_effects(fe: Map<Seq<char>, Seq<SEffect>>, types: Map<Seq<char>, SType>, s: Stmt, x: SEffect)
    requires
        x != SEffect::Pure,
    ensures
        s matches Stmt::FunctionDef { name, body, .. } ==> (analyze(fe, types, s)[name@].contains(x) <==> exists|i: int|
            0 <= i < body.len() && #[trigger] stmt_effects(fe, types, body@[i]).contains(x)),
        s matches Stmt::AsyncFunctionDef { name, body } ==> (analyze(fe, types, s)[name@].contains(x) <==> x
            == SEffect::Async || exists|i: int| 0 <= i < body.len() && #[trigger] stmt_effects(fe, types, body@[i]).contains(x)),
{
    match s {
        Stmt::FunctionDef { name, body, .. } => {
            lemma_fold_stmts_members(fe, types, pure_set(), body@, x);
            assert(!pure_set().contains(x)) by {
                if pure_set().contains(x) {
                    assert(pure_set()[0] == x);
                }
            }
        },
        Stmt::AsyncFunctionDef { name, body } => {
            lemma_fold_stmts_members(fe, types, seq![SEffect::Async], body@, x);
            if seq![SEffect::Async].contains(x) {
                assert(seq![SEffect::Async][0] == x);
            }
            if x == SEffect::Async {
                assert(seq![SEffect::Async][0] == x);
            }
        },
        _ => {},
    }
}

} // verus!

