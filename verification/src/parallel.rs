//! The analysis of one module for the parallel analyzer: a cached result is reused,
//! otherwise the parsed module is checked and its errors reported.
use vstd::prelude::*;
use crate::incremental::{ModuleId, ContentHash, blake3_digest};
use crate::cache::{CacheKey, CacheEntry, CachedError};
use crate::checker::{TypeChecker, errs_match, check_errs, SChk};
use crate::context::TypeContext;
use crate::constraints::SolverState;
use crate::errors::{TypeError, STypeError, SErrorKind, SourceLocation, ErrorKind, errors_view};
use crate::pyast::Module;
use crate::parse::{parse_module, module_parse};

verus! {

/// A module to analyze.
pub struct AnalysisTask {
    pub id: ModuleId,
    pub path: String,
    pub content: String,
}

/// What analyzing a module gave.
pub struct AnalysisResult {
    pub id: ModuleId,
    pub errors: Vec<TypeError>,
    pub duration_ms: u64,
}

/// How a message is reported in an analysis result: as a mismatch with nothing expected,
/// at the given line and column.
pub open spec fn reported(message: Seq<char>, line: usize, col: usize, file: Seq<char>) -> STypeError {
    STypeError {
        kind: SErrorKind::TypeMismatch(Seq::empty(), message),
        location: SourceLocation { line, col, end_line: line, end_col: col },
        file,
        suggestions: Seq::empty(),
    }
}

/// The key under which a task's result is cached: its module and the digest of its text.
pub fn task_cache_key(task: &AnalysisTask) -> (r: CacheKey)
    ensures
        r.module == task.id,
        r.hash.0@ == blake3_digest(vstd::utf8::encode_utf8(task.content@)),
{
    CacheKey::new(task.id, ContentHash::from_str(task.content.as_str()))
}

fn report(message: String, line: usize, col: usize, file: String) -> (r: TypeError)
    ensures
        r@ == reported(message@, line, col, file@),
{
    let e = TypeError::new(
        ErrorKind::TypeMismatch { expected: String::new(), found: message },
        SourceLocation::new(line, col, line, col),
    );
    let e = e.with_file(file);
    assert(crate::errors::strings_view(e.suggestions@) =~= Seq::<Seq<char>>::empty());
    e
}

/// The result of a task whose analysis was cached: each cached error reported again.
pub fn cached_result(task: &AnalysisTask, entry: &CacheEntry, duration_ms: u64) -> (r: AnalysisResult)
    ensures
        r.id == task.id,
        r.duration_ms == duration_ms,
        r.errors@.len() == entry.errors@.len(),
        forall|i: int| 0 <= i < r.errors@.len() ==> (#[trigger] r.errors@[i])@ == reported(
            entry.errors@[i].message@,
            entry.errors@[i].line,
            entry.errors@[i].col,
            entry.errors@[i].file@,
        ),
{
    let mut errors: Vec<TypeError> = Vec::new();
    let mut i: usize = 0;
    while i < entry.errors.len()
        invariant
            0 <= i <= entry.errors.len(),
            errors@.len() == i,
            forall|j: int| 0 <= j < i ==> (#[trigger] errors@[j])@ == reported(
                entry.errors@[j].message@,
                entry.errors@[j].line,
                entry.errors@[j].col,
                entry.errors@[j].file@,
            ),
        decreases entry.errors.len() - i,
    {
        let c: &CachedError = &entry.errors[i];
        errors.push(report(c.message.clone(), c.line, c.col, c.file.clone()));
        i += 1;
    }
    AnalysisResult { id: task.id, errors, duration_ms }
}

/// The state of a checker made over `ctx`.
pub open spec fn start_state(ctx: crate::context::SContext) -> SChk {
    SChk {
        types: ctx.types,
        next: ctx.next_var,
        errors: Seq::empty(),
        attrs: Map::empty(),
        cur_class: None,
        ret: None,
        solver: SolverState { pending: Seq::empty(), bounds: Map::empty(), errors: Seq::empty() },
    }
}

/// What analyzing a task gives, given what parsing its text gave.
pub open spec fn parsed_outcome(
    task: AnalysisTask,
    ctx: crate::context::SContext,
    parsed: Result<Module, String>,
    duration_ms: u64,
    r: AnalysisResult,
) -> bool {
    &&& r.id == task.id
    &&& r.duration_ms == duration_ms
    &&& match parsed {
        Err(m) => r.errors@.len() == 1 && r.errors@[0]@ == reported("parse error: "@ + m@, 0, 0, Seq::empty()),
        Ok(module) => exists|es: Seq<crate::checker::TypeError>|
            #[trigger] errs_match(es, check_errs(ctx.classes, Map::empty(), start_state(ctx), module.body@))
                && r.errors@.len() == es.len() && forall|i: int|
                0 <= i < es.len() ==> (#[trigger] r.errors@[i])@ == reported(es[i].message@, 0, 0, Seq::empty()),
    }
}

/// The result of a task that was not cached, given what parsing its text gave: a text
/// that does not parse is one error, `parse error: ` and the parser's message; a parsed
/// module is checked in `ctx` and each error of the check is reported with its message.
pub fn analyze_parsed(task: &AnalysisTask, ctx: TypeContext, parsed: Result<Module, String>, duration_ms: u64) -> (r:
    AnalysisResult)
    ensures
        r.id == task.id,
        r.duration_ms == duration_ms,
        match parsed {
            Err(m) => r.errors@.len() == 1 && r.errors@[0]@ == reported("parse error: "@ + m@, 0, 0, Seq::empty()),
            Ok(module) => exists|es: Seq<crate::checker::TypeError>|
                #[trigger] errs_match(es, check_errs(ctx@.classes, Map::empty(), start_state(ctx@), module.body@))
                    && r.errors@.len() == es.len() && forall|i: int|
                    0 <= i < es.len() ==> (#[trigger] r.errors@[i])@ == reported(es[i].message@, 0, 0, Seq::empty()),
        },
        parsed_outcome(*task, ctx@, parsed, duration_ms, r),
{
    let ghost cv = ctx@;
    match parsed {
        Err(m) => {
            let mut msg = String::from_str("parse error: ");
            msg.append(m.as_str());
            let mut errors: Vec<TypeError> = Vec::new();
            errors.push(report(msg, 0, 0, String::new()));
            AnalysisResult { id: task.id, errors, duration_ms }
        },
        Ok(module) => {
            let mut checker = TypeChecker::with_context(ctx);
            assert(checker.model() == start_state(cv));
            let found = checker.check(&module);
            let mut errors: Vec<TypeError> = Vec::new();
            let mut i: usize = 0;
            while i < found.len()
                invariant
                    0 <= i <= found.len(),
                    errors@.len() == i,
                    forall|j: int| 0 <= j < i ==> (#[trigger] errors@[j])@ == reported(found@[j].message@, 0, 0, Seq::empty()),
                    errs_match(found@, check_errs(cv.classes, Map::empty(), start_state(cv), module.body@)),
                decreases found.len() - i,
            {
                assert(found@[i as int].line == 0 && found@[i as int].col == 0);
                errors.push(report(found[i].message.clone(), found[i].line, found[i].col, String::new()));
                i += 1;
            }
            AnalysisResult { id: task.id, errors, duration_ms }
        },
    }
}

/// Analyzes a task: a task whose result is cached (`cached`, found under its
/// `task_cache_key`) gives the cached errors again; otherwise its text is parsed and the
/// module checked in `ctx`.
pub fn analyze_task(task: &AnalysisTask, ctx: TypeContext, cached: Option<&CacheEntry>, duration_ms: u64) -> (r:
    AnalysisResult)
    ensures
        r.id == task.id,
        r.duration_ms == duration_ms,
        cached matches Some(entry) ==> r.errors@.len() == entry.errors@.len() && forall|i: int|
            0 <= i < r.errors@.len() ==> (#[trigger] r.errors@[i])@ == reported(
                entry.errors@[i].message@,
                entry.errors@[i].line,
                entry.errors@[i].col,
                entry.errors@[i].file@,
            ),
        cached is None ==> exists|p: Result<Module, String>|
            #[trigger] module_parse(task.content@, p) && parsed_outcome(*task, ctx@, p, duration_ms, r),
{
    match cached {
        Some(entry) => cached_result(task, entry, duration_ms),
        None => {
            let parsed = parse_module(task.content.as_str());
            let ghost p = parsed;
            let ghost cv = ctx@;
            let r = analyze_parsed(task, ctx, parsed, duration_ms);
            assert(module_parse(task.content@, p) && parsed_outcome(*task, cv, p, duration_ms, r));
            r
        },
    }
}

} // verus!
