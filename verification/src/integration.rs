//! A compilation workflow over the stages of a pipeline: parsing, then type checking
//! when the pipeline has that stage.
use vstd::prelude::*;
use crate::pipeline::{CompilerPipeline, CompilerStage};
use crate::pyast::Module;
use crate::parse::{parse_module, module_parse};
use crate::checker::{TypeChecker, TypeError, errs_match, fresh_check_errs, fresh_chk, SChk};
use crate::context::{TypeContext, builtin_classes};
use crate::errors::{strings_view, write_joined};
use crate::display::join;
use crate::types::SEffect;

verus! {

/// How far compilation went.
#[derive(Debug, Clone, Copy, PartialEq, Eq, Structural)]
pub enum Stage {
    Initial,
    Parsed,
    TypeChecked,
    Optimized,
    Generated,
}

/// A successful compilation: the stage it reached.
pub struct CompilationResult {
    pub stage: Stage,
}

/// Why compilation failed: the errors found, or a stage stopped the pipeline.
#[derive(Debug)]
pub enum CompilationError {
    Errors(Vec<String>),
    Aborted,
}

/// The lines that type errors are reported as.
pub open spec fn type_error_lines(es: Seq<TypeError>) -> Seq<Seq<char>> {
    es.map_values(|e: TypeError| "Type error: "@ + e.message@)
}

/// The text of a compilation error.
pub open spec fn compilation_error_text(e: CompilationError) -> Seq<char> {
    match e {
        CompilationError::Errors(errs) => "Compilation errors: "@ + join(strings_view(errs@), ", "@),
        CompilationError::Aborted => "Compilation aborted"@,
    }
}

impl CompilationError {
    /// The error as text.
    pub fn to_string(&self) -> (r: String)
        ensures
            r@ == compilation_error_text(*self),
    {
        match self {
            CompilationError::Errors(errs) => {
                let mut s = String::from_str("Compilation errors: ");
                write_joined(errs, ", ", &mut s);
                s
            },
            CompilationError::Aborted => String::from_str("Compilation aborted"),
        }
    }
}

/// Compiles sources through the stages of a pipeline.
pub struct PipelinedCompiler {
    pipeline: CompilerPipeline,
}

impl PipelinedCompiler {
    /// The stages the compiler runs.
    pub closed spec fn stages(&self) -> Seq<CompilerStage> {
        self.pipeline.stages()
    }

    pub fn new(pipeline: CompilerPipeline) -> (r: Self)
        ensures
            r.stages() == pipeline.stages(),
    {
        PipelinedCompiler { pipeline }
    }

    /// What compiling a source that parses to `parsed` (`None` when it does not parse)
    /// gives.
    pub open spec fn compile_outcome(&self, parsed: Option<Module>, r: Result<CompilationResult, CompilationError>) -> bool {
            match parsed {
                None => r matches Err(CompilationError::Aborted),
                Some(m) => if !self.stages().contains(CompilerStage::TypeCheck) {
                    r matches Ok(res) && res.stage == Stage::Parsed
                } else {
                    exists|es: Seq<TypeError>|
                        #[trigger] errs_match(es, fresh_check_errs(m.body@)) && (if es.len() == 0 {
                            r matches Ok(res) && res.stage == Stage::TypeChecked
                        } else {
                            r matches Err(CompilationError::Errors(lines)) && strings_view(lines@)
                                =~= type_error_lines(es)
                        })
                },
            }
    }

    /// Compiles a source, given as the module it parses to or `None` when it does not
    /// parse. A source that does not parse stops the pipeline. A parsed module is type
    /// checked, in a fresh context, when the pipeline has the type checking stage; each
    /// error found is reported as `Type error: ` and its message.
    pub fn compile(&self, parsed: Option<Module>) -> (r: Result<CompilationResult, CompilationError>)
        ensures
            self.compile_outcome(parsed, r),
    {
        let module = match parsed {
            None => return Err(CompilationError::Aborted),
            Some(m) => m,
        };
        if !self.pipeline.has_stage(CompilerStage::TypeCheck) {
            return Ok(CompilationResult { stage: Stage::Parsed });
        }
        let mut checker = TypeChecker::with_context(TypeContext::new());
        proof {
            assert(checker.model() == fresh_chk());
        }
        let errors = checker.check(&module);
        let mut lines: Vec<String> = Vec::new();
        let mut i: usize = 0;
        while i < errors.len()
            invariant
                0 <= i <= errors.len(),
                strings_view(lines@) == type_error_lines(errors@.take(i as int)),
            decreases errors.len() - i,
        {
            let mut line = String::from_str("Type error: ");
            line.append(errors[i].message.as_str());
            proof {
                assert(type_error_lines(errors@.take(i + 1)) =~= type_error_lines(errors@.take(i as int)).push(
                    line@,
                ));
            }
            let ghost before = lines@;
            lines.push(line);
            assert(strings_view(lines@) =~= strings_view(before).push(line@));
            i += 1;
        }
        assert(errors@.take(errors.len() as int) =~= errors@);
        assert(errs_match(errors@, fresh_check_errs(module.body@)));
        if lines.len() == 0 {
            Ok(CompilationResult { stage: Stage::TypeChecked })
        } else {
            Err(CompilationError::Errors(lines))
        }
    }

    /// Compiles Python source: parses it, then compiles the module it parses to; a source
    /// that does not parse stops the pipeline.
    pub fn compile_source(&self, source: String) -> (r: Result<CompilationResult, CompilationError>)
        ensures
            exists|p: Result<Module, String>| #[trigger] module_parse(source@, p) && self.compile_outcome(ok_module(p), r),
    {
        let parsed = parse_module(source.as_str());
        let ghost p = parsed;
        let m = match parsed {
            Ok(m) => Some(m),
            Err(_) => None,
        };
        let r = self.compile(m);
        assert(module_parse(source@, p) && self.compile_outcome(ok_module(p), r));
        r
    }
}

/// The module of a parse that succeeded.
pub open spec fn ok_module(p: Result<Module, String>) -> Option<Module> {
    match p {
        Ok(m) => Some(m),
        Err(_) => None,
    }
}

} // verus!
