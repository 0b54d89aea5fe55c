use typthon::integration::{CompilationError, PipelinedCompiler, Stage};
use typthon::pipeline::{CompilerPipeline, CompilerStage};
use typthon::pyast::{Constant, Expr, Module, Stmt};

fn name(s: &str) -> Expr {
    Expr::Name(s.to_string())
}

fn lit(n: i64) -> Expr {
    Expr::Constant(Constant::Int(Some(n)))
}

fn bad_return_module() -> Module {
    Module {
        body: vec![Stmt::FunctionDef {
            name: "f".to_string(),
            params: vec![],
            result: Some(name("int")),
            body: vec![Stmt::Return(Some(Expr::Constant(Constant::Str("s".to_string()))))],
        }],
    }
}

#[test]
fn unparsed_source_aborts() {
    let compiler = PipelinedCompiler::new(CompilerPipeline::standard());
    let err = compiler.compile(None).err().unwrap();
    assert!(matches!(err, CompilationError::Aborted));
    assert_eq!(err.to_string(), "Compilation aborted");
}

#[test]
fn without_type_checking_stops_at_parsing() {
    let compiler = PipelinedCompiler::new(CompilerPipeline::new(vec![CompilerStage::Parse]));
    let result = compiler.compile(Some(bad_return_module())).ok().unwrap();
    assert_eq!(result.stage, Stage::Parsed);
}

#[test]
fn well_typed_module_is_type_checked() {
    let compiler = PipelinedCompiler::new(CompilerPipeline::check_only());
    let module = Module { body: vec![Stmt::Assign { targets: vec![name("x")], value: lit(1) }] };
    let result = compiler.compile(Some(module)).ok().unwrap();
    assert_eq!(result.stage, Stage::TypeChecked);
}

#[test]
fn type_errors_are_reported() {
    let compiler = PipelinedCompiler::new(CompilerPipeline::fast());
    let err = compiler.compile(Some(bad_return_module())).err().unwrap();
    match &err {
        CompilationError::Errors(lines) => {
            assert_eq!(lines, &vec!["Type error: Return type mismatch: expected Int, got Str".to_string()]);
        },
        CompilationError::Aborted => panic!("expected errors"),
    }
    assert_eq!(err.to_string(), "Compilation errors: Type error: Return type mismatch: expected Int, got Str");
}

#[test]
fn test_pipelined_compiler() {
    let compiler = PipelinedCompiler::new(CompilerPipeline::check_only());
    let result = compiler.compile_source("x = 1".to_string());
    assert!(result.is_ok());
}

#[test]
fn source_that_does_not_parse_aborts() {
    let compiler = PipelinedCompiler::new(CompilerPipeline::standard());
    let err = compiler.compile_source("x = (".to_string()).err().unwrap();
    assert!(matches!(err, CompilationError::Aborted));
}

#[test]
fn source_with_type_errors_reports_them() {
    let compiler = PipelinedCompiler::new(CompilerPipeline::fast());
    let err = compiler.compile_source("def f() -> int:\n    return \"s\"\n".to_string()).err().unwrap();
    assert_eq!(err.to_string(), "Compilation errors: Type error: Return type mismatch: expected Int, got Str");
}
