use typthon::pipeline::{after_stage, CompilerPipeline, CompilerStage, FlowControl, Next};

#[test]
fn test_compiler_pipeline() {
    let pipeline = CompilerPipeline::standard();
    assert_eq!(pipeline.stage_names(), vec!["parse", "typecheck", "optimize", "codegen"]);

    let fast = CompilerPipeline::fast();
    assert_eq!(fast.stage_names(), vec!["parse", "typecheck", "codegen"]);
}

#[test]
fn check_only_pipeline() {
    let p = CompilerPipeline::check_only();
    assert_eq!(p.stage_names(), vec!["parse", "typecheck"]);
    assert!(p.has_stage(CompilerStage::TypeCheck));
    assert!(!p.has_stage(CompilerStage::CodeGen));
}

#[test]
fn flow_control_decisions() {
    assert!(matches!(after_stage(Some(3), FlowControl::Continue), Next::Proceed(3)));
    assert!(matches!(after_stage(Some(3), FlowControl::Skip), Next::Finish(Some(3))));
    assert!(matches!(after_stage(Some(3), FlowControl::Stop), Next::Finish(None)));
    assert!(matches!(after_stage::<i32>(None, FlowControl::Continue), Next::Finish(None)));
}
