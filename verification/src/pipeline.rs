//! Stages of the compiler pipeline and flow control between stages.
use vstd::prelude::*;

verus! {

/// A stage of a pipeline: turns an input into an output.
pub trait Stage<I, O> {
    fn process(&mut self, input: I) -> O;
}

/// A stage of compilation.
#[derive(Debug, Clone, Copy, PartialEq, Eq, Structural)]
pub enum CompilerStage {
    Parse,
    TypeCheck,
    Optimize,
    CodeGen,
}

/// The name of a stage.
pub open spec fn stage_name(s: CompilerStage) -> Seq<char> {
    match s {
        CompilerStage::Parse => "parse"@,
        CompilerStage::TypeCheck => "typecheck"@,
        CompilerStage::Optimize => "optimize"@,
        CompilerStage::CodeGen => "codegen"@,
    }
}

impl CompilerStage {
    /// The name of the stage.
    pub fn name(&self) -> (r: &'static str)
        ensures
            r@ == stage_name(*self),
    {
        match self {
            CompilerStage::Parse => "parse",
            CompilerStage::TypeCheck => "typecheck",
            CompilerStage::Optimize => "optimize",
            CompilerStage::CodeGen => "codegen",
        }
    }
}

/// A sequence of compilation stages.
pub struct CompilerPipeline {
    stages: Vec<CompilerStage>,
}

impl CompilerPipeline {
    /// The stages of the pipeline, in order.
    pub closed spec fn stages(&self) -> Seq<CompilerStage> {
        self.stages@
    }

    pub fn new(stages: Vec<CompilerStage>) -> (r: Self)
        ensures
            r.stages() == stages@,
    {
        CompilerPipeline { stages }
    }

    /// Parse, type check, optimize, generate code.
    pub fn standard() -> (r: Self)
        ensures
            r.stages() == seq![
                CompilerStage::Parse,
                CompilerStage::TypeCheck,
                CompilerStage::Optimize,
                CompilerStage::CodeGen,
            ],
    {
        let mut v: Vec<CompilerStage> = Vec::new();
        v.push(CompilerStage::Parse);
        v.push(CompilerStage::TypeCheck);
        v.push(CompilerStage::Optimize);
        v.push(CompilerStage::CodeGen);
        Self::new(v)
    }

    /// Like the standard pipeline, without optimization.
    pub fn fast() -> (r: Self)
        ensures
            r.stages() == seq![CompilerStage::Parse, CompilerStage::TypeCheck, CompilerStage::CodeGen],
    {
        let mut v: Vec<CompilerStage> = Vec::new();
        v.push(CompilerStage::Parse);
        v.push(CompilerStage::TypeCheck);
        v.push(CompilerStage::CodeGen);
        Self::new(v)
    }

    /// Parse and type check only.
    pub fn check_only() -> (r: Self)
        ensures
            r.stages() == seq![CompilerStage::Parse, CompilerStage::TypeCheck],
    {
        let mut v: Vec<CompilerStage> = Vec::new();
        v.push(CompilerStage::Parse);
        v.push(CompilerStage::TypeCheck);
        Self::new(v)
    }

    /// The names of the stages, in order.
    pub fn stage_names(&self) -> (r: Vec<&'static str>)
        ensures
            r@.len() == self.stages().len(),
            forall|i: int| 0 <= i < r@.len() ==> (#[trigger] r@[i])@ == stage_name(self.stages()[i]),
    {
        let mut names: Vec<&'static str> = Vec::new();
        let mut i: usize = 0;
        while i < self.stages.len()
            invariant
                0 <= i <= self.stages.len(),
                names@.len() == i,
                forall|j: int| 0 <= j < i ==> (#[trigger] names@[j])@ == stage_name(self.stages@[j]),
            decreases self.stages.len() - i,
        {
            names.push(self.stages[i].name());
            i += 1;
        }
        names
    }

    /// Whether the pipeline has a stage.
    pub fn has_stage(&self, stage: CompilerStage) -> (r: bool)
        ensures
            r == self.stages().contains(stage),
    {
        let mut i: usize = 0;
        while i < self.stages.len()
            invariant
                0 <= i <= self.stages.len(),
                forall|j: int| 0 <= j < i ==> self.stages@[j] != stage,
            decreases self.stages.len() - i,
        {
            if self.stages[i] == stage {
                return true;
            }
            i += 1;
        }
        false
    }
}

/// What a stage tells the pipeline to do next.
#[derive(Debug, Clone, Copy, PartialEq, Eq, Structural)]
pub enum FlowControl {
    /// Go on with the next stage.
    Continue,
    /// Stop here and give the item as the result.
    Skip,
    /// Stop without a result.
    Stop,
}

/// The pipeline's next move after a stage.
pub enum Next<I> {
    /// Hand the item to the next stage.
    Proceed(I),
    /// The pipeline ends with this result.
    Finish(Option<I>),
}

/// The decision after a stage has given its output and its flow control: a stop or a
/// missing item ends without a result, a skip ends with the item, and otherwise the item
/// goes on.
pub fn after_stage<I>(output: Option<I>, flow: FlowControl) -> (r: Next<I>)
    ensures
        match (output, flow) {
            (_, FlowControl::Stop) => r matches Next::Finish(None),
            (None, _) => r matches Next::Finish(None),
            (Some(x), FlowControl::Skip) => r matches Next::Finish(Some(y)) && y == x,
            (Some(x), FlowControl::Continue) => r matches Next::Proceed(y) && y == x,
        },
{
    match (output, flow) {
        (Some(next), FlowControl::Continue) => Next::Proceed(next),
        (Some(next), FlowControl::Skip) => Next::Finish(Some(next)),
        (_, FlowControl::Stop) => Next::Finish(None),
        (None, _) => Next::Finish(None),
    }
}

} // verus!
