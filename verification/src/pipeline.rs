//! Phantom-typed pipeline state machine.
//!
//! Pipeline state transitions are encoded at the type level, preventing
//! invalid operations at compile time.
use vstd::prelude::*;

use std::marker::PhantomData;

use crate::context::{task_bundle, ContextBundle};
use crate::error::Diagnostic;
use crate::llm::TokenUsage;
use crate::sealed::Sealed;
use crate::stage::StageConfig;

verus! {

/// Pipeline created, not yet started.
#[derive(Debug, Clone, Copy)]
pub struct Pending;

/// Context has been pre-hydrated.
#[derive(Debug, Clone, Copy)]
pub struct Hydrated;

/// Execution plan has been produced.
#[derive(Debug, Clone, Copy)]
pub struct Planned;

/// Code changes have been applied.
#[derive(Debug, Clone, Copy)]
pub struct Executed;

/// Lint and tests have passed.
#[derive(Debug, Clone, Copy)]
pub struct Validated;

/// PR or commit has been created.
#[derive(Debug, Clone, Copy)]
pub struct Emitted;

/// Marker trait for valid pipeline states, sealed to the states above.
pub trait PipelineState: Sealed {}

impl PipelineState for Pending {}

impl PipelineState for Hydrated {}

impl PipelineState for Planned {}

impl PipelineState for Executed {}

impl PipelineState for Validated {}

impl PipelineState for Emitted {}

/// A pipeline parameterized by its current state.
///
/// Transitions consume the pipeline and produce a new one in the next
/// state; the state type rules out out-of-order operations at compile time.
#[derive(Debug)]
pub struct Pipeline<S: PipelineState> {
    /// The accumulated context bundle.
    pub context: ContextBundle,
    /// Stage configurations for this pipeline.
    pub stages: Vec<StageConfig>,
    /// Diagnostics accumulated across all stages.
    pub diagnostics: Vec<Diagnostic>,
    /// Token usage accumulated across all LLM calls.
    pub token_usage: TokenUsage,
    /// The state marker; it carries no data.
    pub state: PhantomData<S>,
}

impl Pipeline<Pending> {
    /// Create a new pipeline in the `Pending` state.
    pub fn new(task: &str, stages: Vec<StageConfig>) -> (p: Pipeline<Pending>)
        ensures
            p.context@ == task_bundle(task@),
            p.stages == stages,
            p.diagnostics@ == Seq::<Diagnostic>::empty(),
            p.token_usage.input_tokens == 0,
            p.token_usage.output_tokens == 0,
    {
        Pipeline {
            context: ContextBundle::from_task(task),
            stages,
            diagnostics: Vec::new(),
            token_usage: TokenUsage::default(),
            state: PhantomData,
        }
    }
}

impl<S: PipelineState> Pipeline<S> {
    /// Transition to the next state with an updated context; stages,
    /// diagnostics and token usage carry over.
    pub fn advance<T: PipelineState>(self, context: ContextBundle) -> (p: Pipeline<T>)
        ensures
            p.context == context,
            p.stages == self.stages,
            p.diagnostics == self.diagnostics,
            p.token_usage == self.token_usage,
    {
        Pipeline {
            context,
            stages: self.stages,
            diagnostics: self.diagnostics,
            token_usage: self.token_usage,
            state: PhantomData,
        }
    }

    /// Add a diagnostic message.
    pub fn add_diagnostic(&mut self, diagnostic: Diagnostic)
        ensures
            final(self).diagnostics@ == old(self).diagnostics@.push(diagnostic),
            final(self).context == old(self).context,
            final(self).stages == old(self).stages,
            final(self).token_usage == old(self).token_usage,
    {
        self.diagnostics.push(diagnostic);
    }

    /// Accumulate token usage.
    pub fn add_usage(&mut self, usage: &TokenUsage)
        requires
            old(self).token_usage.input_tokens + usage.input_tokens <= u64::MAX,
            old(self).token_usage.output_tokens + usage.output_tokens <= u64::MAX,
        ensures
            final(self).token_usage.input_tokens == old(self).token_usage.input_tokens + usage.input_tokens,
            final(self).token_usage.output_tokens == old(self).token_usage.output_tokens + usage.output_tokens,
            final(self).context == old(self).context,
            final(self).stages == old(self).stages,
            final(self).diagnostics == old(self).diagnostics,
    {
        self.token_usage.accumulate(usage);
    }

    /// Get the task description.
    pub fn task(&self) -> (t: &str)
        ensures
            t@ == self.context.task_description@,
    {
        self.context.task_description.as_str()
    }
}

/// The final result of a completed pipeline run.
#[derive(Debug, Clone)]
pub struct PipelineResult {
    /// Final context bundle.
    pub context: ContextBundle,
    /// All diagnostics from the run.
    pub diagnostics: Vec<Diagnostic>,
    /// Total token usage.
    pub token_usage: TokenUsage,
    /// The output artifact (PR URL, commit SHA, etc.).
    pub output: PipelineOutput,
}

/// What the pipeline produced.
#[derive(Debug, Clone)]
pub enum PipelineOutput {
    /// A pull request was created.
    PullRequest { url: String, number: u64 },
    /// A commit was created (no PR).
    Commit { sha: String, message: String },
    /// A patch file was produced.
    Patch { path: String },
    /// Changes were written to files (no commit).
    Files { paths: Vec<String> },
    /// No output (e.g., dry run or analysis only).
    NoOutput,
}

} // verus!
