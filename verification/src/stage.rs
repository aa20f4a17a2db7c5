//! Stage output algebra and interaction policies.
//!
//! [`StageOutput`] models the result of executing a pipeline stage: continue
//! with a context, retry, fail, or fan out.
use vstd::prelude::*;

use crate::context::ContextBundle;
use crate::error::SakamotoError;
use crate::text::{chars_of, extend_str, str_eq, string_of, to_owned_string};

verus! {

/// The result of executing a single pipeline stage.
#[derive(Debug)]
pub enum StageOutput {
    /// Stage completed successfully; pass context to the next stage.
    Continue(ContextBundle),
    /// Stage wants to retry (e.g., lint failed, feed errors back to the LLM).
    Retry { context: ContextBundle, reason: String },
    /// Stage failed irrecoverably.
    Fail(SakamotoError),
    /// Fan out to parallel sub-pipelines.
    Fork(Vec<ContextBundle>),
}

impl StageOutput {
    /// Apply a function to the context if this is `Continue`; other variants
    /// pass through unchanged.
    pub fn map<F: FnOnce(ContextBundle) -> ContextBundle>(self, f: F) -> (r: StageOutput)
        requires
            self matches StageOutput::Continue(ctx) ==> f.requires((ctx,)),
        ensures
            match self {
                StageOutput::Continue(ctx) => r matches StageOutput::Continue(c2) && f.ensures((ctx,), c2),
                _ => r == self,
            },
    {
        match self {
            StageOutput::Continue(ctx) => StageOutput::Continue(f(ctx)),
            other => other,
        }
    }

    /// Chain a stage-producing function on `Continue`; other variants pass
    /// through unchanged.
    pub fn and_then<F: FnOnce(ContextBundle) -> StageOutput>(self, f: F) -> (r: StageOutput)
        requires
            self matches StageOutput::Continue(ctx) ==> f.requires((ctx,)),
        ensures
            match self {
                StageOutput::Continue(ctx) => f.ensures((ctx,), r),
                _ => r == self,
            },
    {
        match self {
            StageOutput::Continue(ctx) => f(ctx),
            other => other,
        }
    }

    /// Returns `true` if this is a `Continue` variant.
    pub fn is_continue(&self) -> (b: bool)
        ensures
            b == (self is Continue),
    {
        match self {
            StageOutput::Continue(_) => true,
            _ => false,
        }
    }

    /// Returns `true` if this is a `Fail` variant.
    pub fn is_fail(&self) -> (b: bool)
        ensures
            b == (self is Fail),
    {
        match self {
            StageOutput::Fail(_) => true,
            _ => false,
        }
    }

    /// Returns `true` if this is a `Retry` variant.
    pub fn is_retry(&self) -> (b: bool)
        ensures
            b == (self is Retry),
    {
        match self {
            StageOutput::Retry { .. } => true,
            _ => false,
        }
    }

    /// Returns `true` if this is a `Fork` variant.
    pub fn is_fork(&self) -> (b: bool)
        ensures
            b == (self is Fork),
    {
        match self {
            StageOutput::Fork(_) => true,
            _ => false,
        }
    }

    /// Extract the context bundle, if this is `Continue`.
    pub fn into_context(self) -> (r: Option<ContextBundle>)
        ensures
            match self {
                StageOutput::Continue(ctx) => r == Some(ctx),
                _ => r is None,
            },
    {
        match self {
            StageOutput::Continue(ctx) => Some(ctx),
            _ => None,
        }
    }
}

/// How much human involvement a stage requires.
#[derive(Debug, Clone, Copy, PartialEq, Eq, Hash, Structural)]
pub enum InteractionPolicy {
    /// Run without human intervention.
    Autonomous,
    /// Pause and ask for confirmation before applying changes.
    Confirm,
    /// Interactive collaboration with the human.
    Collaborate,
    /// Hand off entirely to the human.
    Delegate,
}

impl Default for InteractionPolicy {
    fn default() -> (p: InteractionPolicy)
        ensures
            p == InteractionPolicy::Autonomous,
    {
        InteractionPolicy::Autonomous
    }
}

/// The kind of pipeline stage.
#[derive(Debug, Clone, Eq)]
pub enum StageKind {
    /// Context pre-hydration (deterministic).
    Context,
    /// LLM planning.
    Plan,
    /// LLM code generation with tool use.
    Code,
    /// Run linter (deterministic).
    Lint,
    /// Run tests (deterministic).
    Test,
    /// Git commit (deterministic).
    Commit,
    /// Create pull request (deterministic).
    Pr,
    /// User-defined custom stage.
    Custom(String),
}

impl StageKind {
    /// The text a stage kind displays as.
    pub open spec fn spec_display(&self) -> Seq<char> {
        match self {
            StageKind::Context => "context"@,
            StageKind::Plan => "plan"@,
            StageKind::Code => "code"@,
            StageKind::Lint => "lint"@,
            StageKind::Test => "test"@,
            StageKind::Commit => "commit"@,
            StageKind::Pr => "pr"@,
            StageKind::Custom(name) => "custom:"@ + name@,
        }
    }

    /// The displayed name (what `to_string` gives): the lower-case kind, or
    /// `custom:name`.
    pub fn display(&self) -> (s: String)
        ensures
            s@ == self.spec_display(),
    {
        match self {
            StageKind::Context => string_of(chars_of("context").as_slice()),
            StageKind::Plan => string_of(chars_of("plan").as_slice()),
            StageKind::Code => string_of(chars_of("code").as_slice()),
            StageKind::Lint => string_of(chars_of("lint").as_slice()),
            StageKind::Test => string_of(chars_of("test").as_slice()),
            StageKind::Commit => string_of(chars_of("commit").as_slice()),
            StageKind::Pr => string_of(chars_of("pr").as_slice()),
            StageKind::Custom(name) => {
                let mut v = chars_of("custom:");
                extend_str(&mut v, name.as_str());
                string_of(v.as_slice())
            },
        }
    }

    /// A copy of the kind.
    pub fn duplicate(&self) -> (k: StageKind)
        ensures
            k == *self,
    {
        match self {
            StageKind::Context => StageKind::Context,
            StageKind::Plan => StageKind::Plan,
            StageKind::Code => StageKind::Code,
            StageKind::Lint => StageKind::Lint,
            StageKind::Test => StageKind::Test,
            StageKind::Commit => StageKind::Commit,
            StageKind::Pr => StageKind::Pr,
            StageKind::Custom(name) => StageKind::Custom(name.clone()),
        }
    }

    /// Whether two kinds are the same.
    pub fn same(&self, other: &StageKind) -> (b: bool)
        ensures
            b == (self.kind_view() == other.kind_view()),
    {
        match (self, other) {
            (StageKind::Context, StageKind::Context) => true,
            (StageKind::Plan, StageKind::Plan) => true,
            (StageKind::Code, StageKind::Code) => true,
            (StageKind::Lint, StageKind::Lint) => true,
            (StageKind::Test, StageKind::Test) => true,
            (StageKind::Commit, StageKind::Commit) => true,
            (StageKind::Pr, StageKind::Pr) => true,
            (StageKind::Custom(a), StageKind::Custom(b)) => str_eq(a.as_str(), b.as_str()),
            _ => false,
        }
    }

    /// The kind with its custom name taken by value.
    pub open spec fn kind_view(&self) -> KindView {
        match self {
            StageKind::Context => KindView::Context,
            StageKind::Plan => KindView::Plan,
            StageKind::Code => KindView::Code,
            StageKind::Lint => KindView::Lint,
            StageKind::Test => KindView::Test,
            StageKind::Commit => KindView::Commit,
            StageKind::Pr => KindView::Pr,
            StageKind::Custom(name) => KindView::Custom(name@),
        }
    }
}

/// The mathematical value of a [`StageKind`].
pub enum KindView {
    Context,
    Plan,
    Code,
    Lint,
    Test,
    Commit,
    Pr,
    Custom(Seq<char>),
}

impl PartialEq for StageKind {
    fn eq(&self, other: &Self) -> (r: bool) {
        self.same(other)
    }
}

impl vstd::std_specs::cmp::PartialEqSpecImpl for StageKind {
    open spec fn obeys_eq_spec() -> bool {
        true
    }

    open spec fn eq_spec(&self, other: &StageKind) -> bool {
        self.kind_view() == other.kind_view()
    }
}

/// Configuration for a single pipeline stage.
#[derive(Debug, Clone)]
pub struct StageConfig {
    /// Human-readable stage name.
    pub name: String,
    /// What kind of stage this is.
    pub kind: StageKind,
    /// Which LLM backend to use (references a backend name in config).
    pub llm_backend: Option<String>,
    /// Which toolset to make available (references a toolset name in config).
    pub toolset: Option<String>,
    /// Interaction policy for this stage.
    pub interaction: InteractionPolicy,
    /// Maximum ReAct loop iterations (for LLM stages).
    pub max_iterations: usize,
    /// Maximum retry attempts (for validation stages).
    pub max_retries: usize,
    /// Timeout in seconds for this stage.
    pub timeout_secs: Option<u64>,
    /// Shell command to run (for deterministic stages like lint/test).
    pub command: Option<String>,
    /// System prompt for LLM stages; a built-in one is used when absent.
    pub system_prompt: Option<String>,
}

impl Default for StageConfig {
    fn default() -> (c: StageConfig)
        ensures
            c.name@ == Seq::<char>::empty(),
            c.kind.kind_view() == KindView::Custom(Seq::empty()),
            c.llm_backend is None,
            c.toolset is None,
            c.interaction == InteractionPolicy::Autonomous,
            c.max_iterations == 20,
            c.max_retries == 2,
            c.timeout_secs is None,
            c.command is None,
            c.system_prompt is None,
    {
        let c = StageConfig::with_defaults("");
        proof {
            reveal_strlit("");
            assert(""@ =~= Seq::<char>::empty());
        }
        c
    }
}

fn opt_string_copy(o: &Option<String>) -> (r: Option<String>)
    ensures
        r == *o,
{
    match o {
        Some(s) => Some(s.clone()),
        None => None,
    }
}

/// `c` is the configuration of a stage named `name` that has none of its
/// own: every setting at its default.
pub open spec fn is_default_config(c: StageConfig, name: Seq<char>) -> bool {
    &&& c.name@ == name
    &&& c.kind.kind_view() == KindView::Custom(Seq::empty())
    &&& c.llm_backend is None
    &&& c.toolset is None
    &&& c.interaction == InteractionPolicy::Autonomous
    &&& c.max_iterations == 20
    &&& c.max_retries == 2
    &&& c.timeout_secs is None
    &&& c.command is None
    &&& c.system_prompt is None
}

impl StageConfig {
    /// The configuration of a stage that has none of its own: every setting
    /// at its default, under the given name.
    pub fn with_defaults(name: &str) -> (c: StageConfig)
        ensures
            c.name@ == name@,
            c.kind.kind_view() == KindView::Custom(Seq::empty()),
            c.llm_backend is None,
            c.toolset is None,
            c.interaction == InteractionPolicy::Autonomous,
            c.max_iterations == 20,
            c.max_retries == 2,
            c.timeout_secs is None,
            c.command is None,
            c.system_prompt is None,
    {
        StageConfig {
            name: to_owned_string(name),
            kind: StageKind::Custom(String::new()),
            llm_backend: None,
            toolset: None,
            interaction: InteractionPolicy::default(),
            max_iterations: default_max_iterations(),
            max_retries: default_max_retries(),
            timeout_secs: None,
            command: None,
            system_prompt: None,
        }
    }

    /// A copy of the configuration.
    pub fn duplicate(&self) -> (c: StageConfig)
        ensures
            c == *self,
    {
        StageConfig {
            name: self.name.clone(),
            kind: self.kind.duplicate(),
            llm_backend: opt_string_copy(&self.llm_backend),
            toolset: opt_string_copy(&self.toolset),
            interaction: self.interaction,
            max_iterations: self.max_iterations,
            max_retries: self.max_retries,
            timeout_secs: self.timeout_secs,
            command: opt_string_copy(&self.command),
            system_prompt: opt_string_copy(&self.system_prompt),
        }
    }
}

/// The number of ReAct iterations a stage gets when its configuration names none.
pub fn default_max_iterations() -> (n: usize)
    ensures
        n == 20,
{
    20
}

/// The number of retries a stage gets when its configuration names none.
pub fn default_max_retries() -> (n: usize)
    ensures
        n == 2,
{
    2
}

} // verus!
