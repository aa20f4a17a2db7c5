//! Pipeline runner: walks the stages of a DAG in order, with retry support.
//!
//! The runner decides; whoever holds the stage implementations executes.
//! [`PipelineRunner::start`] fixes the order, [`PipelineRunner::next_action`]
//! says which stage runs next (with the configuration, LLM client and tool
//! executor names it gets), and [`PipelineRunner::record`] takes the stage's
//! output and gives the next state. When a validation stage returns `Retry`,
//! the run jumps back to the configured retry target (or the start) at most
//! `max_retries` times.
use vstd::prelude::*;

use crate::context::ContextBundle;
use crate::dag::PipelineDag;
use crate::error::{Diagnostic, SakamotoError, Severity};
use crate::llm::TokenUsage;
use crate::stage::{StageConfig, StageOutput};
use crate::strmap::StrMap;
use crate::text::{chars_of, decimal, decimal_chars, extend_chars, extend_str, string_of, views};

verus! {

/// The result of a successful pipeline run.
#[derive(Debug)]
pub struct RunResult {
    /// Final context bundle after all stages.
    pub context: ContextBundle,
    /// Token usage accumulated across all LLM calls of the stages run.
    pub token_usage: TokenUsage,
    /// Names of stages that were executed (in order, including retries).
    pub stages_executed: Vec<String>,
    /// How many retry rounds were needed.
    pub retries: usize,
}

/// Configuration for the pipeline runner.
#[derive(Debug, Clone)]
pub struct RunnerConfig {
    /// Maximum number of retry rounds for validation stages.
    pub max_retries: usize,
    /// Stage name to restart from on retry (e.g., "code"). When absent, the
    /// run restarts from the first stage.
    pub retry_from: Option<String>,
}

impl Default for RunnerConfig {
    fn default() -> (c: RunnerConfig)
        ensures
            c.max_retries == 2,
            c.retry_from is None,
    {
        RunnerConfig { max_retries: 2, retry_from: None }
    }
}

/// What a stage gets besides its input context: its configuration, and the
/// names of the LLM client and tool executor it is given (registered ones only).
#[derive(Debug)]
pub struct StagePlan {
    pub config: StageConfig,
    pub llm: Option<String>,
    pub tools: Option<String>,
}

/// The progress of a run.
#[derive(Debug)]
pub struct RunState {
    /// The stages in execution order.
    pub order: Vec<String>,
    /// The position of the retry target in `order`, if it has one.
    pub retry_from_idx: Option<usize>,
    /// The position of the next stage to run.
    pub current_idx: usize,
    /// The context the next stage gets.
    pub context: ContextBundle,
    /// The stages run so far, retries included.
    pub stages_executed: Vec<String>,
    /// Retry rounds so far.
    pub retries: usize,
    /// The tokens the stages run so far have used.
    pub usage: TokenUsage,
}

impl RunState {
    pub open spec fn wf(&self, max_retries: usize) -> bool {
        &&& self.current_idx <= self.order@.len()
        &&& self.retries <= max_retries
        &&& (self.retry_from_idx matches Some(i) ==> i < self.order@.len())
    }
}

/// What the runner asks for next.
#[derive(Debug)]
pub enum RunAction {
    /// Execute this stage, with this plan, on the state's context.
    Execute { stage: String, plan: StagePlan },
    /// Every stage has run: the run is done.
    Finish,
    /// The run stops with this error.
    Abort(SakamotoError),
}

/// The first position of `x` in `s`, if any.
pub open spec fn first_position(s: Seq<Seq<char>>, x: Seq<char>) -> Option<int> {
    if s.contains(x) {
        Some(crate::dag::index_in(s, x))
    } else {
        None
    }
}

/// How far a run is from its end: the retry rounds left, then the stages
/// left in the current round.
pub open spec fn remaining(s: RunState, max_retries: usize) -> (int, int) {
    (max_retries - s.retries, s.order@.len() - s.current_idx)
}

/// `after` is strictly closer to the end of the run than `before`, in the
/// lexicographic order of [`remaining`]: every run ends.
pub open spec fn progressed(before: RunState, after: RunState, max_retries: usize) -> bool {
    let (r0, k0) = remaining(before, max_retries);
    let (r1, k1) = remaining(after, max_retries);
    0 <= r1 < r0 || (r1 == r0 && 0 <= k1 < k0)
}

/// The text of the diagnostic a retry leaves: `retry {n}: {reason}`.
pub open spec fn retry_message(n: nat, reason: Seq<char>) -> Seq<char> {
    "retry "@ + decimal(n) + ": "@ + reason
}

/// Executes stages of a pipeline DAG in order, with retry support.
pub struct PipelineRunner {
    pub dag: PipelineDag,
    /// Names of the registered stage implementations.
    pub stages: StrMap<()>,
    pub stage_configs: StrMap<StageConfig>,
    /// Names of the registered LLM clients.
    pub llm_clients: StrMap<()>,
    /// Names of the registered tool executors.
    pub tool_executors: StrMap<()>,
    pub config: RunnerConfig,
}

impl PipelineRunner {
    /// Create a new runner for the given DAG.
    pub fn new(dag: PipelineDag, config: RunnerConfig) -> (r: PipelineRunner)
        ensures
            r.dag == dag,
            r.config == config,
            r.stages.as_map() == Map::<Seq<char>, ()>::empty(),
            r.stage_configs.as_map() == Map::<Seq<char>, StageConfig>::empty(),
            r.llm_clients.as_map() == Map::<Seq<char>, ()>::empty(),
            r.tool_executors.as_map() == Map::<Seq<char>, ()>::empty(),
    {
        let r = PipelineRunner {
            dag,
            stages: StrMap::new(),
            stage_configs: StrMap::new(),
            llm_clients: StrMap::new(),
            tool_executors: StrMap::new(),
            config,
        };
        proof {
            assert(r.stages.as_map() =~= Map::<Seq<char>, ()>::empty());
            assert(r.stage_configs.as_map() =~= Map::<Seq<char>, StageConfig>::empty());
            assert(r.llm_clients.as_map() =~= Map::<Seq<char>, ()>::empty());
            assert(r.tool_executors.as_map() =~= Map::<Seq<char>, ()>::empty());
        }
        r
    }

    /// Register a stage implementation under its name.
    pub fn add_stage(&mut self, name: String)
        ensures
            final(self).stages.as_map() == old(self).stages.as_map().insert(name@, ()),
            final(self).dag == old(self).dag,
            final(self).config == old(self).config,
            final(self).stage_configs == old(self).stage_configs,
            final(self).llm_clients == old(self).llm_clients,
            final(self).tool_executors == old(self).tool_executors,
    {
        let _ = self.stages.insert(name, ());
    }

    /// Register a stage configuration.
    pub fn add_stage_config(&mut self, name: String, config: StageConfig)
        ensures
            final(self).stage_configs.as_map() == old(self).stage_configs.as_map().insert(name@, config),
            final(self).dag == old(self).dag,
            final(self).config == old(self).config,
            final(self).stages == old(self).stages,
            final(self).llm_clients == old(self).llm_clients,
            final(self).tool_executors == old(self).tool_executors,
    {
        let _ = self.stage_configs.insert(name, config);
    }

    /// Register an LLM client under a name.
    pub fn add_llm_client(&mut self, name: String)
        ensures
            final(self).llm_clients.as_map() == old(self).llm_clients.as_map().insert(name@, ()),
            final(self).dag == old(self).dag,
            final(self).config == old(self).config,
            final(self).stages == old(self).stages,
            final(self).stage_configs == old(self).stage_configs,
            final(self).tool_executors == old(self).tool_executors,
    {
        let _ = self.llm_clients.insert(name, ());
    }

    /// Register a tool executor under a name.
    pub fn add_tool_executor(&mut self, name: String)
        ensures
            final(self).tool_executors.as_map() == old(self).tool_executors.as_map().insert(name@, ()),
            final(self).dag == old(self).dag,
            final(self).config == old(self).config,
            final(self).stages == old(self).stages,
            final(self).stage_configs == old(self).stage_configs,
            final(self).llm_clients == old(self).llm_clients,
    {
        let _ = self.tool_executors.insert(name, ());
    }

    /// `p` is the plan of the stage `name`: its registered configuration (or
    /// the default one for its name), and the LLM client and tool executor
    /// that the configuration names, when they are registered.
    pub open spec fn is_plan(&self, name: Seq<char>, p: StagePlan) -> bool {
        &&& self.stage_configs.as_map().dom().contains(name) ==> p.config == self.stage_configs.as_map()[name]
        &&& !self.stage_configs.as_map().dom().contains(name) ==> crate::stage::is_default_config(p.config, name)
        &&& p.llm == (match p.config.llm_backend {
            Some(n) => if self.llm_clients.as_map().dom().contains(n@) {
                Some(n)
            } else {
                None
            },
            None => None,
        })
        &&& p.tools == (match p.config.toolset {
            Some(n) => if self.tool_executors.as_map().dom().contains(n@) {
                Some(n)
            } else {
                None
            },
            None => None,
        })
    }

    /// The plan of a stage: its registered configuration (or the default one
    /// for its name), and the LLM client and tool executor that the
    /// configuration names, when they are registered.
    pub fn build_stage_context(&self, stage_name: &str) -> (p: StagePlan)
        ensures
            self.is_plan(stage_name@, p),
    {
        let config = match self.stage_configs.get(stage_name) {
            Some(c) => {
                proof {
                    crate::dag::lemma_index_in(self.stage_configs.keys(), stage_name@);
                }
                c.duplicate()
            },
            None => StageConfig::with_defaults(stage_name),
        };
        let llm = match &config.llm_backend {
            Some(n) => if self.llm_clients.contains_key(n.as_str()) {
                Some(n.clone())
            } else {
                None
            },
            None => None,
        };
        let tools = match &config.toolset {
            Some(n) => if self.tool_executors.contains_key(n.as_str()) {
                Some(n.clone())
            } else {
                None
            },
            None => None,
        };
        StagePlan { config, llm, tools }
    }

    /// Start a run: the stages in the DAG's topological order (its execution
    /// levels one after the other), and the position of the retry target.
    /// Fails with `CyclicGraph` when the DAG has a cycle.
    pub fn start(&self, initial_context: ContextBundle) -> (r: Result<RunState, SakamotoError>)
        ensures
            r is Ok <==> self.dag.acyclic(),
            r matches Err(e) ==> e is CyclicGraph,
            r matches Ok(s) ==> {
                &&& s.wf(self.config.max_retries)
                &&& s.current_idx == 0
                &&& s.retries == 0
                &&& s.context == initial_context
                &&& s.stages_executed@ == Seq::<String>::empty()
                &&& s.usage.input_tokens == 0 && s.usage.output_tokens == 0
                &&& self.dag.is_run_order(views(s.order@))
                &&& self.dag.is_topological_order(views(s.order@))
                &&& s.retry_from_idx == (match self.config.retry_from {
                    Some(name) => match first_position(views(s.order@), name@) {
                        Some(i) => Some(i as usize),
                        None => None,
                    },
                    None => None,
                })
            },
    {
        let order = match self.dag.topological_order() {
            Ok(o) => o,
            Err(e) => {
                return Err(e);
            },
        };
        let retry_from_idx = match &self.config.retry_from {
            Some(name) => position_of(&order, name.as_str()),
            None => None,
        };
        Ok(RunState {
            order,
            retry_from_idx,
            current_idx: 0,
            context: initial_context,
            stages_executed: Vec::new(),
            retries: 0,
            usage: TokenUsage::default(),
        })
    }

    /// What to do in a given state: finish when every stage has run, fail
    /// with `StageNotFound` when the next stage has no implementation, and
    /// otherwise execute the next stage with its plan.
    pub fn next_action(&self, state: &RunState) -> (a: RunAction)
        requires
            state.wf(self.config.max_retries),
        ensures
            state.current_idx == state.order@.len() ==> a is Finish,
            state.current_idx < state.order@.len() ==> {
                let name = state.order@[state.current_idx as int];
                if self.stages.as_map().dom().contains(name@) {
                    a matches RunAction::Execute { stage, plan } && stage@ == name@ && self.is_plan(name@, plan)
                } else {
                    a matches RunAction::Abort(e) && e matches SakamotoError::StageNotFound(n) && n@ == name@
                }
            },
    {
        if state.current_idx >= state.order.len() {
            return RunAction::Finish;
        }
        let name = &state.order[state.current_idx];
        if !self.stages.contains_key(name.as_str()) {
            return RunAction::Abort(SakamotoError::StageNotFound(name.clone()));
        }
        let plan = self.build_stage_context(name.as_str());
        RunAction::Execute { stage: name.clone(), plan }
    }

    /// Take the output of the stage at the current position, and the tokens
    /// it used, which are added to the run's usage:
    /// - `Continue` moves on with the new context;
    /// - `Retry` fails with `ValidationExhausted` once `max_retries` rounds
    ///   were used, and otherwise records a warning diagnostic
    ///   `retry {n}: {reason}` on the retry context and jumps back to the
    ///   retry target (or the start);
    /// - `Fail` stops with its error;
    /// - `Fork` stops with a `StageFailure` ("Fork not yet supported").
    pub fn record(&self, state: RunState, output: StageOutput, usage: &TokenUsage) -> (r: Result<RunState, SakamotoError>)
        requires
            state.wf(self.config.max_retries),
            state.current_idx < state.order@.len(),
            state.usage.input_tokens + usage.input_tokens <= u64::MAX,
            state.usage.output_tokens + usage.output_tokens <= u64::MAX,
        ensures
            ({
                let name = state.order@[state.current_idx as int];
                match output {
                    StageOutput::Continue(c) => r matches Ok(s) && s.context == c
                        && s.current_idx == state.current_idx + 1 && s.retries == state.retries,
                    StageOutput::Retry { context, reason } => if state.retries >= self.config.max_retries {
                        r matches Err(e) && e matches SakamotoError::ValidationExhausted { rounds, reason: why }
                            && rounds == state.retries && why@ == reason@
                    } else {
                        r matches Ok(s) && s.retries == state.retries + 1
                            && s.current_idx == (match state.retry_from_idx {
                                Some(i) => i,
                                None => 0,
                            })
                            && s.context@ == (crate::context::BundleView {
                                diagnostics: context@.diagnostics.push(s.context.diagnostics@.last()),
                                ..context@
                            })
                            && s.context.diagnostics@.last().severity == Severity::Warning
                            && s.context.diagnostics@.last().stage == name
                            && s.context.diagnostics@.last().message@ == retry_message(
                                state.retries as nat + 1,
                                reason@,
                            )
                    },
                    StageOutput::Fail(e) => r == Err::<RunState, SakamotoError>(e),
                    StageOutput::Fork(_) => r matches Err(e) && e matches SakamotoError::StageFailure {
                        stage,
                        reason,
                    } && stage@ == name@ && reason@ == "Fork not yet supported"@,
                }
            }),
            r matches Ok(s) ==> {
                &&& s.wf(self.config.max_retries)
                &&& s.order == state.order
                &&& s.retry_from_idx == state.retry_from_idx
                &&& s.stages_executed@ == state.stages_executed@.push(state.order@[state.current_idx as int])
                &&& s.usage.input_tokens == state.usage.input_tokens + usage.input_tokens
                &&& s.usage.output_tokens == state.usage.output_tokens + usage.output_tokens
                &&& progressed(state, s, self.config.max_retries)
            },
    {
        let RunState { order, retry_from_idx, current_idx, context: _, stages_executed, retries, usage: spent } = state;
        let mut spent = spent;
        spent.accumulate(usage);
        let n = order.len();
        let name = order[current_idx].clone();
        let mut stages_executed = stages_executed;
        stages_executed.push(name.clone());
        match output {
            StageOutput::Continue(new_context) => Ok(RunState {
                order,
                retry_from_idx,
                current_idx: current_idx + 1,
                context: new_context,
                stages_executed,
                retries,
                usage: spent,
            }),
            StageOutput::Retry { context: retry_context, reason } => {
                if retries >= self.config.max_retries {
                    return Err(SakamotoError::ValidationExhausted { rounds: retries, reason });
                }
                let mut msg = chars_of("retry ");
                let n = decimal_chars((retries + 1) as u64);
                extend_chars(&mut msg, n.as_slice());
                extend_str(&mut msg, ": ");
                extend_str(&mut msg, reason.as_str());
                let message = string_of(msg.as_slice());
                proof {
                    reveal_strlit("retry ");
                    reveal_strlit(": ");
                }
                let mut context = retry_context;
                let ghost before = context;
                context.diagnostics.push(
                    Diagnostic { severity: Severity::Warning, stage: name, message },
                );
                let idx = match retry_from_idx {
                    Some(i) => i,
                    None => 0,
                };
                Ok(RunState {
                    order,
                    retry_from_idx,
                    current_idx: idx,
                    context,
                    stages_executed,
                    retries: retries + 1,
                    usage: spent,
                })
            },
            StageOutput::Fail(err) => Err(err),
            StageOutput::Fork(_) => Err(
                SakamotoError::StageFailure { stage: name, reason: string_of(chars_of("Fork not yet supported").as_slice()) },
            ),
        }
    }

    /// The result of a finished run.
    pub fn finish(state: RunState) -> (r: RunResult)
        ensures
            r.context == state.context,
            r.stages_executed == state.stages_executed,
            r.retries == state.retries,
            r.token_usage == state.usage,
    {
        RunResult {
            context: state.context,
            token_usage: state.usage,
            stages_executed: state.stages_executed,
            retries: state.retries,
        }
    }
}

/// The first position of a name among the given ones.
fn position_of(order: &Vec<String>, name: &str) -> (r: Option<usize>)
    ensures
        r == (match first_position(views(order@), name@) {
            Some(i) => Some(i as usize),
            None => None,
        }),
        r matches Some(i) ==> i < order@.len(),
{
    proof {
        crate::dag::lemma_index_in(views(order@), name@);
    }
    let mut i: usize = 0;
    while i < order.len()
        invariant
            i <= order@.len(),
            forall|j: int| 0 <= j < i ==> views(order@)[j] != name@,
        decreases order@.len() - i,
    {
        if crate::text::str_eq(order[i].as_str(), name) {
            proof {
                crate::dag::lemma_index_in(views(order@), name@);
                assert(views(order@)[i as int] == name@);
                let x = crate::dag::index_in(views(order@), name@);
                if x < i {
                    assert(views(order@)[x] == name@);
                }
            }
            return Some(i);
        }
        i = i + 1;
    }
    proof {
        if views(order@).contains(name@) {
            let j = choose|j: int| 0 <= j < views(order@).len() && views(order@)[j] == name@;
            assert(views(order@)[j] == name@);
        }
    }
    None
}

} // verus!
