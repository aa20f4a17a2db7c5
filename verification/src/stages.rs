//! The built-in pipeline stages (context, code, and the command stages lint,
//! test, commit and pr), and how a local pipeline is put together from a
//! project's configuration: which stage runs under a name, and with which
//! configuration.
use vstd::prelude::*;

use crate::config::{PipelineConfig, ProjectConfig, StageOverride, ValidationConfig};
use crate::context::{ref_views, ContextBundle};
use crate::error::{Diagnostic, SakamotoError, Severity};
use crate::json::{json_str, json_string};
use crate::llm::TokenUsage;
use crate::parser::{all_refs, parse_all};
use crate::react::ReactResult;
use crate::runner::RunnerConfig;
use crate::stage::{InteractionPolicy, StageConfig, StageOutput};
use crate::text::{
    chars_of, decimal, extend_chars, extend_str, i64_to_chars, join, join_strings, lines, signed_decimal,
    split_lines, string_of, to_owned_string, views,
};

verus! {

// ---------------------------------------------------------------------------
// context
// ---------------------------------------------------------------------------

/// Context pre-hydration: the references of the task description are added
/// to the bundle.
#[derive(Debug, Clone, Copy)]
pub struct ContextStage;

impl ContextStage {
    pub fn name(&self) -> (s: &'static str)
        ensures
            s@ == "context"@,
    {
        "context"
    }

    /// The stage's work: the references found in the task description are
    /// appended to the bundle's references.
    pub fn execute(&self, context: ContextBundle) -> (r: StageOutput)
        ensures
            r matches StageOutput::Continue(c) && c@ == (crate::context::BundleView {
                refs: context@.refs + all_refs(context.task_description@),
                ..context@
            }),
    {
        let mut context = context;
        let mut refs = parse_all(context.task_description.as_str());
        let ghost before = context@;
        let ghost found = ref_views(refs@);
        context.refs.append(&mut refs);
        proof {
            assert(context@.refs =~= before.refs + found);
        }
        StageOutput::Continue(context)
    }
}

// ---------------------------------------------------------------------------
// command stages
// ---------------------------------------------------------------------------

/// A stage that runs its configured shell command: lint and test ask for a
/// retry when the command fails, commit and pr fail the pipeline.
#[derive(Debug, Clone)]
pub struct CommandStage {
    pub stage_name: String,
    pub retriable: bool,
}

/// What a failed command's output gives: its stdout, then its stderr on a
/// new line when there is any.
pub open spec fn combined_output(stdout: Seq<char>, stderr: Seq<char>) -> Seq<char> {
    if stderr.len() == 0 {
        stdout
    } else {
        stdout + "\n"@ + stderr
    }
}

/// The first five lines of a text, joined by newlines.
pub open spec fn head_lines(text: Seq<char>) -> Seq<char> {
    let ls = lines(text);
    join(if ls.len() > 5 { ls.take(5) } else { ls }, "\n"@)
}

impl CommandStage {
    /// The lint stage (retries on failure).
    pub fn lint() -> (s: CommandStage)
        ensures
            s.stage_name@ == "lint"@,
            s.retriable,
    {
        CommandStage { stage_name: to_owned_string("lint"), retriable: true }
    }

    /// The test stage (retries on failure).
    pub fn test() -> (s: CommandStage)
        ensures
            s.stage_name@ == "test"@,
            s.retriable,
    {
        CommandStage { stage_name: to_owned_string("test"), retriable: true }
    }

    /// The commit stage (fails the pipeline on failure).
    pub fn commit() -> (s: CommandStage)
        ensures
            s.stage_name@ == "commit"@,
            !s.retriable,
    {
        CommandStage { stage_name: to_owned_string("commit"), retriable: false }
    }

    /// The pr stage (fails the pipeline on failure).
    pub fn pr() -> (s: CommandStage)
        ensures
            s.stage_name@ == "pr"@,
            !s.retriable,
    {
        CommandStage { stage_name: to_owned_string("pr"), retriable: false }
    }

    pub fn name(&self) -> (s: &str)
        ensures
            s@ == self.stage_name@,
    {
        self.stage_name.as_str()
    }

    /// The command to run: the configured one, or a `StageFailure` ("no
    /// command configured").
    pub fn command(&self, config: &StageConfig) -> (r: Result<String, SakamotoError>)
        ensures
            config.command matches Some(c) ==> r == Ok::<String, SakamotoError>(c),
            config.command is None ==> (r matches Err(e) && e matches SakamotoError::StageFailure {
                stage,
                reason,
            } && stage@ == self.stage_name@ && reason@ == "no command configured"@),
    {
        match &config.command {
            Some(c) => Ok(c.clone()),
            None => Err(
                SakamotoError::StageFailure {
                    stage: self.stage_name.clone(),
                    reason: to_owned_string("no command configured"),
                },
            ),
        }
    }

    /// Where the command runs: the bundle's `working_dir` metadata when it
    /// is a string, `.` otherwise.
    pub fn working_dir(context: &ContextBundle) -> (d: String)
        ensures
            d@ == (if context.metadata.as_map().dom().contains("working_dir"@) && json_str(
                context.metadata.as_map()["working_dir"@],
            ) is Some {
                json_str(context.metadata.as_map()["working_dir"@])->Some_0
            } else {
                "."@
            }),
    {
        proof {
            reveal_strlit("working_dir");
        }
        match context.metadata.get("working_dir") {
            Some(v) => {
                proof {
                    crate::dag::lemma_index_in(context.metadata.keys(), "working_dir"@);
                }
                match crate::json::json_as_string(v) {
                    Some(s) => s,
                    None => to_owned_string("."),
                }
            },
            None => to_owned_string("."),
        }
    }

    /// What the command's result makes of the stage: on success the bundle
    /// continues (with `{name}_stdout` set to the output when there is any);
    /// on failure an error diagnostic with the output is recorded and the
    /// stage asks for a retry (`{name} failed (exit {code}): {first lines}`)
    /// when it is retriable, and fails the pipeline otherwise.
    pub fn finish(&self, context: ContextBundle, success: bool, stdout: &str, stderr: &str, code: Option<i32>) -> (r:
        StageOutput)
        ensures
            success && stdout@.len() == 0 ==> r == StageOutput::Continue(context),
            success && stdout@.len() > 0 ==> (r matches StageOutput::Continue(c) && c@ == (crate::context::BundleView {
                metadata: context@.metadata.insert(self.stage_name@ + "_stdout"@, c@.metadata[self.stage_name@ + "_stdout"@]),
                ..context@
            }) && json_str(c@.metadata[self.stage_name@ + "_stdout"@]) == Some(stdout@)),
            !success ==> ({
                let combined = combined_output(stdout@, stderr@);
                let diag_pushed = |c: ContextBundle| c@ == (crate::context::BundleView {
                    diagnostics: context@.diagnostics.push(c.diagnostics@.last()),
                    ..context@
                }) && c.diagnostics@.last().severity == Severity::Error && c.diagnostics@.last().stage
                    == self.stage_name && c.diagnostics@.last().message@ == combined;
                if self.retriable {
                    r matches StageOutput::Retry { context: c, reason } && diag_pushed(c) && reason@
                        == self.stage_name@ + " failed (exit "@ + signed_decimal(match code {
                        Some(x) => x as int,
                        None => -1,
                    }) + "): "@ + head_lines(combined)
                } else {
                    r matches StageOutput::Fail(e) && e matches SakamotoError::StageFailure { stage, reason }
                        && stage@ == self.stage_name@ && reason@ == combined
                }
            }),
    {
        let mut context = context;
        if success {
            if stdout.is_empty() {
                return StageOutput::Continue(context);
            }
            let mut key = chars_of(self.stage_name.as_str());
            extend_str(&mut key, "_stdout");
            let v = json_string(to_owned_string(stdout));
            let _ = context.metadata.insert(string_of(key.as_slice()), v);
            return StageOutput::Continue(context);
        }
        let mut combined = chars_of(stdout);
        if !stderr.is_empty() {
            extend_str(&mut combined, "\n");
            extend_str(&mut combined, stderr);
        }
        proof {
            reveal_strlit("\n");
            if stderr@.len() == 0 {
                assert(combined@ =~= stdout@);
            }
        }
        let message = string_of(combined.as_slice());
        let ghost before = context@;
        context.diagnostics.push(
            Diagnostic { severity: Severity::Error, stage: self.stage_name.clone(), message: message.clone() },
        );
        if self.retriable {
            let c: i64 = match code {
                Some(x) => x as i64,
                None => -1,
            };
            let mut reason = chars_of(self.stage_name.as_str());
            extend_str(&mut reason, " failed (exit ");
            let d = i64_to_chars(c);
            extend_chars(&mut reason, d.as_slice());
            extend_str(&mut reason, "): ");
            let ls = split_lines(combined.as_slice());
            let mut head: Vec<String> = Vec::new();
            let mut i: usize = 0;
            let ghost lv = lines(combined@);
            while i < ls.len() && i < 5
                invariant
                    i <= ls@.len(),
                    i <= 5,
                    ls@.len() == lv.len(),
                    forall|k: int| 0 <= k < ls@.len() ==> #[trigger] ls@[k]@ == lv[k],
                    views(head@) == lv.take(i as int),
                decreases ls@.len() - i,
            {
                let line = string_of(ls[i].as_slice());
                proof {
                    assert(line@ == lv[i as int]);
                    assert(lv.take(i + 1) =~= lv.take(i as int).push(lv[i as int]));
                    assert(views(head@.push(line)) =~= views(head@).push(line@));
                }
                head.push(line);
                i = i + 1;
            }
            proof {
                if lv.len() <= 5 {
                    assert(lv.take(i as int) =~= lv);
                }
            }
            let h = join_strings(&head, "\n");
            extend_str(&mut reason, h.as_str());
            proof {
                assert(context@ == (crate::context::BundleView {
                    diagnostics: before.diagnostics.push(context.diagnostics@.last()),
                    ..before
                }));
            }
            StageOutput::Retry { context, reason: string_of(reason.as_slice()) }
        } else {
            StageOutput::Fail(SakamotoError::StageFailure { stage: self.stage_name.clone(), reason: message })
        }
    }
}

// ---------------------------------------------------------------------------
// code
// ---------------------------------------------------------------------------

/// The ReAct coding stage.
#[derive(Debug, Clone, Copy)]
pub struct CodeStage;

/// The lines of the prompt that list earlier diagnostics.
pub open spec fn diagnostic_lines(ds: Seq<Diagnostic>) -> Seq<char>
    decreases ds.len(),
{
    if ds.len() == 0 {
        Seq::empty()
    } else {
        diagnostic_lines(ds.drop_last()) + "- "@ + ds.last().spec_display() + "\n"@
    }
}

/// The user message the code stage starts with: the task, the plan when
/// there is one, and the issues to fix when there are diagnostics.
pub open spec fn code_prompt(c: ContextBundle) -> Seq<char> {
    let task = "Task: "@ + c.task_description@ + "\n"@;
    let plan = match c.plan {
        Some(p) => "\nPlan:\n"@ + p@ + "\n"@,
        None => Seq::empty(),
    };
    let issues = if c.diagnostics@.len() > 0 {
        "\nPrevious issues to fix:\n"@ + diagnostic_lines(c.diagnostics@)
    } else {
        Seq::empty()
    };
    task + plan + issues
}

proof fn lemma_diagnostic_lines_concat(ds: Seq<Diagnostic>)
    ensures
        diagnostic_lines(ds) == crate::dag::concat(
            ds.map_values(|d: Diagnostic| "- "@ + d.spec_display() + "\n"@),
        ),
    decreases ds.len(),
{
    let f = |d: Diagnostic| "- "@ + d.spec_display() + "\n"@;
    if ds.len() > 0 {
        lemma_diagnostic_lines_concat(ds.drop_last());
        assert(ds.map_values(f).drop_last() =~= ds.drop_last().map_values(f));
        assert(ds.map_values(f).last() == f(ds.last()));
    } else {
        assert(ds.map_values(f) =~= Seq::<Seq<char>>::empty());
    }
}

/// The code stage's prompt for a bundle is `Task: {task}`, then the plan
/// under `Plan:` when there is one (the prompt for a bundle `bare` with the
/// same task and plan and no diagnostics), then, when the bundle has
/// diagnostics, `Previous issues to fix:` and one line `- {d}` for each
/// diagnostic `d`, in order: a retried code stage sees every issue that
/// sent it back.
pub proof fn lemma_code_prompt_lists_issues(c: ContextBundle, bare: ContextBundle)
    requires
        bare.task_description@ == c.task_description@,
        bare.plan == c.plan,
        bare.diagnostics@.len() == 0,
    ensures
        code_prompt(bare) == "Task: "@ + c.task_description@ + "\n"@ + (match c.plan {
            Some(p) => "\nPlan:\n"@ + p@ + "\n"@,
            None => Seq::empty(),
        }),
        c.diagnostics@.len() == 0 ==> code_prompt(c) == code_prompt(bare),
        c.diagnostics@.len() > 0 ==> code_prompt(c) == code_prompt(bare) + "\nPrevious issues to fix:\n"@
            + crate::dag::concat(c.diagnostics@.map_values(|d: Diagnostic| "- "@ + d.spec_display() + "\n"@)),
{
    lemma_diagnostic_lines_concat(c.diagnostics@);
    assert(code_prompt(bare) =~= code_prompt(bare) + Seq::<char>::empty());
}

/// The system prompt the code stage uses when its configuration has none.
pub open spec fn default_code_prompt() -> Seq<char> {
    "You are a coding agent. Use the available tools to complete the task. When done, respond with a summary of changes made."@
}

impl CodeStage {
    pub fn name(&self) -> (s: &'static str)
        ensures
            s@ == "code"@,
    {
        "code"
    }

    /// The failure when the stage has no LLM client.
    pub fn missing_llm() -> (e: SakamotoError)
        ensures
            e matches SakamotoError::StageFailure { stage, reason } && stage@ == "code"@ && reason@
                == "no LLM client configured"@,
    {
        SakamotoError::StageFailure { stage: to_owned_string("code"), reason: to_owned_string("no LLM client configured") }
    }

    /// The failure when the stage has no tool executor.
    pub fn missing_tools() -> (e: SakamotoError)
        ensures
            e matches SakamotoError::StageFailure { stage, reason } && stage@ == "code"@ && reason@
                == "no tool executor configured"@,
    {
        SakamotoError::StageFailure {
            stage: to_owned_string("code"),
            reason: to_owned_string("no tool executor configured"),
        }
    }

    /// The user message the stage starts the loop with.
    pub fn prompt(context: &ContextBundle) -> (p: String)
        ensures
            p@ == code_prompt(*context),
    {
        let mut v = chars_of("Task: ");
        extend_str(&mut v, context.task_description.as_str());
        extend_str(&mut v, "\n");
        match &context.plan {
            Some(p) => {
                extend_str(&mut v, "\nPlan:\n");
                extend_str(&mut v, p.as_str());
                extend_str(&mut v, "\n");
            },
            None => {},
        }
        let ghost head = v@;
        if context.diagnostics.len() > 0 {
            extend_str(&mut v, "\nPrevious issues to fix:\n");
            let ghost start = v@;
            let mut i: usize = 0;
            while i < context.diagnostics.len()
                invariant
                    i <= context.diagnostics@.len(),
                    v@ == start + diagnostic_lines(context.diagnostics@.take(i as int)),
                decreases context.diagnostics@.len() - i,
            {
                proof {
                    assert(context.diagnostics@.take(i + 1).drop_last() =~= context.diagnostics@.take(i as int));
                }
                extend_str(&mut v, "- ");
                let d = context.diagnostics[i].display();
                extend_str(&mut v, d.as_str());
                extend_str(&mut v, "\n");
                proof {
                    assert(v@ =~= start + diagnostic_lines(context.diagnostics@.take(i + 1)));
                }
                i = i + 1;
            }
            proof {
                assert(context.diagnostics@.take(context.diagnostics@.len() as int) =~= context.diagnostics@);
            }
        }
        proof {
            reveal_strlit("\n");
            assert(v@ =~= code_prompt(*context));
        }
        string_of(v.as_slice())
    }

    /// The system prompt: the configured one, or the built-in one.
    pub fn system_prompt(config: &StageConfig) -> (p: String)
        ensures
            p@ == (match config.system_prompt {
                Some(s) => s@,
                None => default_code_prompt(),
            }),
    {
        match &config.system_prompt {
            Some(s) => s.clone(),
            None => to_owned_string(
                "You are a coding agent. Use the available tools to complete the task. When done, respond with a summary of changes made.",
            ),
        }
    }

    /// What the loop's result makes of the stage: the final text is stored
    /// under `code_result` and the bundle continues, and the tokens the loop
    /// used are handed on; an error fails the stage (with no usage known).
    pub fn finish(context: ContextBundle, result: Result<ReactResult, SakamotoError>) -> (r: (StageOutput, TokenUsage))
        ensures
            match result {
                Ok(res) => r.0 matches StageOutput::Continue(c) && c@ == (crate::context::BundleView {
                    metadata: context@.metadata.insert("code_result"@, c@.metadata["code_result"@]),
                    ..context@
                }) && json_str(c@.metadata["code_result"@]) == Some(res.final_text@) && r.1 == res.token_usage,
                Err(e) => r.0 == StageOutput::Fail(e) && r.1.input_tokens == 0 && r.1.output_tokens == 0,
            },
    {
        match result {
            Ok(res) => {
                let ReactResult { final_text, messages: _, token_usage, iterations: _ } = res;
                let mut context = context;
                let v = json_string(final_text);
                let _ = context.metadata.insert(to_owned_string("code_result"), v);
                (StageOutput::Continue(context), token_usage)
            },
            Err(e) => (StageOutput::Fail(e), TokenUsage::default()),
        }
    }
}

// ---------------------------------------------------------------------------
// local pipelines
// ---------------------------------------------------------------------------

/// The stage that runs under a name.
#[derive(Debug, Clone)]
pub enum BuiltStage {
    Context(ContextStage),
    Code(CodeStage),
    Command(CommandStage),
}

/// The stage for a name: context, code, lint, test, commit and pr are the
/// built-in stages; any other name runs the code stage.
pub fn build_stage(name: &str) -> (s: BuiltStage)
    ensures
        name@ == "context"@ ==> s is Context,
        name@ == "lint"@ ==> (s matches BuiltStage::Command(c) && c.stage_name@ == "lint"@ && c.retriable),
        name@ == "test"@ ==> (s matches BuiltStage::Command(c) && c.stage_name@ == "test"@ && c.retriable),
        name@ == "commit"@ ==> (s matches BuiltStage::Command(c) && c.stage_name@ == "commit"@ && !c.retriable),
        name@ == "pr"@ ==> (s matches BuiltStage::Command(c) && c.stage_name@ == "pr"@ && !c.retriable),
        !(name@ == "context"@ || name@ == "lint"@ || name@ == "test"@ || name@ == "commit"@ || name@ == "pr"@)
            ==> s is Code,
{
    proof {
        reveal_strlit("context");
        reveal_strlit("lint");
        reveal_strlit("test");
        reveal_strlit("commit");
        reveal_strlit("pr");
        assert("lint"@[0] != "test"@[0]);
        assert("context"@.len() == 7 && "commit"@.len() == 6 && "pr"@.len() == 2);
        assert("lint"@.len() == 4 && "test"@.len() == 4);
    }
    if crate::text::str_eq(name, "context") {
        BuiltStage::Context(ContextStage)
    } else if crate::text::str_eq(name, "lint") {
        BuiltStage::Command(CommandStage::lint())
    } else if crate::text::str_eq(name, "test") {
        BuiltStage::Command(CommandStage::test())
    } else if crate::text::str_eq(name, "commit") {
        BuiltStage::Command(CommandStage::commit())
    } else if crate::text::str_eq(name, "pr") {
        BuiltStage::Command(CommandStage::pr())
    } else {
        BuiltStage::Code(CodeStage)
    }
}

fn opt_copy(o: &Option<String>) -> (r: Option<String>)
    ensures
        r == *o,
{
    match o {
        Some(s) => Some(s.clone()),
        None => None,
    }
}

/// The configuration of a stage of a pipeline: the defaults under the
/// stage's name, then the pipeline's overrides for the stage, then (for
/// lint and test without a command) the project's validation commands.
pub fn build_stage_config(stage_name: &str, pipeline: &PipelineConfig, validation: &Option<ValidationConfig>) -> (c:
    StageConfig)
    ensures
        c.name@ == stage_name@,
        c.kind.kind_view() == crate::stage::KindView::Custom(Seq::empty()),
        c.timeout_secs is None,
        c.system_prompt is None,
        c.max_retries == 2,
        ({
            let o = if pipeline.stage_overrides.as_map().dom().contains(stage_name@) {
                Some(pipeline.stage_overrides.as_map()[stage_name@])
            } else {
                None::<StageOverride>
            };
            let cmd0 = match o {
                Some(ov) => ov.command,
                None => None,
            };
            &&& c.llm_backend == (match o {
                Some(ov) => ov.llm_backend,
                None => None,
            })
            &&& c.toolset == (match o {
                Some(ov) => ov.toolset,
                None => None,
            })
            &&& c.interaction == (match o {
                Some(ov) => match ov.interaction {
                    Some(i) => i,
                    None => InteractionPolicy::Autonomous,
                },
                None => InteractionPolicy::Autonomous,
            })
            &&& c.max_iterations == (match o {
                Some(ov) => match ov.max_iterations {
                    Some(m) => m,
                    None => 20,
                },
                None => 20,
            })
            &&& c.command == (if cmd0 is None && validation is Some {
                if stage_name@ == "lint"@ {
                    Some(validation->Some_0.lint_command)
                } else if stage_name@ == "test"@ {
                    validation->Some_0.test_command
                } else {
                    None
                }
            } else {
                cmd0
            })
        }),
{
    let mut config = StageConfig::with_defaults(stage_name);
    proof {
        reveal_strlit("lint");
        reveal_strlit("test");
    }
    match pipeline.stage_overrides.get(stage_name) {
        Some(ov) => {
            proof {
                crate::dag::lemma_index_in(pipeline.stage_overrides.keys(), stage_name@);
            }
            config.llm_backend = opt_copy(&ov.llm_backend);
            config.toolset = opt_copy(&ov.toolset);
            match ov.interaction {
                Some(i) => {
                    config.interaction = i;
                },
                None => {},
            }
            match ov.max_iterations {
                Some(m) => {
                    config.max_iterations = m;
                },
                None => {},
            }
            match &ov.command {
                Some(c) => {
                    config.command = Some(c.clone());
                },
                None => {},
            }
        },
        None => {},
    }
    if config.command.is_none() {
        match validation {
            Some(v) => {
                if crate::text::str_eq(stage_name, "lint") {
                    config.command = Some(v.lint_command.clone());
                } else if crate::text::str_eq(stage_name, "test") {
                    config.command = opt_copy(&v.test_command);
                }
            },
            None => {},
        }
    }
    config
}

/// The pipeline of a project with a name: a `ConfigError` when the project
/// has none of that name.
pub fn find_pipeline<'a>(config: &'a ProjectConfig, pipeline_name: &str) -> (r: Result<&'a PipelineConfig, SakamotoError>)
    ensures
        config.pipelines.as_map().dom().contains(pipeline_name@) ==> (r matches Ok(p) && *p
            == config.pipelines.as_map()[pipeline_name@]),
        !config.pipelines.as_map().dom().contains(pipeline_name@) ==> (r matches Err(e)
            && e matches SakamotoError::ConfigError(m) && m@ == "pipeline '"@ + pipeline_name@ + "' not found"@),
{
    match config.pipelines.get(pipeline_name) {
        Some(p) => {
            proof {
                crate::dag::lemma_index_in(config.pipelines.keys(), pipeline_name@);
            }
            Ok(p)
        },
        None => {
            let mut m = chars_of("pipeline '");
            extend_str(&mut m, pipeline_name);
            extend_str(&mut m, "' not found");
            Err(SakamotoError::ConfigError(string_of(m.as_slice())))
        },
    }
}

/// How a local pipeline retries: up to its CI rounds, from the code stage.
pub fn pipeline_runner_config(pipeline: &PipelineConfig) -> (c: RunnerConfig)
    ensures
        c.max_retries == pipeline.max_ci_rounds,
        c.retry_from matches Some(s) && s@ == "code"@,
{
    RunnerConfig { max_retries: pipeline.max_ci_rounds, retry_from: Some(to_owned_string("code")) }
}

/// The bundle a local run starts with: the task, and the working directory
/// under the metadata key `working_dir`.
pub fn initial_context(task: &str, working_dir: &str) -> (c: ContextBundle)
    ensures
        c@ == (crate::context::BundleView {
            metadata: Map::<Seq<char>, serde_json::Value>::empty().insert("working_dir"@, c@.metadata["working_dir"@]),
            ..crate::context::task_bundle(task@)
        }),
        json_str(c@.metadata["working_dir"@]) == Some(working_dir@),
{
    let mut c = ContextBundle::from_task(task);
    let v = json_string(to_owned_string(working_dir));
    let _ = c.metadata.insert(to_owned_string("working_dir"), v);
    c
}

} // verus!
