use sakamoto::cli::{builtin_tool, check_report, mcp_plan, provider_plan, run_report, BuiltinTool, McpPlan, ProviderPlan};
use sakamoto::config::{
    merge_configs, LlmConfig, McpServerConfig, McpTransport, OutputConfig, OutputFormat, PipelineConfig, ProjectConfig,
    ProjectMeta, StageOverride, ToolsetConfig, UserConfig, ValidationConfig,
};
use sakamoto::context::{ContextBundle, ContextRef};
use sakamoto::dag::PipelineDag;
use sakamoto::error::{SakamotoError, Severity};
use sakamoto::fetcher::{add_fetched, first_able, DirItem, FilesystemFetcher, GhRun, GitHubFetcher};
use sakamoto::llm::{ContentBlock, LlmResponse, Message, MessageContent, Role, TokenUsage, ToolCall, ToolDef};
use sakamoto::mcp::{tool_call_output, McpContent, McpTool, McpToolInfo};
use sakamoto::parser::gather_refs;
use sakamoto::providers::{convert_content, AnthropicBackend, OaiReplyMessage, OaiResponse, OaiToolCall, OpenAiCompatBackend};
use sakamoto::react::{ReactLoop, ReactStep};
use sakamoto::runner::{PipelineRunner, RunAction, RunnerConfig};
use sakamoto::stage::{StageConfig, StageOutput};
use sakamoto::stages::{build_stage, build_stage_config, initial_context, BuiltStage, CodeStage, CommandStage, ContextStage};
use sakamoto::strmap::StrMap;

fn names(v: &[&str]) -> Vec<String> {
    v.iter().map(|s| s.to_string()).collect()
}

fn runner_for(stages: &[&str], config: RunnerConfig) -> PipelineRunner {
    let dag = PipelineDag::from_linear(&names(stages)).unwrap();
    let mut runner = PipelineRunner::new(dag, config);
    for s in stages {
        runner.add_stage(s.to_string());
    }
    runner
}

#[test]
fn run_linear_all_continue() {
    let runner = runner_for(&["a", "b", "c"], RunnerConfig::default());
    let mut state = runner.start(ContextBundle::from_task("test")).unwrap();
    loop {
        match runner.next_action(&state) {
            RunAction::Finish => break,
            RunAction::Abort(e) => panic!("{e:?}"),
            RunAction::Execute { stage, .. } => {
                // Each stage sets its metadata flag on the context it is given.
                let mut ctx = state.context.clone();
                ctx.metadata.insert(stage.clone(), serde_json::Value::Bool(true));
                state = runner.record(state, StageOutput::Continue(ctx), &TokenUsage::default()).unwrap();
            }
        }
    }
    let result = PipelineRunner::finish(state);
    assert_eq!(result.stages_executed, vec!["a", "b", "c"]);
    assert_eq!(result.retries, 0);
    assert_eq!(result.context.metadata.get("a"), Some(&serde_json::Value::Bool(true)));
    assert_eq!(result.context.metadata.get("b"), Some(&serde_json::Value::Bool(true)));
    assert_eq!(result.context.metadata.get("c"), Some(&serde_json::Value::Bool(true)));
}

#[test]
fn run_retry_then_succeed_and_diagnostics() {
    let runner = runner_for(&["code", "lint"], RunnerConfig { max_retries: 3, retry_from: Some("code".into()) });
    let mut state = runner.start(ContextBundle::from_task("fix clippy")).unwrap();
    let mut lint_calls = 0;
    loop {
        match runner.next_action(&state) {
            RunAction::Finish => break,
            RunAction::Abort(e) => panic!("{e:?}"),
            RunAction::Execute { stage, .. } => {
                let ctx = state.context.clone();
                let out = if stage == "lint" && lint_calls == 0 {
                    lint_calls += 1;
                    StageOutput::Retry { context: ctx, reason: "attempt 1".into() }
                } else {
                    StageOutput::Continue(ctx)
                };
                state = runner.record(state, out, &TokenUsage::default()).unwrap();
            }
        }
    }
    let result = PipelineRunner::finish(state);
    assert_eq!(result.retries, 1);
    assert_eq!(result.stages_executed, vec!["code", "lint", "code", "lint"]);
    assert_eq!(result.context.diagnostics.len(), 1);
    assert_eq!(result.context.diagnostics[0].stage, "lint");
    assert_eq!(result.context.diagnostics[0].message, "retry 1: attempt 1");
    assert_eq!(result.context.diagnostics[0].severity, Severity::Warning);
}

#[test]
fn run_retry_exhausted() {
    let runner = runner_for(&["code", "lint"], RunnerConfig { max_retries: 2, retry_from: Some("code".into()) });
    let mut state = runner.start(ContextBundle::from_task("fix clippy")).unwrap();
    let (mut code_calls, mut lint_calls) = (0, 0);
    let err = loop {
        match runner.next_action(&state) {
            RunAction::Finish => panic!("should not finish"),
            RunAction::Abort(e) => break e,
            RunAction::Execute { stage, .. } => {
                let ctx = state.context.clone();
                // Lint always retries; its k-th call gives "attempt k".
                let out = if stage == "lint" {
                    lint_calls += 1;
                    StageOutput::Retry { context: ctx, reason: format!("attempt {lint_calls}") }
                } else {
                    code_calls += 1;
                    StageOutput::Continue(ctx)
                };
                match runner.record(state, out, &TokenUsage::default()) {
                    Ok(s) => state = s,
                    Err(e) => break e,
                }
            }
        }
    };
    match err {
        SakamotoError::ValidationExhausted { rounds, reason } => {
            assert_eq!(rounds, 2);
            assert_eq!(reason, "attempt 3");
        }
        other => panic!("{other:?}"),
    }
    assert_eq!((code_calls, lint_calls), (3, 3));
}

#[test]
fn run_missing_stage_and_failures() {
    let dag = PipelineDag::from_linear(&names(&["a"])).unwrap();
    let runner = PipelineRunner::new(dag, RunnerConfig::default());
    let state = runner.start(ContextBundle::from_task("t")).unwrap();
    assert!(matches!(runner.next_action(&state), RunAction::Abort(SakamotoError::StageNotFound(_))));

    let runner = runner_for(&["a"], RunnerConfig::default());
    let state = runner.start(ContextBundle::from_task("t")).unwrap();
    let err = runner.record(state, StageOutput::Fork(vec![]), &TokenUsage::default()).unwrap_err();
    match err {
        SakamotoError::StageFailure { stage, reason } => {
            assert_eq!(stage, "a");
            assert_eq!(reason, "Fork not yet supported");
        }
        other => panic!("{other:?}"),
    }
}

#[test]
fn run_empty_pipeline() {
    let runner = PipelineRunner::new(PipelineDag::new(), RunnerConfig::default());
    let state = runner.start(ContextBundle::from_task("test")).unwrap();
    assert!(matches!(runner.next_action(&state), RunAction::Finish));
    let result = PipelineRunner::finish(state);
    assert!(result.stages_executed.is_empty());
}

#[test]
fn stage_context_uses_registered_clients_only() {
    let mut runner = runner_for(&["code"], RunnerConfig::default());
    let mut cfg = StageConfig::with_defaults("code");
    cfg.llm_backend = Some("main".into());
    cfg.toolset = Some("missing".into());
    runner.add_stage_config("code".into(), cfg);
    runner.add_llm_client("main".into());
    let plan = runner.build_stage_context("code");
    assert_eq!(plan.llm.as_deref(), Some("main"));
    assert!(plan.tools.is_none());
    let plan = runner.build_stage_context("other");
    assert_eq!(plan.config.name, "other");
    assert_eq!(plan.config.max_iterations, 20);
}

#[test]
fn react_tool_round_then_final() {
    let react = ReactLoop::new(5).with_system_prompt("be brief");
    assert_eq!(react.system_prompt.as_deref(), Some("be brief"));
    let state = react.begin(vec![Message { role: Role::User, content: MessageContent::Text("go".into()) }]);
    react.check_iteration(&state).unwrap();
    let calls = vec![ToolCall { id: "tc_1".into(), name: "echo".into(), input: serde_json::Value::Null }];
    let step = react.step(
        state,
        LlmResponse::ToolCalls(calls),
        &TokenUsage { input_tokens: 100, output_tokens: 50 },
    );
    let (state, calls) = match step {
        ReactStep::RunTools(s, c) => (s, c),
        ReactStep::Done(_) => panic!("expected tools"),
    };
    let state = react.after_tools(state, &calls, vec![Err(SakamotoError::ToolsetNotFound("echo".into()))]);
    assert_eq!(state.messages.len(), 3);
    assert_eq!(state.messages[1].role, Role::Assistant);
    match &state.messages[2].content {
        MessageContent::Blocks(b) => match &b[0] {
            ContentBlock::ToolResult { is_error, content, .. } => {
                assert!(*is_error);
                assert_eq!(content, "toolset `echo` not found");
            }
            _ => panic!("expected a tool result"),
        },
        _ => panic!("expected blocks"),
    }
    let step = react.step(state, LlmResponse::Final("done".into()), &TokenUsage { input_tokens: 100, output_tokens: 50 });
    match step {
        ReactStep::Done(r) => {
            assert_eq!(r.final_text, "done");
            assert_eq!(r.iterations, 2);
            assert_eq!(r.token_usage.input_tokens, 200);
            assert_eq!(r.messages.len(), 3);
        }
        ReactStep::RunTools(..) => panic!("expected done"),
    }
}

#[test]
fn react_max_iterations_exceeded() {
    // An LLM that asks for a tool on every round, with a limit of 3 rounds.
    let react = ReactLoop::new(3);
    let mut state = react.begin(vec![Message { role: Role::User, content: MessageContent::Text("task".into()) }]);
    let err = loop {
        if let Err(e) = react.check_iteration(&state) {
            break e;
        }
        let calls = vec![ToolCall {
            id: "call_inf".into(),
            name: "echo".into(),
            input: serde_json::from_str("{\"message\": \"loop\"}").unwrap(),
        }];
        let next = match react.step(state, LlmResponse::ToolCalls(calls), &TokenUsage::default()) {
            ReactStep::RunTools(s, c) => react.after_tools(s, &c, vec![Ok("echoed".into())]),
            ReactStep::Done(_) => panic!("the LLM never gives a final answer"),
        };
        state = next;
    };
    assert_eq!(state.iteration, 3);
    assert!(matches!(err, SakamotoError::MaxIterationsExceeded { max: 3, .. }));
}

#[test]
fn run_adds_up_token_usage_of_stages() {
    let runner = runner_for(&["a", "b"], RunnerConfig::default());
    let mut state = runner.start(ContextBundle::from_task("t")).unwrap();
    assert_eq!(state.usage.input_tokens, 0);
    let mut round = 0u64;
    loop {
        match runner.next_action(&state) {
            RunAction::Finish => break,
            RunAction::Abort(e) => panic!("{e:?}"),
            RunAction::Execute { .. } => {
                round += 1;
                let ctx = state.context.clone();
                let used = TokenUsage { input_tokens: 100 * round, output_tokens: 10 * round };
                state = runner.record(state, StageOutput::Continue(ctx), &used).unwrap();
            }
        }
    }
    let result = PipelineRunner::finish(state);
    assert_eq!(result.token_usage.input_tokens, 300);
    assert_eq!(result.token_usage.output_tokens, 30);
}

#[test]
fn code_stage_hands_on_token_usage() {
    let (out, usage) = CodeStage::finish(
        ContextBundle::from_task("t"),
        Ok(sakamoto::react::ReactResult {
            final_text: "done".into(),
            messages: vec![],
            token_usage: TokenUsage { input_tokens: 7, output_tokens: 3 },
            iterations: 1,
        }),
    );
    assert!(out.is_continue());
    assert_eq!((usage.input_tokens, usage.output_tokens), (7, 3));
    let (out, usage) = CodeStage::finish(ContextBundle::from_task("t"), Err(SakamotoError::CyclicGraph));
    assert!(out.is_fail());
    assert_eq!(usage.total(), 0);
}

#[test]
fn next_action_hands_out_the_stage_plan() {
    let mut runner = runner_for(&["code"], RunnerConfig::default());
    let mut cfg = StageConfig::with_defaults("code");
    cfg.llm_backend = Some("main".into());
    cfg.toolset = Some("tools".into());
    runner.add_stage_config("code".into(), cfg);
    runner.add_llm_client("main".into());
    runner.add_tool_executor("tools".into());
    let state = runner.start(ContextBundle::from_task("t")).unwrap();
    match runner.next_action(&state) {
        RunAction::Execute { stage, plan } => {
            assert_eq!(stage, "code");
            assert_eq!(plan.llm.as_deref(), Some("main"));
            assert_eq!(plan.tools.as_deref(), Some("tools"));
            assert_eq!(plan.config.name, "code");
        }
        _ => panic!("expected the code stage to run"),
    }
}

#[test]
fn filesystem_fetcher_decisions() {
    let f = FilesystemFetcher::new("/root/dir");
    assert_eq!(f.max_size, 1_000_000);
    let f = f.with_max_size(10);
    assert_eq!(f.resolve("a.rs"), "/root/dir/a.rs");
    assert_eq!(f.resolve("/abs/b.rs"), "/abs/b.rs");
    assert!(f.can_fetch(&ContextRef::FilePath { path: "x".into() }));
    assert!(!f.can_fetch(&ContextRef::Url { url: "x".into() }));
    let err = f.target(&ContextRef::Url { url: "u".into() }).unwrap_err();
    assert!(matches!(err, SakamotoError::ContextError(_)));
    let err = f.check_size("big.bin", 20).unwrap_err();
    match err {
        SakamotoError::ContextError(m) => assert_eq!(m, "file 'big.bin' is 20 bytes, exceeds max size of 10 bytes"),
        other => panic!("{other:?}"),
    }
    assert!(f.check_size("ok.bin", 10).is_ok());
}

#[test]
fn filesystem_fetcher_entries() {
    let f = FilesystemFetcher::new("/r");
    let r = ContextRef::FilePath { path: "src".into() };
    let entry = f.directory_entry(
        &r,
        vec![
            DirItem { name: "main.rs".into(), is_dir: false },
            DirItem { name: "sub".into(), is_dir: true },
            DirItem { name: "lib.rs".into(), is_dir: false },
        ],
    );
    assert_eq!(entry.content, "lib.rs\nmain.rs\nsub/");
    assert_eq!(entry.metadata.get("type"), Some(&"directory".to_string()));
    let r = ContextRef::FilePath { path: "hello.rs".into() };
    let entry = f.file_entry(&r, "hello.rs", "fn main() {}\n".into());
    assert_eq!(entry.metadata.get("type"), Some(&"file".to_string()));
    assert_eq!(entry.metadata.get("extension"), Some(&"rs".to_string()));
    assert_eq!(entry.metadata.get("lines"), Some(&"1".to_string()));
}

#[test]
fn github_fetcher_request_and_outcome() {
    let g = GitHubFetcher::new();
    let r = ContextRef::GitHubPr { owner: "o".into(), repo: "r".into(), number: 5 };
    let req = g.request(&r).unwrap();
    assert_eq!(req.args, vec!["pr", "view", "5", "--repo", "o/r", "--json", "title,body,state,labels,comments"]);
    let err = g
        .outcome(&r, &req, GhRun::Finished { success: false, stdout: String::new(), stderr: "nope".into() })
        .unwrap_err();
    match err {
        SakamotoError::ContextError(m) => assert_eq!(m, "`gh pr view` failed for o/r#5: nope"),
        other => panic!("{other:?}"),
    }
    let entry = g
        .outcome(
            &r,
            &req,
            GhRun::Finished { success: true, stdout: "{\"title\":\"T\",\"state\":\"OPEN\"}".into(), stderr: String::new() },
        )
        .unwrap();
    assert_eq!(entry.metadata.get("title"), Some(&"T".to_string()));
    assert_eq!(entry.metadata.get("state"), Some(&"OPEN".to_string()));
    assert_eq!(entry.metadata.get("number"), Some(&"5".to_string()));
    assert!(g.request(&ContextRef::Symbol { name: "x".into() }).is_err());
}

#[test]
fn hydration_gathers_unique_refs() {
    let mut bundle = ContextBundle::from_task("Fix src/main.rs and src/main.rs");
    bundle.refs.push(ContextRef::FilePath { path: "src/main.rs".into() });
    gather_refs(&mut bundle);
    assert_eq!(bundle.refs, vec![ContextRef::FilePath { path: "src/main.rs".into() }]);
}

#[test]
fn mcp_tool_definitions_and_output() {
    let info = McpToolInfo { name: "read_file".into(), description: None, input_schema: serde_json::Value::Null };
    let t = McpTool::new("myserver", &info);
    assert_eq!(t.definition.name, "myserver_read_file");
    assert_eq!(t.definition.description, "");
    assert_eq!(t.remote_name, "read_file");
    assert_eq!(McpTool::new_unprefixed(&info).definition.name, "read_file");
    let content = vec![
        McpContent::Text { text: "a".into() },
        McpContent::Image { mime_type: "image/png".into() },
        McpContent::Resource { uri: "file:///x".into(), text: None },
    ];
    assert_eq!(tool_call_output("s", "t", &content, false).unwrap(), "a\n[image: image/png]\n[resource: file:///x]");
    match tool_call_output("s", "t", &content[..1].to_vec(), true).unwrap_err() {
        SakamotoError::McpError { server, reason } => {
            assert_eq!(server, "s");
            assert_eq!(reason, "tool `t` returned error: a");
        }
        other => panic!("{other:?}"),
    }
}

#[test]
fn anthropic_build_request_basic() {
    let backend = AnthropicBackend::new("test-key", "sonnet-4-6", None, None, None);
    let messages = vec![
        Message { role: Role::System, content: MessageContent::Text("sys".into()) },
        Message { role: Role::User, content: MessageContent::Text("Hello".into()) },
    ];
    let request = backend.build_request(&messages, &[], Some("You are helpful"));
    assert_eq!(request.model, "sonnet-4-6");
    assert_eq!(request.max_tokens, 4096);
    assert_eq!(request.system.as_deref(), Some("You are helpful"));
    assert_eq!(request.messages.len(), 1);
    assert_eq!(request.messages[0].role, "user");
    assert!(request.tools.is_none());
    assert_eq!(backend.endpoint(), "https://api.anthropic.com/v1/messages");
    assert_eq!(backend.model_info().provider, "anthropic");
    let tools = vec![ToolDef { name: "read_file".into(), description: "d".into(), input_schema: serde_json::Value::Null }];
    let request = backend.build_request(&messages, &tools, None);
    assert_eq!(request.tools.as_ref().unwrap()[0].name, "read_file");
}

#[test]
fn anthropic_interprets_replies() {
    let (resp, usage) = AnthropicBackend::interpret(
        vec![ContentBlock::Text { text: "a".into() }, ContentBlock::Text { text: "b".into() }],
        100,
        50,
    );
    assert_eq!(usage.input_tokens, 100);
    assert!(matches!(resp, LlmResponse::Final(ref t) if t == "a\nb"));
    let (resp, _) = AnthropicBackend::interpret(
        vec![
            ContentBlock::Text { text: "thinking".into() },
            ContentBlock::ToolUse { id: "1".into(), name: "shell".into(), input: serde_json::Value::Null },
        ],
        1,
        1,
    );
    assert_eq!(resp.into_tool_calls().unwrap()[0].name, "shell");
}

#[test]
fn openai_requests_and_replies() {
    let backend = OpenAiCompatBackend::new(Some("sk-test".into()), "gpt-4o", None, Some(4096), None);
    assert_eq!(backend.model_info().provider, "openai");
    let messages = vec![Message { role: Role::User, content: MessageContent::Text("Hello".into()) }];
    let request = backend.build_request(&messages, &[], Some("Be helpful"));
    assert_eq!(request.messages.len(), 2);
    assert_eq!(request.messages[0].role, "system");
    assert_eq!(request.messages[1].role, "user");
    assert!(request.tools.is_none());
    let ollama = OpenAiCompatBackend::ollama("gemma3:27b");
    assert_eq!(ollama.model_info().provider, "ollama");
    assert!(ollama.api_key.is_none());
    assert_eq!(ollama.endpoint(), "http://localhost:11434/v1/chat/completions");
    let reply = OaiResponse {
        choices: vec![OaiReplyMessage {
            content: None,
            tool_calls: Some(vec![OaiToolCall {
                id: "call_123".into(),
                name: "read_file".into(),
                arguments: "{\"path\": \"src/main.rs\"}".into(),
            }]),
        }],
        usage: Some((20, 15)),
    };
    let (resp, usage) = backend.interpret(reply).unwrap();
    assert_eq!(usage.output_tokens, 15);
    let calls = resp.into_tool_calls().unwrap();
    assert_eq!(calls[0].input["path"], "src/main.rs");
    let err = backend.interpret(OaiResponse { choices: vec![], usage: None }).unwrap_err();
    assert!(matches!(err, SakamotoError::LlmError { .. }));
}

fn llm(provider: &str, key: Option<&str>) -> LlmConfig {
    LlmConfig {
        provider: provider.into(),
        model: "m".into(),
        api_key_env: key.map(|k| k.to_string()),
        base_url: None,
        max_tokens: None,
        temperature_bits: None,
    }
}

fn project(llm_map: StrMap<LlmConfig>, output: Option<OutputConfig>) -> ProjectConfig {
    ProjectConfig {
        project: ProjectMeta { name: "p".into(), description: None },
        llm: llm_map,
        toolsets: StrMap::new(),
        pipelines: StrMap::new(),
        validation: None,
        output,
        rules: None,
        mcp_servers: StrMap::new(),
    }
}

#[test]
fn merge_fills_gaps_and_keeps_project_values() {
    let mut user_llm = StrMap::new();
    user_llm.insert("default".into(), llm("anthropic", Some("KEY")));
    let mut user_tools = StrMap::new();
    user_tools.insert("default".into(), ToolsetConfig { mcp_servers: vec![], builtin: vec!["fs".into()] });
    let user = UserConfig {
        llm: user_llm,
        toolsets: user_tools,
        output: Some(OutputConfig { default: OutputFormat::Commit }),
        validation: Some(ValidationConfig { lint_command: "cargo clippy".into(), fmt_command: None, test_command: None }),
    };
    let merged = merge_configs(project(StrMap::new(), None), &user);
    assert_eq!(merged.llm.len(), 1);
    assert!(merged.llm.contains_key("default"));
    assert!(!merged.toolsets.is_empty());
    assert_eq!(merged.output.as_ref().unwrap().default, OutputFormat::Commit);

    let mut own = StrMap::new();
    own.insert("a".into(), llm("ollama", None));
    own.insert("b".into(), llm("openai", None));
    let merged = merge_configs(project(own, Some(OutputConfig { default: OutputFormat::Pr })), &user);
    assert_eq!(merged.llm.len(), 2);
    assert_eq!(merged.output.as_ref().unwrap().default, OutputFormat::Pr);
    assert_eq!(sakamoto::config::default_max_ci_rounds(), 2);
}

#[test]
fn provider_and_tool_choices() {
    assert!(matches!(provider_plan(&llm("anthropic", Some("K"))), Ok(ProviderPlan::Anthropic { .. })));
    assert_eq!(provider_plan(&llm("anthropic", None)).unwrap_err(), "anthropic backend requires api_key_env");
    assert!(matches!(provider_plan(&llm("ollama", None)), Ok(ProviderPlan::OpenAiCompat { key_env: None })));
    assert_eq!(provider_plan(&llm("gemini", None)).unwrap_err(), "unsupported LLM provider: gemini");
    assert_eq!(builtin_tool("shell"), Some(BuiltinTool::Shell));
    assert_eq!(builtin_tool("fs_write"), Some(BuiltinTool::FsWrite));
    assert_eq!(builtin_tool("git"), None);
    let server = McpServerConfig { transport: McpTransport::Stdio, command: None, args: vec![], env: StrMap::new() };
    assert!(matches!(mcp_plan(&server), McpPlan::MissingCommand));
    let server = McpServerConfig { transport: McpTransport::Http, command: Some("x".into()), args: vec![], env: StrMap::new() };
    assert!(matches!(mcp_plan(&server), McpPlan::Http));
}

#[test]
fn stage_building() {
    assert!(matches!(build_stage("context"), BuiltStage::Context(_)));
    assert!(matches!(build_stage("deploy"), BuiltStage::Code(_)));
    match build_stage("commit") {
        BuiltStage::Command(c) => {
            assert_eq!(c.stage_name, "commit");
            assert!(!c.retriable);
        }
        other => panic!("{other:?}"),
    }
    let mut overrides = StrMap::new();
    overrides.insert(
        "code".into(),
        StageOverride { llm_backend: Some("coding".into()), toolset: None, interaction: None, max_iterations: Some(30), command: None },
    );
    let pipeline = PipelineConfig { stages: names(&["code", "lint"]), max_ci_rounds: 2, interaction: None, stage_overrides: overrides };
    let validation = Some(ValidationConfig { lint_command: "cargo clippy".into(), fmt_command: None, test_command: Some("cargo test".into()) });
    let code = build_stage_config("code", &pipeline, &validation);
    assert_eq!(code.max_iterations, 30);
    assert_eq!(code.llm_backend.as_deref(), Some("coding"));
    let lint = build_stage_config("lint", &pipeline, &validation);
    assert_eq!(lint.command.as_deref(), Some("cargo clippy"));
    let test = build_stage_config("test", &pipeline, &validation);
    assert_eq!(test.command.as_deref(), Some("cargo test"));
}

#[test]
fn command_stage_outcomes() {
    let lint = CommandStage::lint();
    let out = lint.finish(ContextBundle::from_task("t"), true, "ok", "", Some(0));
    match out {
        StageOutput::Continue(c) => assert_eq!(c.metadata.get("lint_stdout"), Some(&serde_json::Value::from("ok"))),
        other => panic!("{other:?}"),
    }
    let out = lint.finish(ContextBundle::from_task("t"), false, "a\nb", "c", Some(1));
    match out {
        StageOutput::Retry { context, reason } => {
            assert_eq!(reason, "lint failed (exit 1): a\nb\nc");
            assert_eq!(context.diagnostics.len(), 1);
            assert_eq!(context.diagnostics[0].message, "a\nb\nc");
        }
        other => panic!("{other:?}"),
    }
    let out = CommandStage::commit().finish(ContextBundle::from_task("t"), false, "x", "", None);
    assert!(matches!(out, StageOutput::Fail(SakamotoError::StageFailure { .. })));
    let err = lint.command(&StageConfig::default()).unwrap_err();
    assert!(matches!(err, SakamotoError::StageFailure { .. }));
    let ctx = initial_context("task", "/tmp");
    assert_eq!(CommandStage::working_dir(&ctx), "/tmp");
    assert_eq!(CommandStage::working_dir(&ContextBundle::from_task("t")), ".");
}

#[test]
fn code_and_context_stages() {
    let mut ctx = ContextBundle::from_task("fix it");
    ctx.plan = Some("step".into());
    assert_eq!(CodeStage::prompt(&ctx), "Task: fix it\n\nPlan:\nstep\n");
    assert!(CodeStage::system_prompt(&StageConfig::default()).starts_with("You are a coding agent."));
    match ContextStage.execute(ContextBundle::from_task("Fix src/main.rs")) {
        StageOutput::Continue(c) => assert_eq!(c.refs, vec![ContextRef::FilePath { path: "src/main.rs".into() }]),
        other => panic!("{other:?}"),
    }
}

#[test]
fn run_report_lists_stages() {
    let runner = runner_for(&["a", "b"], RunnerConfig::default());
    let mut state = runner.start(ContextBundle::from_task("t")).unwrap();
    for _ in 0..2 {
        let ctx = state.context.clone();
        state = runner.record(state, StageOutput::Continue(ctx), &TokenUsage::default()).unwrap();
    }
    let report = run_report(&PipelineRunner::finish(state));
    assert_eq!(report, "\n\u{2500}\u{2500} Pipeline Complete \u{2500}\u{2500}\nStages: a \u{2192} b\n");
}

#[test]
fn check_report_lists_configuration() {
    let mut llm_map = StrMap::new();
    llm_map.insert(
        "default".into(),
        LlmConfig {
            provider: "anthropic".into(),
            model: "sonnet".into(),
            api_key_env: Some("KEY".into()),
            base_url: None,
            max_tokens: None,
            temperature_bits: None,
        },
    );
    llm_map.insert(
        "local".into(),
        LlmConfig {
            provider: "ollama".into(),
            model: "llama3".into(),
            api_key_env: None,
            base_url: None,
            max_tokens: None,
            temperature_bits: None,
        },
    );
    let mut config = project(llm_map, None);
    config.toolsets.insert("default".into(), ToolsetConfig { mcp_servers: vec![], builtin: vec!["shell".into(), "fs_read".into()] });
    config.pipelines.insert(
        "default".into(),
        PipelineConfig {
            stages: vec!["context".into(), "code".into()],
            max_ci_rounds: 2,
            interaction: None,
            stage_overrides: StrMap::new(),
        },
    );
    config.validation = Some(ValidationConfig { lint_command: "clippy".into(), fmt_command: None, test_command: Some("test".into()) });
    let report = check_report(&config, &vec![false, false], None);
    assert_eq!(
        report,
        "Project: p\n  LLM backends:\n    default: anthropic (sonnet) [key MISSING]\n    local: ollama (llama3) [no key needed]\n  Toolsets:\n    default: 2 builtin, 0 MCP servers\n  Pipelines:\n    default: 2 stages [context \u{2192} code]\n  Validation:\n    lint: clippy\n    test: test\n  User config: not found (optional)\n\nConfiguration is valid.\n"
    );
    let with_key = check_report(&config, &vec![true], Some("/home/u/.config/sakamoto/config.toml"));
    assert!(with_key.contains("[key set]"));
    assert!(with_key.contains("  User config: /home/u/.config/sakamoto/config.toml\n"));

    let empty = check_report(&project(StrMap::new(), None), &vec![], None);
    assert_eq!(
        empty,
        "Project: p\n  LLM backends: none configured\n  Toolsets: none configured\n  Pipelines: none configured\n  Validation: not configured\n  User config: not found (optional)\n\nConfiguration is valid.\n"
    );
}

#[test]
fn build_request_filters_system_messages() {
    let backend = AnthropicBackend::new("test-key", "sonnet-4-6", None, None, None);
    let messages = vec![
        Message { role: Role::System, content: MessageContent::Text("system prompt".into()) },
        Message { role: Role::User, content: MessageContent::Text("hello".into()) },
    ];
    let request = backend.build_request(&messages, &[], None);
    assert_eq!(request.messages.len(), 1);
    assert_eq!(request.messages[0].role, "user");
}

#[test]
fn build_request_with_temperature() {
    let backend = AnthropicBackend::new("test-key", "sonnet-4-6", None, Some(8192), Some(0.3f64.to_bits()));
    let request = backend.build_request(&[], &[], None);
    assert_eq!(request.max_tokens, 8192);
    assert!((f64::from_bits(request.temperature_bits.unwrap()) - 0.3).abs() < f64::EPSILON);
}

#[test]
fn model_info_correct() {
    let backend = AnthropicBackend::new("test-key", "opus-4-6", None, None, None);
    let info = backend.model_info();
    assert_eq!(info.provider, "anthropic");
    assert_eq!(info.model_id, "opus-4-6");
    assert!(info.supports_tool_use);
}

#[test]
fn convert_text_content() {
    let content = MessageContent::Text("hello".into());
    let blocks = convert_content(&content);
    assert_eq!(blocks.len(), 1);
    assert!(matches!(&blocks[0], ContentBlock::Text { text } if text == "hello"));
}

#[test]
fn build_request_with_tools() {
    let backend = AnthropicBackend::new("test-key", "sonnet-4-6", None, None, None);
    let tools = vec![ToolDef {
        name: "read_file".into(),
        description: "Read a file".into(),
        input_schema: serde_json::from_str(
            "{\"type\": \"object\", \"properties\": {\"path\": {\"type\": \"string\"}}, \"required\": [\"path\"]}",
        )
        .unwrap(),
    }];
    let request = backend.build_request(&[], &tools, None);
    assert!(request.tools.is_some());
    assert_eq!(request.tools.as_ref().unwrap().len(), 1);
    assert_eq!(request.tools.as_ref().unwrap()[0].name, "read_file");
}

#[test]
fn convert_mixed_content() {
    let content = MessageContent::Blocks(vec![
        ContentBlock::Text { text: "please read".into() },
        ContentBlock::ToolUse {
            id: "tc_1".into(),
            name: "read".into(),
            input: serde_json::from_str("{\"path\": \"foo.rs\"}").unwrap(),
        },
    ]);
    let blocks = convert_content(&content);
    assert_eq!(blocks.len(), 2);
}

#[test]
fn openai_compat_build_request_basic() {
    let backend = OpenAiCompatBackend::new(Some("sk-test".into()), "gpt-4o", None, Some(4096), None);
    let messages = vec![Message { role: Role::User, content: MessageContent::Text("Hello".into()) }];
    let request = backend.build_request(&messages, &[], Some("Be helpful"));
    assert_eq!(request.model, "gpt-4o");
    assert_eq!(request.messages.len(), 2);
    assert_eq!(request.messages[0].role, "system");
    assert_eq!(request.messages[1].role, "user");
    assert!(request.tools.is_none());
}

#[test]
fn ollama_shortcut() {
    let backend = OpenAiCompatBackend::ollama("gemma3:27b");
    assert_eq!(backend.info.provider, "ollama");
    assert_eq!(backend.model, "gemma3:27b");
    assert!(backend.api_key.is_none());
}

#[test]
fn model_info_detects_provider() {
    let openai = OpenAiCompatBackend::new(Some("key".into()), "gpt-4o", None, None, None);
    assert_eq!(openai.model_info().provider, "openai");
    let ollama = OpenAiCompatBackend::ollama("llama3");
    assert_eq!(ollama.model_info().provider, "ollama");
}

#[test]
fn engine_parses_refs() {
    let refs = sakamoto::parser::parse_all("Fix src/main.rs and owner/repo#42");
    assert!(!refs.is_empty());
}

fn model(provider: &str, model: &str, key: Option<&str>) -> LlmConfig {
    LlmConfig {
        provider: provider.into(),
        model: model.into(),
        api_key_env: key.map(|k| k.to_string()),
        base_url: None,
        max_tokens: None,
        temperature_bits: None,
    }
}

fn strings(v: &[&str]) -> Vec<String> {
    v.iter().map(|s| s.to_string()).collect()
}

/// `[project] name = "test-project"` and nothing else.
fn minimal_config() -> ProjectConfig {
    ProjectConfig {
        project: ProjectMeta { name: "test-project".into(), description: None },
        llm: StrMap::new(),
        toolsets: StrMap::new(),
        pipelines: StrMap::new(),
        validation: None,
        output: None,
        rules: None,
        mcp_servers: StrMap::new(),
    }
}

/// A project with three LLM backends, two toolsets, a pipeline, validation,
/// output `pr` and rules.
fn full_config() -> ProjectConfig {
    let mut llm = StrMap::new();
    llm.insert("planning".into(), model("anthropic", "opus-4-6", None));
    llm.insert("coding".into(), model("anthropic", "sonnet-4-6", None));
    llm.insert("review".into(), model("ollama", "gemma3:27b", None));
    let mut toolsets = StrMap::new();
    toolsets.insert(
        "default".into(),
        ToolsetConfig {
            mcp_servers: strings(&["filesystem", "github"]),
            builtin: strings(&["git", "fs", "shell", "lint", "test"]),
        },
    );
    toolsets.insert(
        "code-review".into(),
        ToolsetConfig { mcp_servers: strings(&["github", "sourcegraph"]), builtin: strings(&["git", "fs"]) },
    );
    let mut overrides = StrMap::new();
    overrides.insert(
        "code".into(),
        StageOverride {
            llm_backend: None,
            toolset: None,
            interaction: Some(sakamoto::stage::InteractionPolicy::Collaborate),
            max_iterations: Some(30),
            command: None,
        },
    );
    let mut pipelines = StrMap::new();
    pipelines.insert(
        "default".into(),
        PipelineConfig {
            stages: strings(&["context", "plan", "code", "lint", "test", "commit", "pr"]),
            max_ci_rounds: 2,
            interaction: None,
            stage_overrides: overrides,
        },
    );
    ProjectConfig {
        project: ProjectMeta { name: "my-app".into(), description: Some("A sample application".into()) },
        llm,
        toolsets,
        pipelines,
        validation: Some(ValidationConfig {
            lint_command: "cargo clippy --workspace -- -D warnings".into(),
            fmt_command: Some("cargo fmt --all --check".into()),
            test_command: Some("cargo test --workspace".into()),
        }),
        output: Some(OutputConfig { default: OutputFormat::Pr }),
        rules: Some(sakamoto::config::RulesConfig { paths: strings(&[".sakamoto/rules/*.md"]) }),
        mcp_servers: StrMap::new(),
    }
}

/// A user configuration with one LLM backend, a toolset, output `commit`
/// and validation commands.
fn user_config() -> UserConfig {
    let mut llm = StrMap::new();
    llm.insert("default".into(), model("anthropic", "sonnet-4-6", Some("ANTHROPIC_API_KEY")));
    let mut toolsets = StrMap::new();
    toolsets.insert(
        "default".into(),
        ToolsetConfig { mcp_servers: strings(&["filesystem"]), builtin: strings(&["git", "fs", "shell"]) },
    );
    UserConfig {
        llm,
        toolsets,
        output: Some(OutputConfig { default: OutputFormat::Commit }),
        validation: Some(ValidationConfig {
            lint_command: "cargo clippy".into(),
            fmt_command: Some("cargo fmt --check".into()),
            test_command: Some("cargo test".into()),
        }),
    }
}

#[test]
fn merge_fills_gaps() {
    let merged = merge_configs(minimal_config(), &user_config());
    assert_eq!(merged.llm.len(), 1);
    assert!(merged.llm.contains_key("default"));
    assert!(!merged.toolsets.is_empty());
    assert_eq!(merged.output.as_ref().unwrap().default, OutputFormat::Commit);
}

#[test]
fn merge_project_takes_precedence() {
    let merged = merge_configs(full_config(), &user_config());
    assert_eq!(merged.llm.len(), 3);
    assert_eq!(merged.output.as_ref().unwrap().default, OutputFormat::Pr);
}

#[test]
fn hydration_picks_first_able_fetcher_and_keeps_fetched_entries() {
    assert_eq!(first_able(&vec![false, true, true]), Some(1));
    assert_eq!(first_able(&vec![false, false]), None);
    assert_eq!(first_able(&vec![]), None);

    let fs = FilesystemFetcher::new("/w");
    let r1 = ContextRef::FilePath { path: "a.rs".into() };
    let r2 = ContextRef::FilePath { path: "b.rs".into() };
    let mut bundle = ContextBundle::from_task("t");
    bundle.refs = vec![r1.clone(), r2.clone(), ContextRef::Url { url: "https://x".into() }];
    let e1 = fs.file_entry(&r1, "a.rs", "A".into());
    add_fetched(
        &mut bundle,
        vec![Some(Ok(e1)), Some(Err(SakamotoError::ContextError("gone".into()))), None],
    );
    assert_eq!(bundle.entries.len(), 1);
    assert_eq!(bundle.entries[0].content, "A");
    assert_eq!(bundle.refs.len(), 3);
}

#[test]
fn filesystem_fetch_errors() {
    let msg = |e: SakamotoError| match e {
        SakamotoError::ContextError(m) => m,
        other => panic!("{other:?}"),
    };
    assert_eq!(msg(FilesystemFetcher::stat_error("x.rs", "No such file")), "cannot stat 'x.rs': No such file");
    assert_eq!(msg(FilesystemFetcher::read_dir_error("d", "denied")), "cannot read directory 'd': denied");
    assert_eq!(msg(FilesystemFetcher::dir_entry_error("bad")), "error reading directory entry: bad");
    assert_eq!(msg(FilesystemFetcher::read_error("x.rs", "invalid UTF-8")), "cannot read 'x.rs': invalid UTF-8");
}
