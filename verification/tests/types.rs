use sakamoto::context::{ContextBundle, ContextRef};
use sakamoto::error::{Diagnostic, SakamotoError, Severity};
use sakamoto::fetcher::GitHubFetcher;
use sakamoto::llm::{ContentBlock, LlmResponse, MessageContent, TokenUsage, ToolCall, ToolDef, ToolResult};
use sakamoto::mcp::prefixed_tool_name;
use sakamoto::pipeline::{Emitted, Executed, Hydrated, Pending, Pipeline, PipelineOutput, Planned, Validated};
use sakamoto::stage::{InteractionPolicy, StageConfig, StageKind, StageOutput};

#[test]
fn context_ref_display() {
    let file_ref = ContextRef::FilePath { path: String::from("src/main.rs") };
    assert_eq!(file_ref.display(), "file:src/main.rs");

    let issue_ref = ContextRef::GitHubIssue {
        owner: "Industrial-Algebra".into(),
        repo: "Sakamoto".into(),
        number: 42,
    };
    assert_eq!(issue_ref.display(), "issue:Industrial-Algebra/Sakamoto#42");
}

#[test]
fn context_ref_display_other_kinds() {
    let pr = ContextRef::GitHubPr { owner: "o".into(), repo: "r".into(), number: 7 };
    assert_eq!(pr.display(), "pr:o/r#7");
    assert_eq!(ContextRef::Url { url: "https://x.y".into() }.display(), "url:https://x.y");
    assert_eq!(ContextRef::Crate { name: "serde".into() }.display(), "crate:serde");
    assert_eq!(ContextRef::Symbol { name: "Foo".into() }.display(), "symbol:Foo");
}

#[test]
fn diagnostic_displays_correctly() {
    let diag = Diagnostic {
        severity: Severity::Warning,
        stage: "lint".into(),
        message: "unused import on line 42".into(),
    };
    assert_eq!(diag.display(), "[warning] lint: unused import on line 42");
}

#[test]
fn stage_failure_displays_correctly() {
    let err = SakamotoError::StageFailure {
        stage: "code".into(),
        reason: "LLM returned empty response".into(),
    };
    assert_eq!(err.message(), "stage `code` failed: LLM returned empty response");
}

#[test]
fn max_iterations_displays_correctly() {
    let err = SakamotoError::MaxIterationsExceeded { stage: "code".into(), max: 20 };
    assert_eq!(err.message(), "stage `code` exceeded max iterations (20)");
}

#[test]
fn error_messages_of_the_other_variants() {
    assert_eq!(SakamotoError::CyclicGraph.message(), "pipeline graph contains a cycle");
    assert_eq!(SakamotoError::StageNotFound("x".into()).message(), "stage `x` not found in pipeline");
    assert_eq!(SakamotoError::ToolsetNotFound("t".into()).message(), "toolset `t` not found");
    assert_eq!(SakamotoError::ConfigError("bad".into()).message(), "config error: bad");
    assert_eq!(SakamotoError::ContextError("gone".into()).message(), "context error: gone");
    assert_eq!(
        SakamotoError::ValidationExhausted { rounds: 3, reason: "lint".into() }.message(),
        "validation failed after 3 round(s): lint"
    );
    assert_eq!(
        SakamotoError::ToolCallFailed { tool: "shell".into(), reason: "boom".into() }.message(),
        "tool `shell` failed: boom"
    );
    assert_eq!(
        SakamotoError::McpError { server: "s".into(), reason: "r".into() }.message(),
        "MCP error (s): r"
    );
    assert_eq!(
        SakamotoError::LlmError { backend: "b".into(), reason: "r".into() }.message(),
        "LLM error (b): r"
    );
}

#[test]
fn tool_result_success_and_error() {
    let ok = ToolResult::success("tc_1", "file contents");
    assert!(!ok.is_error);
    assert_eq!(ok.content, "file contents");

    let err = ToolResult::error("tc_2", "file not found");
    assert!(err.is_error);
}

#[test]
fn interaction_policy_default_is_autonomous() {
    assert_eq!(InteractionPolicy::default(), InteractionPolicy::Autonomous);
}

#[test]
fn stage_kind_displays() {
    assert_eq!(StageKind::Code.display(), "code");
    assert_eq!(StageKind::Custom("deploy".into()).display(), "custom:deploy");
}

#[test]
fn stage_kind_equality() {
    assert_eq!(StageKind::Lint, StageKind::Lint);
    assert_ne!(StageKind::Lint, StageKind::Test);
    assert_eq!(StageKind::Custom("a".into()), StageKind::Custom("a".into()));
    assert_ne!(StageKind::Custom("a".into()), StageKind::Custom("b".into()));
}

#[test]
fn github_fetcher_can_fetch_issues_and_prs() {
    let fetcher = GitHubFetcher::new();

    assert!(fetcher.can_fetch(&ContextRef::GitHubIssue { owner: "o".into(), repo: "r".into(), number: 1 }));

    assert!(fetcher.can_fetch(&ContextRef::GitHubPr { owner: "o".into(), repo: "r".into(), number: 1 }));

    assert!(!fetcher.can_fetch(&ContextRef::FilePath { path: String::from("foo") }));
}

#[test]
fn tool_def_name_prefixing_logic() {
    // The name-prefixing logic that McpTool::new uses.
    let server_name = "myserver";
    let tool_name = "read_file";
    let prefixed = prefixed_tool_name(server_name, tool_name);

    assert_eq!(prefixed, "myserver_read_file");
}

#[test]
fn context_bundle_from_task() {
    let bundle = ContextBundle::from_task("fix clippy warnings");
    assert_eq!(bundle.task_description, "fix clippy warnings");
    assert!(bundle.refs.is_empty());
    assert!(bundle.entries.is_empty());
}

#[test]
fn context_bundle_merge_concatenates() {
    let mut a = ContextBundle::from_task("task a");
    a.refs.push(ContextRef::Symbol { name: "Foo".into() });
    a.modified_files.push(String::from("a.rs"));

    let mut b = ContextBundle::from_task("task b");
    b.refs.push(ContextRef::Symbol { name: "Bar".into() });
    b.modified_files.push(String::from("b.rs"));
    b.plan = Some("do the thing".into());

    a.merge(b);
    assert_eq!(a.refs.len(), 2);
    assert_eq!(a.modified_files.len(), 2);
    assert_eq!(a.plan.as_deref(), Some("do the thing"));
}

#[test]
fn context_bundle_merge_preserves_existing_plan() {
    let mut a = ContextBundle::from_task("task a");
    a.plan = Some("plan a".into());

    let mut b = ContextBundle::from_task("task b");
    b.plan = Some("plan b".into());

    a.merge(b);
    assert_eq!(a.plan.as_deref(), Some("plan a"));
}

#[test]
fn context_bundle_combine_is_associative() {
    let a = ContextBundle::from_task("a");
    let mut b = ContextBundle::from_task("b");
    b.refs.push(ContextRef::Symbol { name: "X".into() });
    let mut c = ContextBundle::from_task("c");
    c.refs.push(ContextRef::Symbol { name: "Y".into() });

    let ab_c = a.clone().combine(b.clone()).combine(c.clone());
    let a_bc = a.combine(b.combine(c));

    assert_eq!(ab_c.refs.len(), a_bc.refs.len());
    assert_eq!(ab_c.refs, a_bc.refs);
    assert_eq!(ab_c.task_description, a_bc.task_description);
}

#[test]
fn context_bundle_default_is_empty() {
    let bundle = ContextBundle::default();
    assert!(bundle.task_description.is_empty());
    assert!(bundle.refs.is_empty());
    assert!(bundle.entries.is_empty());
    assert!(bundle.plan.is_none());
    assert!(bundle.modified_files.is_empty());
    assert!(bundle.diagnostics.is_empty());
    assert!(bundle.metadata.is_empty());
}

#[test]
fn context_bundle_default_is_right_identity() {
    let mut a = ContextBundle::from_task("a");
    a.refs.push(ContextRef::Symbol { name: "X".into() });
    a.plan = Some("p".into());
    let merged = a.clone().combine(ContextBundle::default());
    assert_eq!(merged.task_description, "a");
    assert_eq!(merged.refs, a.refs);
    assert_eq!(merged.plan, a.plan);
}

#[test]
fn context_bundle_metadata_merge_does_not_overwrite() {
    let mut a = ContextBundle::from_task("a");
    a.metadata.insert("key".into(), serde_json::Value::from("from_a"));

    let mut b = ContextBundle::from_task("b");
    b.metadata.insert("key".into(), serde_json::Value::from("from_b"));
    b.metadata.insert("other".into(), serde_json::Value::from("only_b"));

    a.merge(b);
    assert_eq!(a.metadata.get("key"), Some(&serde_json::Value::from("from_a")));
    assert_eq!(a.metadata.get("other"), Some(&serde_json::Value::from("only_b")));
}

#[test]
fn stage_output_continue_maps() {
    let ctx = ContextBundle::default();
    let output = StageOutput::Continue(ctx);
    let mapped = output.map(|mut c| {
        c.task_description = "modified".into();
        c
    });
    assert!(mapped.is_continue());
    match mapped {
        StageOutput::Continue(c) => assert_eq!(c.task_description, "modified"),
        _ => panic!("expected Continue"),
    }
}

#[test]
fn stage_output_fail_passes_through_map() {
    let output = StageOutput::Fail(SakamotoError::CyclicGraph);
    let mapped = output.map(|c| c);
    assert!(mapped.is_fail());
}

#[test]
fn stage_output_and_then_chains() {
    let ctx = ContextBundle::default();
    let output = StageOutput::Continue(ctx);
    let chained = output.and_then(|mut c| {
        c.task_description = "chained".into();
        StageOutput::Continue(c)
    });
    assert!(chained.is_continue());
}

#[test]
fn stage_output_and_then_short_circuits_on_fail() {
    let output = StageOutput::Fail(SakamotoError::CyclicGraph);
    let chained = output.and_then(|_| panic!("should not be called"));
    assert!(chained.is_fail());
}

#[test]
fn stage_output_into_context() {
    let mut ctx = ContextBundle::default();
    ctx.task_description = "test task".into();
    let output = StageOutput::Continue(ctx);
    let extracted = output.into_context().expect("should be Some");
    assert_eq!(extracted.task_description, "test task");
}

#[test]
fn stage_output_into_context_returns_none_on_fail() {
    let output = StageOutput::Fail(SakamotoError::CyclicGraph);
    assert!(output.into_context().is_none());
}

#[test]
fn stage_output_fork_detected() {
    let output = StageOutput::Fork(vec![ContextBundle::default()]);
    assert!(output.is_fork());
    assert!(!output.is_continue());
    assert!(!output.is_retry());
}

#[test]
fn stage_config_defaults() {
    let config = StageConfig::default();
    assert_eq!(config.interaction, InteractionPolicy::Autonomous);
    assert_eq!(config.max_iterations, 20);
    assert_eq!(config.max_retries, 2);
    assert!(config.command.is_none());
    assert_eq!(sakamoto::stage::default_max_iterations(), 20);
    assert_eq!(sakamoto::stage::default_max_retries(), 2);
}

#[test]
fn message_content_text_extracts() {
    let content = MessageContent::Text("hello".into());
    assert_eq!(content.as_text(), "hello");
}

#[test]
fn message_content_blocks_extracts_text_only() {
    let content = MessageContent::Blocks(vec![
        ContentBlock::Text { text: "line 1".into() },
        ContentBlock::ToolUse {
            id: "tc_1".into(),
            name: "read".into(),
            input: serde_json::Value::Null,
        },
        ContentBlock::Text { text: "line 2".into() },
    ]);
    assert_eq!(content.as_text(), "line 1\nline 2");
}

#[test]
fn llm_response_variant_checks() {
    let tool_resp = LlmResponse::ToolCalls(vec![ToolCall {
        id: "tc_1".into(),
        name: "read".into(),
        input: serde_json::Value::Null,
    }]);
    assert!(tool_resp.is_tool_calls());
    assert!(!tool_resp.is_final());

    let final_resp = LlmResponse::Final("done".into());
    assert!(final_resp.is_final());
    assert!(!final_resp.is_tool_calls());
}

#[test]
fn llm_response_into_tool_calls() {
    let resp = LlmResponse::ToolCalls(vec![ToolCall {
        id: "tc_1".into(),
        name: "read".into(),
        input: serde_json::Value::Null,
    }]);
    let calls = resp.into_tool_calls().unwrap();
    assert_eq!(calls.len(), 1);
    assert_eq!(calls[0].name, "read");

    let final_resp = LlmResponse::Final("done".into());
    assert!(final_resp.into_tool_calls().is_none());
}

#[test]
fn token_usage_accumulates() {
    let mut a = TokenUsage { input_tokens: 100, output_tokens: 50 };
    let b = TokenUsage { input_tokens: 200, output_tokens: 100 };
    a.accumulate(&b);
    assert_eq!(a.input_tokens, 300);
    assert_eq!(a.output_tokens, 150);
    assert_eq!(a.total(), 450);
}

#[test]
fn pipeline_starts_in_pending() {
    let stages = vec![StageConfig {
        name: "lint".into(),
        kind: StageKind::Lint,
        llm_backend: None,
        toolset: None,
        interaction: InteractionPolicy::default(),
        max_iterations: 20,
        max_retries: 2,
        timeout_secs: None,
        command: Some("cargo clippy".into()),
        system_prompt: None,
    }];
    let p = Pipeline::<Pending>::new("fix clippy", stages);
    assert_eq!(p.task(), "fix clippy");
    assert_eq!(p.stages.len(), 1);
    let h: Pipeline<Hydrated> = p.advance(ContextBundle::from_task("fix clippy"));
    assert_eq!(h.stages[0].name, "lint");
}

#[test]
fn pipeline_accumulates_diagnostics_and_usage() {
    let mut pending = Pipeline::<Pending>::new("task", vec![]);
    pending.add_diagnostic(Diagnostic {
        severity: Severity::Info,
        stage: "context".into(),
        message: "found 3 references".into(),
    });
    pending.add_usage(&TokenUsage { input_tokens: 100, output_tokens: 50 });
    pending.add_usage(&TokenUsage { input_tokens: 200, output_tokens: 100 });
    assert_eq!(pending.diagnostics.len(), 1);
    assert_eq!(pending.token_usage.total(), 450);
    let hydrated: Pipeline<Hydrated> = pending.advance(ContextBundle::from_task("task"));
    assert_eq!(hydrated.diagnostics.len(), 1);
    let _ = PipelineOutput::NoOutput;
}

#[test]
fn io_error_converts() {
    let io_err = std::io::Error::new(std::io::ErrorKind::NotFound, "file not found");
    let err: SakamotoError = io_err.into();
    assert!(matches!(err, SakamotoError::Io(_)));
    assert!(err.message().contains("file not found"));
}

fn sample_stages() -> Vec<StageConfig> {
    vec![StageConfig {
        name: "lint".into(),
        kind: StageKind::Lint,
        llm_backend: None,
        toolset: None,
        interaction: InteractionPolicy::default(),
        max_iterations: 20,
        max_retries: 2,
        timeout_secs: None,
        command: Some("cargo clippy".into()),
        system_prompt: None,
    }]
}

#[test]
fn pipeline_advances_through_states() {
    let pending = Pipeline::<Pending>::new("task", vec![]);
    let hydrated: Pipeline<Hydrated> = pending.advance(ContextBundle::from_task("task"));
    assert_eq!(hydrated.task(), "task");
    let planned: Pipeline<Planned> = hydrated.advance(ContextBundle::from_task("task"));
    let executed: Pipeline<Executed> = planned.advance(ContextBundle::from_task("task"));
    let validated: Pipeline<Validated> = executed.advance(ContextBundle::from_task("task"));
    let _emitted: Pipeline<Emitted> = validated.advance(ContextBundle::from_task("task"));
}

#[test]
fn pipeline_preserves_stages_across_transitions() {
    let pending = Pipeline::<Pending>::new("task", sample_stages());
    let hydrated: Pipeline<Hydrated> = pending.advance(ContextBundle::from_task("task"));
    assert_eq!(hydrated.stages.len(), 1);
    assert_eq!(hydrated.stages[0].name, "lint");
}

#[test]
fn pipeline_accumulates_diagnostics() {
    let mut pending = Pipeline::<Pending>::new("task", vec![]);
    pending.add_diagnostic(Diagnostic {
        severity: Severity::Info,
        stage: "context".into(),
        message: "found 3 references".into(),
    });
    assert_eq!(pending.diagnostics.len(), 1);
    let hydrated: Pipeline<Hydrated> = pending.advance(ContextBundle::from_task("task"));
    assert_eq!(hydrated.diagnostics.len(), 1);
}

#[test]
fn pipeline_accumulates_token_usage() {
    let mut pending = Pipeline::<Pending>::new("task", vec![]);
    pending.add_usage(&TokenUsage { input_tokens: 100, output_tokens: 50 });
    pending.add_usage(&TokenUsage { input_tokens: 200, output_tokens: 100 });
    assert_eq!(pending.token_usage.total(), 450);
}

#[test]
fn tool_def_from_parts() {
    let def = ToolDef {
        name: "server_tool".into(),
        description: "A remote tool".into(),
        input_schema: serde_json::from_str("{\"type\": \"object\"}").unwrap(),
    };
    assert_eq!(def.name, "server_tool");
}
