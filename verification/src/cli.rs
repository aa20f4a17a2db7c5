//! What the command line decides: which backend an LLM configuration asks
//! for, which built-in tool a name stands for, how an MCP server is reached,
//! and the reports `run` and `check` print.
use vstd::prelude::*;

use crate::config::{LlmConfig, McpServerConfig, McpTransport, PipelineConfig, ProjectConfig, ToolsetConfig, ValidationConfig};
use crate::error::{Diagnostic, Severity};
use crate::runner::RunResult;
use crate::text::{chars_of, decimal, decimal_chars, extend_chars, extend_str, join, string_of, str_eq, to_owned_string, views};

verus! {

/// The backend an LLM configuration asks for.
#[derive(Debug, Clone)]
pub enum ProviderPlan {
    /// Anthropic, with the environment variable that holds the API key.
    Anthropic { key_env: String },
    /// OpenAI or Ollama, with the environment variable of the key, if any.
    OpenAiCompat { key_env: Option<String> },
}

/// The backend for an LLM configuration: `anthropic` (which needs an API
/// key variable), `openai` or `ollama`; any other provider is an error.
pub fn provider_plan(config: &LlmConfig) -> (r: Result<ProviderPlan, String>)
    ensures
        config.provider@ == "anthropic"@ ==> match config.api_key_env {
            Some(k) => r matches Ok(ProviderPlan::Anthropic { key_env }) && key_env == k,
            None => r matches Err(m) && m@ == "anthropic backend requires api_key_env"@,
        },
        (config.provider@ == "openai"@ || config.provider@ == "ollama"@) ==> (r matches Ok(
            ProviderPlan::OpenAiCompat { key_env },
        ) && key_env == config.api_key_env),
        !(config.provider@ == "anthropic"@ || config.provider@ == "openai"@ || config.provider@ == "ollama"@)
            ==> (r matches Err(m) && m@ == "unsupported LLM provider: "@ + config.provider@),
{
    proof {
        reveal_strlit("anthropic");
        reveal_strlit("openai");
        reveal_strlit("ollama");
        assert("anthropic"@.len() == 9 && "openai"@.len() == 6 && "ollama"@.len() == 6);
        assert("openai"@[1] != "ollama"@[1]);
    }
    if str_eq(config.provider.as_str(), "anthropic") {
        match &config.api_key_env {
            Some(k) => Ok(ProviderPlan::Anthropic { key_env: k.clone() }),
            None => Err(to_owned_string("anthropic backend requires api_key_env")),
        }
    } else if str_eq(config.provider.as_str(), "openai") || str_eq(config.provider.as_str(), "ollama") {
        Ok(
            ProviderPlan::OpenAiCompat {
                key_env: match &config.api_key_env {
                    Some(k) => Some(k.clone()),
                    None => None,
                },
            },
        )
    } else {
        let mut v = chars_of("unsupported LLM provider: ");
        extend_str(&mut v, config.provider.as_str());
        Err(string_of(v.as_slice()))
    }
}

/// The built-in tools a toolset can name.
#[derive(Debug, Clone, Copy, PartialEq, Eq, Structural)]
pub enum BuiltinTool {
    Shell,
    FsRead,
    FsWrite,
}

/// The built-in tool a name stands for: `shell`, `fs_read` or `fs_write`.
pub fn builtin_tool(name: &str) -> (t: Option<BuiltinTool>)
    ensures
        name@ == "shell"@ ==> t == Some(BuiltinTool::Shell),
        name@ == "fs_read"@ ==> t == Some(BuiltinTool::FsRead),
        name@ == "fs_write"@ ==> t == Some(BuiltinTool::FsWrite),
        !(name@ == "shell"@ || name@ == "fs_read"@ || name@ == "fs_write"@) ==> t is None,
{
    proof {
        reveal_strlit("shell");
        reveal_strlit("fs_read");
        reveal_strlit("fs_write");
        assert("shell"@.len() == 5 && "fs_read"@.len() == 7 && "fs_write"@.len() == 8);
    }
    if str_eq(name, "shell") {
        Some(BuiltinTool::Shell)
    } else if str_eq(name, "fs_read") {
        Some(BuiltinTool::FsRead)
    } else if str_eq(name, "fs_write") {
        Some(BuiltinTool::FsWrite)
    } else {
        None
    }
}

/// How an MCP server is reached.
#[derive(Debug, Clone)]
pub enum McpPlan {
    /// Start the command (with the server's arguments and environment).
    Stdio { command: String },
    /// A stdio server without a command: it is skipped.
    MissingCommand,
    /// An HTTP server: not supported yet, it is skipped.
    Http,
}

/// How a configured MCP server is reached.
pub fn mcp_plan(server: &McpServerConfig) -> (p: McpPlan)
    ensures
        server.transport == McpTransport::Http ==> p is Http,
        server.transport == McpTransport::Stdio ==> match server.command {
            Some(c) => p matches McpPlan::Stdio { command } && command == c,
            None => p is MissingCommand,
        },
{
    match server.transport {
        McpTransport::Http => McpPlan::Http,
        McpTransport::Stdio => match &server.command {
            Some(c) => McpPlan::Stdio { command: c.clone() },
            None => McpPlan::MissingCommand,
        },
    }
}

/// The name a severity is printed under (`{:?}`).
pub open spec fn severity_debug(s: Severity) -> Seq<char> {
    match s {
        Severity::Info => "Info"@,
        Severity::Warning => "Warning"@,
        Severity::Error => "Error"@,
    }
}

fn severity_debug_text(s: Severity) -> (r: &'static str)
    ensures
        r@ == severity_debug(s),
{
    match s {
        Severity::Info => "Info",
        Severity::Warning => "Warning",
        Severity::Error => "Error",
    }
}

/// The report lines of the diagnostics of a run.
pub open spec fn diagnostic_report(ds: Seq<Diagnostic>) -> Seq<char>
    decreases ds.len(),
{
    if ds.len() == 0 {
        Seq::empty()
    } else {
        diagnostic_report(ds.drop_last()) + "  ["@ + severity_debug(ds.last().severity) + "] "@ + ds.last().stage@
            + ": "@ + ds.last().message@ + "\n"@
    }
}

/// What `run` prints when a pipeline completes: the stages run, the retry
/// rounds and the tokens (when there were any), and the diagnostics.
pub open spec fn run_report_text(r: RunResult) -> Seq<char> {
    let head = "\n\u{2500}\u{2500} Pipeline Complete \u{2500}\u{2500}\n"@ + "Stages: "@ + join(
        views(r.stages_executed@),
        " \u{2192} "@,
    ) + "\n"@;
    let retries = if r.retries > 0 {
        "Retries: "@ + decimal(r.retries as nat) + "\n"@
    } else {
        Seq::empty()
    };
    let tokens = if r.token_usage.input_tokens > 0 || r.token_usage.output_tokens > 0 {
        "Tokens: "@ + decimal(r.token_usage.input_tokens as nat) + " in / "@ + decimal(
            r.token_usage.output_tokens as nat,
        ) + " out\n"@
    } else {
        Seq::empty()
    };
    let diags = if r.context.diagnostics@.len() > 0 {
        "\nDiagnostics:\n"@ + diagnostic_report(r.context.diagnostics@)
    } else {
        Seq::empty()
    };
    head + retries + tokens + diags
}

/// The report `run` prints when a pipeline completes.
pub fn run_report(result: &RunResult) -> (s: String)
    ensures
        s@ == run_report_text(*result),
{
    let mut v = chars_of("\n\u{2500}\u{2500} Pipeline Complete \u{2500}\u{2500}\n");
    extend_str(&mut v, "Stages: ");
    let stages = crate::text::join_strings(&result.stages_executed, " \u{2192} ");
    extend_str(&mut v, stages.as_str());
    extend_str(&mut v, "\n");
    if result.retries > 0 {
        extend_str(&mut v, "Retries: ");
        let d = decimal_chars(result.retries as u64);
        extend_chars(&mut v, d.as_slice());
        extend_str(&mut v, "\n");
    }
    if result.token_usage.input_tokens > 0 || result.token_usage.output_tokens > 0 {
        extend_str(&mut v, "Tokens: ");
        let a = decimal_chars(result.token_usage.input_tokens);
        extend_chars(&mut v, a.as_slice());
        extend_str(&mut v, " in / ");
        let b = decimal_chars(result.token_usage.output_tokens);
        extend_chars(&mut v, b.as_slice());
        extend_str(&mut v, " out\n");
    }
    let ghost head = v@;
    let ds = &result.context.diagnostics;
    if ds.len() > 0 {
        extend_str(&mut v, "\nDiagnostics:\n");
        let ghost start = v@;
        let mut i: usize = 0;
        while i < ds.len()
            invariant
                i <= ds@.len(),
                v@ == start + diagnostic_report(ds@.take(i as int)),
            decreases ds@.len() - i,
        {
            proof {
                assert(ds@.take(i + 1).drop_last() =~= ds@.take(i as int));
            }
            extend_str(&mut v, "  [");
            extend_str(&mut v, severity_debug_text(ds[i].severity));
            extend_str(&mut v, "] ");
            extend_str(&mut v, ds[i].stage.as_str());
            extend_str(&mut v, ": ");
            extend_str(&mut v, ds[i].message.as_str());
            extend_str(&mut v, "\n");
            proof {
                assert(v@ =~= start + diagnostic_report(ds@.take(i + 1)));
            }
            i = i + 1;
        }
        proof {
            assert(ds@.take(ds@.len() as int) =~= ds@);
        }
    }
    proof {
        assert(v@ =~= run_report_text(*result));
    }
    string_of(v.as_slice())
}


/// Whether an entry of a list of flags is set (absent entries are not).
pub open spec fn flag_at(flags: Seq<bool>, i: int) -> bool {
    0 <= i < flags.len() && flags[i]
}

/// How `check` describes the API key of an LLM backend.
pub open spec fn key_status(llm: LlmConfig, key_set: bool) -> Seq<char> {
    if llm.api_key_env is Some {
        if key_set {
            "key set"@
        } else {
            "key MISSING"@
        }
    } else {
        "no key needed"@
    }
}

/// The lines of the first `n` LLM backends.
pub open spec fn llm_lines(names: Seq<Seq<char>>, llms: Seq<LlmConfig>, keys_set: Seq<bool>, n: int) -> Seq<char>
    decreases n,
{
    if n <= 0 {
        Seq::empty()
    } else {
        llm_lines(names, llms, keys_set, n - 1) + "    "@ + names[n - 1] + ": "@ + llms[n - 1].provider@ + " ("@
            + llms[n - 1].model@ + ") ["@ + key_status(llms[n - 1], flag_at(keys_set, n - 1)) + "]\n"@
    }
}

/// The lines of the first `n` toolsets.
pub open spec fn toolset_lines(names: Seq<Seq<char>>, toolsets: Seq<ToolsetConfig>, n: int) -> Seq<char>
    decreases n,
{
    if n <= 0 {
        Seq::empty()
    } else {
        toolset_lines(names, toolsets, n - 1) + "    "@ + names[n - 1] + ": "@ + decimal(
            toolsets[n - 1].builtin@.len(),
        ) + " builtin, "@ + decimal(toolsets[n - 1].mcp_servers@.len()) + " MCP servers\n"@
    }
}

/// The lines of the first `n` pipelines.
pub open spec fn pipeline_lines(names: Seq<Seq<char>>, pipelines: Seq<PipelineConfig>, n: int) -> Seq<char>
    decreases n,
{
    if n <= 0 {
        Seq::empty()
    } else {
        pipeline_lines(names, pipelines, n - 1) + "    "@ + names[n - 1] + ": "@ + decimal(
            pipelines[n - 1].stages@.len(),
        ) + " stages ["@ + join(views(pipelines[n - 1].stages@), " \u{2192} "@) + "]\n"@
    }
}

/// A section of the report: `none configured` when it has no items.
pub open spec fn section(title: Seq<char>, count: nat, items: Seq<char>) -> Seq<char> {
    if count == 0 {
        "  "@ + title + ": none configured\n"@
    } else {
        "  "@ + title + ":\n"@ + items
    }
}

/// The validation section of the report.
pub open spec fn validation_section(v: Option<ValidationConfig>) -> Seq<char> {
    match v {
        Some(v) => "  Validation:\n"@ + "    lint: "@ + v.lint_command@ + "\n"@ + match v.test_command {
            Some(t) => "    test: "@ + t@ + "\n"@,
            None => Seq::empty(),
        },
        None => "  Validation: not configured\n"@,
    }
}

/// What `check` prints of a valid configuration: the project, its LLM
/// backends (with whether their API keys are set), toolsets, pipelines and
/// validation commands, and where the user's configuration is, if there is
/// one. `keys_set` says, for each LLM backend in order, whether the
/// environment variable of its key is set.
pub open spec fn check_report_text(config: ProjectConfig, keys_set: Seq<bool>, user_config: Option<Seq<char>>) -> Seq<
    char,
> {
    let llm = config.llm;
    let ts = config.toolsets;
    let ps = config.pipelines;
    "Project: "@ + config.project.name@ + "\n"@ + section(
        "LLM backends"@,
        llm.keys().len(),
        llm_lines(llm.keys(), llm.values(), keys_set, llm.keys().len() as int),
    ) + section("Toolsets"@, ts.keys().len(), toolset_lines(ts.keys(), ts.values(), ts.keys().len() as int))
        + section("Pipelines"@, ps.keys().len(), pipeline_lines(ps.keys(), ps.values(), ps.keys().len() as int))
        + validation_section(config.validation) + match user_config {
        Some(p) => "  User config: "@ + p + "\n"@,
        None => "  User config: not found (optional)\n"@,
    } + "\nConfiguration is valid.\n"@
}

fn llm_section(config: &ProjectConfig, keys_set: &Vec<bool>) -> (v: Vec<char>)
    ensures
        v@ == section(
            "LLM backends"@,
            config.llm.keys().len(),
            llm_lines(config.llm.keys(), config.llm.values(), keys_set@, config.llm.keys().len() as int),
        ),
{
    let m = &config.llm;
    m.keys_distinct();
    if m.is_empty() {
        let mut v = chars_of("  ");
        extend_str(&mut v, "LLM backends");
        extend_str(&mut v, ": none configured\n");
        return v;
    }
    let mut v = chars_of("  ");
    extend_str(&mut v, "LLM backends");
    extend_str(&mut v, ":\n");
    let ghost start = v@;
    let mut i: usize = 0;
    while i < m.len()
        invariant
            i <= m.keys().len(),
            m.keys().len() == m.values().len(),
            v@ == start + llm_lines(m.keys(), m.values(), keys_set@, i as int),
        decreases m.keys().len() - i,
    {
        let llm = m.value_at(i);
        extend_str(&mut v, "    ");
        extend_str(&mut v, m.key_at(i).as_str());
        extend_str(&mut v, ": ");
        extend_str(&mut v, llm.provider.as_str());
        extend_str(&mut v, " (");
        extend_str(&mut v, llm.model.as_str());
        extend_str(&mut v, ") [");
        let set = i < keys_set.len() && keys_set[i];
        let status = if llm.api_key_env.is_some() {
            if set {
                "key set"
            } else {
                "key MISSING"
            }
        } else {
            "no key needed"
        };
        extend_str(&mut v, status);
        extend_str(&mut v, "]\n");
        proof {
            assert(set == flag_at(keys_set@, i as int));
            assert(v@ =~= start + llm_lines(m.keys(), m.values(), keys_set@, i + 1));
        }
        i = i + 1;
    }
    v
}

fn toolset_section(config: &ProjectConfig) -> (v: Vec<char>)
    ensures
        v@ == section(
            "Toolsets"@,
            config.toolsets.keys().len(),
            toolset_lines(config.toolsets.keys(), config.toolsets.values(), config.toolsets.keys().len() as int),
        ),
{
    let m = &config.toolsets;
    m.keys_distinct();
    if m.is_empty() {
        let mut v = chars_of("  ");
        extend_str(&mut v, "Toolsets");
        extend_str(&mut v, ": none configured\n");
        return v;
    }
    let mut v = chars_of("  ");
    extend_str(&mut v, "Toolsets");
    extend_str(&mut v, ":\n");
    let ghost start = v@;
    let mut i: usize = 0;
    while i < m.len()
        invariant
            i <= m.keys().len(),
            m.keys().len() == m.values().len(),
            v@ == start + toolset_lines(m.keys(), m.values(), i as int),
        decreases m.keys().len() - i,
    {
        let t = m.value_at(i);
        extend_str(&mut v, "    ");
        extend_str(&mut v, m.key_at(i).as_str());
        extend_str(&mut v, ": ");
        let a = decimal_chars(t.builtin.len() as u64);
        extend_chars(&mut v, a.as_slice());
        extend_str(&mut v, " builtin, ");
        let b = decimal_chars(t.mcp_servers.len() as u64);
        extend_chars(&mut v, b.as_slice());
        extend_str(&mut v, " MCP servers\n");
        proof {
            assert(v@ =~= start + toolset_lines(m.keys(), m.values(), i + 1));
        }
        i = i + 1;
    }
    v
}

fn pipeline_section(config: &ProjectConfig) -> (v: Vec<char>)
    ensures
        v@ == section(
            "Pipelines"@,
            config.pipelines.keys().len(),
            pipeline_lines(config.pipelines.keys(), config.pipelines.values(), config.pipelines.keys().len() as int),
        ),
{
    let m = &config.pipelines;
    m.keys_distinct();
    if m.is_empty() {
        let mut v = chars_of("  ");
        extend_str(&mut v, "Pipelines");
        extend_str(&mut v, ": none configured\n");
        return v;
    }
    let mut v = chars_of("  ");
    extend_str(&mut v, "Pipelines");
    extend_str(&mut v, ":\n");
    let ghost start = v@;
    let mut i: usize = 0;
    while i < m.len()
        invariant
            i <= m.keys().len(),
            m.keys().len() == m.values().len(),
            v@ == start + pipeline_lines(m.keys(), m.values(), i as int),
        decreases m.keys().len() - i,
    {
        let p = m.value_at(i);
        extend_str(&mut v, "    ");
        extend_str(&mut v, m.key_at(i).as_str());
        extend_str(&mut v, ": ");
        let a = decimal_chars(p.stages.len() as u64);
        extend_chars(&mut v, a.as_slice());
        extend_str(&mut v, " stages [");
        let joined = crate::text::join_strings(&p.stages, " \u{2192} ");
        extend_str(&mut v, joined.as_str());
        extend_str(&mut v, "]\n");
        proof {
            assert(v@ =~= start + pipeline_lines(m.keys(), m.values(), i + 1));
        }
        i = i + 1;
    }
    v
}

/// The report `check` prints of a valid configuration. `keys_set` says,
/// for each LLM backend in order, whether its key's environment variable is
/// set (a missing entry counts as not set); `user_config` is where the
/// user's configuration file is, when there is one.
pub fn check_report(config: &ProjectConfig, keys_set: &Vec<bool>, user_config: Option<&str>) -> (s: String)
    ensures
        s@ == check_report_text(*config, keys_set@, match user_config {
            Some(p) => Some(p@),
            None => None,
        }),
{
    let mut v = chars_of("Project: ");
    extend_str(&mut v, config.project.name.as_str());
    extend_str(&mut v, "\n");
    let a = llm_section(config, keys_set);
    extend_chars(&mut v, a.as_slice());
    let b = toolset_section(config);
    extend_chars(&mut v, b.as_slice());
    let c = pipeline_section(config);
    extend_chars(&mut v, c.as_slice());
    match &config.validation {
        Some(val) => {
            extend_str(&mut v, "  Validation:\n");
            extend_str(&mut v, "    lint: ");
            extend_str(&mut v, val.lint_command.as_str());
            extend_str(&mut v, "\n");
            match &val.test_command {
                Some(t) => {
                    extend_str(&mut v, "    test: ");
                    extend_str(&mut v, t.as_str());
                    extend_str(&mut v, "\n");
                },
                None => {},
            }
        },
        None => {
            extend_str(&mut v, "  Validation: not configured\n");
        },
    }
    match user_config {
        Some(p) => {
            extend_str(&mut v, "  User config: ");
            extend_str(&mut v, p);
            extend_str(&mut v, "\n");
        },
        None => {
            extend_str(&mut v, "  User config: not found (optional)\n");
        },
    }
    extend_str(&mut v, "\nConfiguration is valid.\n");
    proof {
        assert(v@ =~= check_report_text(*config, keys_set@, match user_config {
            Some(p) => Some(p@),
            None => None,
        }));
    }
    string_of(v.as_slice())
}

} // verus!
