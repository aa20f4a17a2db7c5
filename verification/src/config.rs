//! Configuration of a project (`sakamoto.toml`) and of a user
//! (`~/.config/sakamoto/config.toml`), and how the user's defaults fill the
//! gaps of a project's configuration.
use vstd::prelude::*;

use crate::stage::InteractionPolicy;
use crate::strmap::StrMap;

verus! {

/// Project-level configuration.
#[derive(Debug, Clone)]
pub struct ProjectConfig {
    /// Project metadata.
    pub project: ProjectMeta,
    /// Named LLM backend configurations.
    pub llm: StrMap<LlmConfig>,
    /// Named toolset configurations.
    pub toolsets: StrMap<ToolsetConfig>,
    /// Named pipeline configurations.
    pub pipelines: StrMap<PipelineConfig>,
    /// Validation command configuration.
    pub validation: Option<ValidationConfig>,
    /// Output configuration.
    pub output: Option<OutputConfig>,
    /// Rule file configuration.
    pub rules: Option<RulesConfig>,
    /// Named MCP server configurations.
    pub mcp_servers: StrMap<McpServerConfig>,
}

/// How an MCP server is reached.
#[derive(Debug, Clone, Copy, PartialEq, Eq, Structural)]
pub enum McpTransport {
    /// A child process spoken to over its stdin and stdout.
    Stdio,
    /// An HTTP endpoint.
    Http,
}

/// Configuration of an MCP server.
#[derive(Debug, Clone)]
pub struct McpServerConfig {
    pub transport: McpTransport,
    /// The command that starts a stdio server.
    pub command: Option<String>,
    /// The command's arguments.
    pub args: Vec<String>,
    /// Environment variables for the command.
    pub env: StrMap<String>,
}

/// User-level configuration: defaults for every project.
#[derive(Debug, Clone)]
pub struct UserConfig {
    pub llm: StrMap<LlmConfig>,
    pub toolsets: StrMap<ToolsetConfig>,
    pub output: Option<OutputConfig>,
    pub validation: Option<ValidationConfig>,
}

/// Project metadata.
#[derive(Debug, Clone)]
pub struct ProjectMeta {
    pub name: String,
    pub description: Option<String>,
}

/// Configuration for a single LLM backend.
#[derive(Debug, Clone)]
pub struct LlmConfig {
    /// Provider name: "anthropic", "openai", "ollama", "openrouter", etc.
    pub provider: String,
    /// Model identifier.
    pub model: String,
    /// Environment variable holding the API key.
    pub api_key_env: Option<String>,
    /// Base URL override (for self-hosted or proxy endpoints).
    pub base_url: Option<String>,
    /// Maximum tokens for completions.
    pub max_tokens: Option<u64>,
    /// Sampling temperature, as the bits of its `f64` value.
    pub temperature_bits: Option<u64>,
}

/// Configuration for a named toolset.
#[derive(Debug, Clone)]
pub struct ToolsetConfig {
    /// MCP server names to include.
    pub mcp_servers: Vec<String>,
    /// Built-in tool names to include.
    pub builtin: Vec<String>,
}

/// Configuration for a named pipeline.
#[derive(Debug, Clone)]
pub struct PipelineConfig {
    /// Ordered list of stage names.
    pub stages: Vec<String>,
    /// Maximum CI retry rounds.
    pub max_ci_rounds: usize,
    /// Default interaction policy for all stages.
    pub interaction: Option<InteractionPolicy>,
    /// Per-stage overrides.
    pub stage_overrides: StrMap<StageOverride>,
}

/// The number of CI rounds a pipeline gets when its configuration names none.
pub fn default_max_ci_rounds() -> (n: usize)
    ensures
        n == 2,
{
    2
}

/// Per-stage configuration overrides within a pipeline.
#[derive(Debug, Clone)]
pub struct StageOverride {
    pub llm_backend: Option<String>,
    pub toolset: Option<String>,
    pub interaction: Option<InteractionPolicy>,
    pub max_iterations: Option<usize>,
    pub command: Option<String>,
}

/// Validation commands.
#[derive(Debug, Clone)]
pub struct ValidationConfig {
    /// Lint command (e.g., "cargo clippy --workspace -- -D warnings").
    pub lint_command: String,
    /// Format check command.
    pub fmt_command: Option<String>,
    /// Test command.
    pub test_command: Option<String>,
}

/// Output configuration.
#[derive(Debug, Clone)]
pub struct OutputConfig {
    /// Default output format.
    pub default: OutputFormat,
}

/// What a pipeline run produces.
#[derive(Debug, Clone, Copy, PartialEq, Eq, Structural)]
pub enum OutputFormat {
    Pr,
    Commit,
    Patch,
    Files,
}

/// Rule file configuration.
#[derive(Debug, Clone)]
pub struct RulesConfig {
    /// Glob patterns for rule files.
    pub paths: Vec<String>,
}

fn opt_copy(o: &Option<String>) -> (r: Option<String>)
    ensures
        r == *o,
{
    match o {
        Some(s) => Some(s.clone()),
        None => None,
    }
}

fn strings_copy(v: &Vec<String>) -> (r: Vec<String>)
    ensures
        r@ == v@,
{
    let mut out: Vec<String> = Vec::new();
    let mut i: usize = 0;
    while i < v.len()
        invariant
            i <= v@.len(),
            out@ == v@.take(i as int),
        decreases v@.len() - i,
    {
        out.push(v[i].clone());
        proof {
            assert(out@ =~= v@.take(i + 1));
        }
        i = i + 1;
    }
    proof {
        assert(v@.take(v@.len() as int) =~= v@);
    }
    out
}

impl LlmConfig {
    /// A copy of the configuration.
    pub fn duplicate(&self) -> (c: LlmConfig)
        ensures
            c == *self,
    {
        LlmConfig {
            provider: self.provider.clone(),
            model: self.model.clone(),
            api_key_env: opt_copy(&self.api_key_env),
            base_url: opt_copy(&self.base_url),
            max_tokens: self.max_tokens,
            temperature_bits: self.temperature_bits,
        }
    }
}

impl ToolsetConfig {
    /// A copy of the configuration.
    pub fn duplicate(&self) -> (c: ToolsetConfig)
        ensures
            c.mcp_servers@ == self.mcp_servers@,
            c.builtin@ == self.builtin@,
    {
        ToolsetConfig { mcp_servers: strings_copy(&self.mcp_servers), builtin: strings_copy(&self.builtin) }
    }
}

impl ValidationConfig {
    /// A copy of the configuration.
    pub fn duplicate(&self) -> (c: ValidationConfig)
        ensures
            c == *self,
    {
        ValidationConfig {
            lint_command: self.lint_command.clone(),
            fmt_command: opt_copy(&self.fmt_command),
            test_command: opt_copy(&self.test_command),
        }
    }
}

/// A map's entries as a mathematical map, values compared as given.
pub open spec fn same_entries<T>(a: StrMap<T>, b: StrMap<T>) -> bool {
    a.keys() == b.keys() && a.values() == b.values()
}

/// A toolset map copied: same keys, and each toolset with the same servers
/// and built-ins.
pub open spec fn same_toolsets(a: StrMap<ToolsetConfig>, b: StrMap<ToolsetConfig>) -> bool {
    &&& a.keys() == b.keys()
    &&& a.values().len() == b.values().len()
    &&& forall|i: int| 0 <= i < a.values().len() ==> (#[trigger] a.values()[i]).mcp_servers@
        == b.values()[i].mcp_servers@ && a.values()[i].builtin@ == b.values()[i].builtin@
}

/// Merge user defaults into a project config: each of the LLM backends,
/// toolsets, output and validation that the project leaves empty is taken
/// from the user's configuration; everything the project sets is kept.
pub fn merge_configs(project: ProjectConfig, user: &UserConfig) -> (m: ProjectConfig)
    ensures
        m.project == project.project,
        m.pipelines == project.pipelines,
        m.rules == project.rules,
        m.mcp_servers == project.mcp_servers,
        project.llm.keys().len() == 0 ==> same_entries(m.llm, user.llm),
        project.llm.keys().len() > 0 ==> m.llm == project.llm,
        project.toolsets.keys().len() == 0 ==> same_toolsets(m.toolsets, user.toolsets),
        project.toolsets.keys().len() > 0 ==> m.toolsets == project.toolsets,
        project.output is None ==> m.output == user.output,
        project.output is Some ==> m.output == project.output,
        project.validation is None ==> m.validation == user.validation,
        project.validation is Some ==> m.validation == project.validation,
{
    let mut project = project;
    if project.llm.is_empty() {
        project.llm = user.llm.copied(|c: &LlmConfig| -> (r: LlmConfig)
            ensures
                r == *c,
            { c.duplicate() });
        proof {
            assert(project.llm.values() =~= user.llm.values());
        }
    }
    if project.toolsets.is_empty() {
        project.toolsets = user.toolsets.copied(|c: &ToolsetConfig| -> (r: ToolsetConfig)
            ensures
                r.mcp_servers@ == c.mcp_servers@,
                r.builtin@ == c.builtin@,
            { c.duplicate() });
    }
    if project.output.is_none() {
        project.output = match &user.output {
            Some(o) => Some(OutputConfig { default: o.default }),
            None => None,
        };
    }
    if project.validation.is_none() {
        project.validation = match &user.validation {
            Some(v) => Some(v.duplicate()),
            None => None,
        };
    }
    project
}

} // verus!
