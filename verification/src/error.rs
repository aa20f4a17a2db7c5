//! Error type, severity levels and diagnostics.
use vstd::prelude::*;

use crate::text::{chars_of, decimal, extend_chars, extend_str, decimal_chars, string_of};

verus! {

#[verifier::external_type_specification]
#[verifier::external_body]
pub struct ExIoError(std::io::Error);

#[verifier::external_type_specification]
#[verifier::external_body]
pub struct ExJsonError(serde_json::Error);

/// Top-level error type for all operations of the library.
#[derive(Debug)]
pub enum SakamotoError {
    /// A pipeline stage failed.
    StageFailure { stage: String, reason: String },
    /// A pipeline stage exceeded its maximum iteration count.
    MaxIterationsExceeded { stage: String, max: usize },
    /// A pipeline stage exceeded its timeout.
    Timeout { stage: String, elapsed: std::time::Duration },
    /// Validation (lint/test) failed after all retry rounds.
    ValidationExhausted { rounds: usize, reason: String },
    /// The pipeline graph contains a cycle.
    CyclicGraph,
    /// A referenced stage was not found in the pipeline graph.
    StageNotFound(String),
    /// A referenced toolset (or tool) was not found.
    ToolsetNotFound(String),
    /// A tool call failed.
    ToolCallFailed { tool: String, reason: String },
    /// An MCP server connection or protocol error.
    McpError { server: String, reason: String },
    /// An LLM backend returned an error.
    LlmError { backend: String, reason: String },
    /// Configuration is invalid.
    ConfigError(String),
    /// Context fetching failed.
    ContextError(String),
    /// I/O error (filesystem, network, process).
    Io(std::io::Error),
    /// JSON serialization/deserialization error.
    Json(serde_json::Error),
}

/// `Display` of an I/O error.
#[verifier::external_body]
fn io_error_text(e: &std::io::Error) -> String {
    e.to_string()
}

/// `Display` of a JSON error.
#[verifier::external_body]
fn json_error_text(e: &serde_json::Error) -> String {
    e.to_string()
}

/// `Debug` of a duration.
#[verifier::external_body]
fn duration_text(d: &std::time::Duration) -> String {
    format!("{:?}", d)
}

impl SakamotoError {
    /// The text that the error displays, for every variant whose text is
    /// made of the library's own values.
    pub open spec fn spec_message(&self) -> Seq<char> {
        match self {
            SakamotoError::StageFailure { stage, reason } =>
                "stage `"@ + stage@ + "` failed: "@ + reason@,
            SakamotoError::MaxIterationsExceeded { stage, max } =>
                "stage `"@ + stage@ + "` exceeded max iterations ("@ + decimal(*max as nat) + ")"@,
            SakamotoError::ValidationExhausted { rounds, reason } =>
                "validation failed after "@ + decimal(*rounds as nat) + " round(s): "@ + reason@,
            SakamotoError::CyclicGraph => "pipeline graph contains a cycle"@,
            SakamotoError::StageNotFound(s) => "stage `"@ + s@ + "` not found in pipeline"@,
            SakamotoError::ToolsetNotFound(s) => "toolset `"@ + s@ + "` not found"@,
            SakamotoError::ToolCallFailed { tool, reason } =>
                "tool `"@ + tool@ + "` failed: "@ + reason@,
            SakamotoError::McpError { server, reason } =>
                "MCP error ("@ + server@ + "): "@ + reason@,
            SakamotoError::LlmError { backend, reason } =>
                "LLM error ("@ + backend@ + "): "@ + reason@,
            SakamotoError::ConfigError(s) => "config error: "@ + s@,
            SakamotoError::ContextError(s) => "context error: "@ + s@,
            SakamotoError::Timeout { stage, .. } => "stage `"@ + stage@ + "` timed out after "@,
            SakamotoError::Io(_) => "I/O error: "@,
            SakamotoError::Json(_) => "JSON error: "@,
        }
    }

    /// Whether the whole displayed text is given by `spec_message`.
    pub open spec fn message_is_exact(&self) -> bool {
        !(self is Timeout || self is Io || self is Json)
    }

    /// The error's display text (what `to_string` gives).
    pub fn message(&self) -> (m: String)
        ensures
            self.message_is_exact() ==> m@ == self.spec_message(),
            !self.message_is_exact() ==> m@.take(self.spec_message().len() as int)
                == self.spec_message(),
            self.spec_message().len() <= m@.len(),
    {
        let mut v: Vec<char> = Vec::new();
        match self {
            SakamotoError::StageFailure { stage, reason } => {
                extend_str(&mut v, "stage `");
                extend_str(&mut v, stage.as_str());
                extend_str(&mut v, "` failed: ");
                extend_str(&mut v, reason.as_str());
            },
            SakamotoError::MaxIterationsExceeded { stage, max } => {
                extend_str(&mut v, "stage `");
                extend_str(&mut v, stage.as_str());
                extend_str(&mut v, "` exceeded max iterations (");
                let d = decimal_chars(*max as u64);
                extend_chars(&mut v, d.as_slice());
                extend_str(&mut v, ")");
            },
            SakamotoError::ValidationExhausted { rounds, reason } => {
                extend_str(&mut v, "validation failed after ");
                let d = decimal_chars(*rounds as u64);
                extend_chars(&mut v, d.as_slice());
                extend_str(&mut v, " round(s): ");
                extend_str(&mut v, reason.as_str());
            },
            SakamotoError::CyclicGraph => {
                extend_str(&mut v, "pipeline graph contains a cycle");
            },
            SakamotoError::StageNotFound(s) => {
                extend_str(&mut v, "stage `");
                extend_str(&mut v, s.as_str());
                extend_str(&mut v, "` not found in pipeline");
            },
            SakamotoError::ToolsetNotFound(s) => {
                extend_str(&mut v, "toolset `");
                extend_str(&mut v, s.as_str());
                extend_str(&mut v, "` not found");
            },
            SakamotoError::ToolCallFailed { tool, reason } => {
                extend_str(&mut v, "tool `");
                extend_str(&mut v, tool.as_str());
                extend_str(&mut v, "` failed: ");
                extend_str(&mut v, reason.as_str());
            },
            SakamotoError::McpError { server, reason } => {
                extend_str(&mut v, "MCP error (");
                extend_str(&mut v, server.as_str());
                extend_str(&mut v, "): ");
                extend_str(&mut v, reason.as_str());
            },
            SakamotoError::LlmError { backend, reason } => {
                extend_str(&mut v, "LLM error (");
                extend_str(&mut v, backend.as_str());
                extend_str(&mut v, "): ");
                extend_str(&mut v, reason.as_str());
            },
            SakamotoError::ConfigError(s) => {
                extend_str(&mut v, "config error: ");
                extend_str(&mut v, s.as_str());
            },
            SakamotoError::ContextError(s) => {
                extend_str(&mut v, "context error: ");
                extend_str(&mut v, s.as_str());
            },
            SakamotoError::Timeout { stage, elapsed } => {
                extend_str(&mut v, "stage `");
                extend_str(&mut v, stage.as_str());
                extend_str(&mut v, "` timed out after ");
                let t = duration_text(elapsed);
                let ghost before = v@;
                extend_str(&mut v, t.as_str());
                assert(v@.take(before.len() as int) =~= before);
            },
            SakamotoError::Io(e) => {
                extend_str(&mut v, "I/O error: ");
                let t = io_error_text(e);
                let ghost before = v@;
                extend_str(&mut v, t.as_str());
                assert(v@.take(before.len() as int) =~= before);
            },
            SakamotoError::Json(e) => {
                extend_str(&mut v, "JSON error: ");
                let t = json_error_text(e);
                let ghost before = v@;
                extend_str(&mut v, t.as_str());
                assert(v@.take(before.len() as int) =~= before);
            },
        }
        string_of(v.as_slice())
    }
}

/// An I/O error is a `SakamotoError::Io`.
impl From<std::io::Error> for SakamotoError {
    fn from(e: std::io::Error) -> (r: SakamotoError) {
        SakamotoError::Io(e)
    }
}

impl vstd::std_specs::convert::FromSpecImpl<std::io::Error> for SakamotoError {
    open spec fn obeys_from_spec() -> bool {
        true
    }

    open spec fn from_spec(e: std::io::Error) -> SakamotoError {
        SakamotoError::Io(e)
    }
}

/// A JSON error is a `SakamotoError::Json`.
impl From<serde_json::Error> for SakamotoError {
    fn from(e: serde_json::Error) -> (r: SakamotoError) {
        SakamotoError::Json(e)
    }
}

impl vstd::std_specs::convert::FromSpecImpl<serde_json::Error> for SakamotoError {
    open spec fn obeys_from_spec() -> bool {
        true
    }

    open spec fn from_spec(e: serde_json::Error) -> SakamotoError {
        SakamotoError::Json(e)
    }
}

/// Severity level for diagnostic messages within a pipeline.
#[derive(Debug, Clone, Copy, PartialEq, Eq, Hash, Structural)]
pub enum Severity {
    Info,
    Warning,
    Error,
}

impl Severity {
    /// The lower-case name that a severity displays as.
    pub open spec fn spec_label(self) -> Seq<char> {
        match self {
            Severity::Info => "info"@,
            Severity::Warning => "warning"@,
            Severity::Error => "error"@,
        }
    }

    /// The displayed name: `info`, `warning` or `error`.
    pub fn label(&self) -> (s: &'static str)
        ensures
            s@ == self.spec_label(),
    {
        match self {
            Severity::Info => "info",
            Severity::Warning => "warning",
            Severity::Error => "error",
        }
    }
}

/// A diagnostic message emitted during pipeline execution.
#[derive(Debug, Clone)]
pub struct Diagnostic {
    pub severity: Severity,
    pub stage: String,
    pub message: String,
}

impl Diagnostic {
    /// `[severity] stage: message`
    pub open spec fn spec_display(&self) -> Seq<char> {
        "["@ + self.severity.spec_label() + "] "@ + self.stage@ + ": "@ + self.message@
    }

    /// The diagnostic's display text: `[severity] stage: message`.
    pub fn display(&self) -> (s: String)
        ensures
            s@ == self.spec_display(),
    {
        let mut v = chars_of("[");
        extend_str(&mut v, self.severity.label());
        extend_str(&mut v, "] ");
        extend_str(&mut v, self.stage.as_str());
        extend_str(&mut v, ": ");
        extend_str(&mut v, self.message.as_str());
        string_of(v.as_slice())
    }

    /// A copy of the diagnostic.
    pub fn duplicate(&self) -> (d: Diagnostic)
        ensures
            d == *self,
    {
        Diagnostic { severity: self.severity, stage: self.stage.clone(), message: self.message.clone() }
    }
}

} // verus!
