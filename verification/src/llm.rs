//! LLM conversation types: messages, content blocks, tool calls, tool
//! definitions, responses and token usage.
use vstd::prelude::*;

use crate::strmap::StrMap;
use crate::text::{join, join_strings, to_owned_string, views};

verus! {

/// Role of a message participant.
#[derive(Debug, Clone, Copy, PartialEq, Eq, Hash, Structural)]
pub enum Role {
    System,
    User,
    Assistant,
    Tool,
}

/// A single message in a conversation.
#[derive(Debug, Clone)]
pub struct Message {
    pub role: Role,
    pub content: MessageContent,
}

/// Message content: either plain text or structured blocks.
#[derive(Debug, Clone)]
pub enum MessageContent {
    /// Plain text content.
    Text(String),
    /// Structured content blocks (text, tool use, tool results).
    Blocks(Vec<ContentBlock>),
}

/// A structured content block within a message.
#[derive(Debug, Clone)]
pub enum ContentBlock {
    /// Plain text block.
    Text { text: String },
    /// A tool invocation requested by the LLM.
    ToolUse { id: String, name: String, input: serde_json::Value },
    /// The result of a tool invocation.
    ToolResult { tool_use_id: String, content: String, is_error: bool },
}

/// The texts of the text blocks, in order.
pub open spec fn text_parts(blocks: Seq<ContentBlock>) -> Seq<Seq<char>>
    decreases blocks.len(),
{
    if blocks.len() == 0 {
        Seq::empty()
    } else {
        let rest = text_parts(blocks.drop_last());
        match blocks.last() {
            ContentBlock::Text { text } => rest.push(text@),
            _ => rest,
        }
    }
}

impl MessageContent {
    /// The text of the content: the text itself, or the text blocks joined
    /// by newlines.
    pub open spec fn spec_text(&self) -> Seq<char> {
        match self {
            MessageContent::Text(s) => s@,
            MessageContent::Blocks(blocks) => join(text_parts(blocks@), "\n"@),
        }
    }

    /// Extract the text content, concatenating text blocks if structured.
    pub fn as_text(&self) -> (s: String)
        ensures
            s@ == self.spec_text(),
    {
        match self {
            MessageContent::Text(s) => s.clone(),
            MessageContent::Blocks(blocks) => {
                let mut parts: Vec<String> = Vec::new();
                let mut i: usize = 0;
                while i < blocks.len()
                    invariant
                        i <= blocks@.len(),
                        views(parts@) == text_parts(blocks@.take(i as int)),
                    decreases blocks@.len() - i,
                {
                    proof {
                        assert(blocks@.take(i + 1).drop_last() =~= blocks@.take(i as int));
                    }
                    match &blocks[i] {
                        ContentBlock::Text { text } => {
                            let t = text.clone();
                            proof {
                                assert(views(parts@.push(t)) =~= views(parts@).push(t@));
                            }
                            parts.push(t);
                        },
                        _ => {},
                    }
                    i = i + 1;
                }
                proof {
                    assert(blocks@.take(blocks@.len() as int) =~= blocks@);
                }
                join_strings(&parts, "\n")
            },
        }
    }
}

/// A tool call requested by the LLM.
#[derive(Debug, Clone)]
pub struct ToolCall {
    /// Unique identifier for this tool call (used to match results).
    pub id: String,
    /// Name of the tool to invoke.
    pub name: String,
    /// JSON input arguments for the tool.
    pub input: serde_json::Value,
}

/// The result of executing a tool call.
#[derive(Debug, Clone)]
pub struct ToolResult {
    /// The `id` of the `ToolCall` this result corresponds to.
    pub tool_use_id: String,
    /// The output content (stdout, file contents, error message, etc.).
    pub content: String,
    /// Whether the tool execution resulted in an error.
    pub is_error: bool,
}

impl ToolResult {
    /// Create a successful tool result.
    pub fn success(tool_use_id: &str, content: &str) -> (r: ToolResult)
        ensures
            r.tool_use_id@ == tool_use_id@,
            r.content@ == content@,
            !r.is_error,
    {
        ToolResult { tool_use_id: to_owned_string(tool_use_id), content: to_owned_string(content), is_error: false }
    }

    /// Create an error tool result.
    pub fn error(tool_use_id: &str, content: &str) -> (r: ToolResult)
        ensures
            r.tool_use_id@ == tool_use_id@,
            r.content@ == content@,
            r.is_error,
    {
        ToolResult { tool_use_id: to_owned_string(tool_use_id), content: to_owned_string(content), is_error: true }
    }
}

/// Definition of a tool that can be offered to an LLM.
#[derive(Debug, Clone)]
pub struct ToolDef {
    /// Tool name (must be unique within a toolset).
    pub name: String,
    /// Human-readable description of what the tool does.
    pub description: String,
    /// JSON Schema for the tool's input parameters.
    pub input_schema: serde_json::Value,
}

/// What an LLM returns after a completion request.
#[derive(Debug, Clone)]
pub enum LlmResponse {
    /// The LLM wants to call one or more tools.
    ToolCalls(Vec<ToolCall>),
    /// The LLM has produced a final text response.
    Final(String),
}

impl LlmResponse {
    /// Returns `true` if the response contains tool calls.
    pub fn is_tool_calls(&self) -> (b: bool)
        ensures
            b == (self is ToolCalls),
    {
        match self {
            LlmResponse::ToolCalls(_) => true,
            _ => false,
        }
    }

    /// Returns `true` if the response is a final text answer.
    pub fn is_final(&self) -> (b: bool)
        ensures
            b == (self is Final),
    {
        match self {
            LlmResponse::Final(_) => true,
            _ => false,
        }
    }

    /// Extract tool calls, if any.
    pub fn into_tool_calls(self) -> (r: Option<Vec<ToolCall>>)
        ensures
            match self {
                LlmResponse::ToolCalls(calls) => r == Some(calls),
                LlmResponse::Final(_) => r is None,
            },
    {
        match self {
            LlmResponse::ToolCalls(calls) => Some(calls),
            _ => None,
        }
    }
}

/// Token usage from a single LLM call or accumulated across a pipeline.
#[derive(Debug, Clone, Copy, PartialEq, Eq, Structural)]
pub struct TokenUsage {
    pub input_tokens: u64,
    pub output_tokens: u64,
}

impl Default for TokenUsage {
    fn default() -> (u: TokenUsage)
        ensures
            u.input_tokens == 0 && u.output_tokens == 0,
    {
        TokenUsage { input_tokens: 0, output_tokens: 0 }
    }
}

impl TokenUsage {
    /// Total tokens (input + output).
    pub fn total(&self) -> (n: u64)
        requires
            self.input_tokens + self.output_tokens <= u64::MAX,
        ensures
            n == self.input_tokens + self.output_tokens,
    {
        self.input_tokens + self.output_tokens
    }

    /// Accumulate usage from another call.
    pub fn accumulate(&mut self, other: &TokenUsage)
        requires
            old(self).input_tokens + other.input_tokens <= u64::MAX,
            old(self).output_tokens + other.output_tokens <= u64::MAX,
        ensures
            final(self).input_tokens == old(self).input_tokens + other.input_tokens,
            final(self).output_tokens == old(self).output_tokens + other.output_tokens,
    {
        self.input_tokens = self.input_tokens + other.input_tokens;
        self.output_tokens = self.output_tokens + other.output_tokens;
    }
}

/// Information about an LLM model's capabilities.
#[derive(Debug, Clone)]
pub struct ModelInfo {
    /// Provider name (e.g., "anthropic", "openai", "ollama").
    pub provider: String,
    /// Model identifier (e.g., "gpt-4o").
    pub model_id: String,
    /// Whether the model supports tool use / function calling.
    pub supports_tool_use: bool,
    /// Maximum context window size in tokens.
    pub max_context_tokens: Option<u64>,
    /// Additional capabilities (e.g., "vision", "streaming").
    pub capabilities: StrMap<bool>,
}

} // verus!
