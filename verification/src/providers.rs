//! LLM providers: the requests the Anthropic Messages API and the OpenAI
//! Chat Completions API (and compatible servers such as Ollama) are sent,
//! and what their replies make of a round. The HTTP exchange itself is done
//! by whoever holds the client, with the request built here.
use vstd::prelude::*;

use crate::error::SakamotoError;
use crate::json::{json_parse_default, json_parse_or_null};
use crate::llm::{
    text_parts, ContentBlock, LlmResponse, Message, MessageContent, ModelInfo, Role, TokenUsage, ToolCall,
    ToolDef,
};
use crate::scan::{has_at, lit_at};
use crate::strmap::StrMap;
use crate::text::{chars_of, extend_str, join, join_strings, string_of, to_owned_string, views};

verus! {

/// An error of an LLM backend.
pub open spec fn is_llm_error(e: SakamotoError, backend: Seq<char>, reason: Seq<char>) -> bool {
    e matches SakamotoError::LlmError { backend: b, reason: r } && b@ == backend && r@ == reason
}

/// The error when the request could not be sent (the transport's error text).
pub fn send_error(backend: &str, error: &str) -> (e: SakamotoError)
    ensures
        is_llm_error(e, backend@, error@),
{
    SakamotoError::LlmError { backend: to_owned_string(backend), reason: to_owned_string(error) }
}

/// The error for an unsuccessful HTTP status: `HTTP {status}: {body}`.
pub fn http_error(backend: &str, status: &str, body: &str) -> (e: SakamotoError)
    ensures
        is_llm_error(e, backend@, "HTTP "@ + status@ + ": "@ + body@),
{
    let mut v = chars_of("HTTP ");
    extend_str(&mut v, status);
    extend_str(&mut v, ": ");
    extend_str(&mut v, body);
    SakamotoError::LlmError { backend: to_owned_string(backend), reason: string_of(v.as_slice()) }
}

/// The error when the reply is not what the API describes.
pub fn parse_error(backend: &str, error: &str) -> (e: SakamotoError)
    ensures
        is_llm_error(e, backend@, "failed to parse response: "@ + error@),
{
    let mut v = chars_of("failed to parse response: ");
    extend_str(&mut v, error);
    SakamotoError::LlmError { backend: to_owned_string(backend), reason: string_of(v.as_slice()) }
}

fn opt_copy(o: &Option<String>) -> (r: Option<String>)
    ensures
        r == *o,
{
    match o {
        Some(s) => Some(s.clone()),
        None => None,
    }
}

fn block_copy(b: &ContentBlock) -> (r: ContentBlock)
    ensures
        r == *b,
{
    match b {
        ContentBlock::Text { text } => ContentBlock::Text { text: text.clone() },
        ContentBlock::ToolUse { id, name, input } => ContentBlock::ToolUse {
            id: id.clone(),
            name: name.clone(),
            input: input.clone(),
        },
        ContentBlock::ToolResult { tool_use_id, content, is_error } => ContentBlock::ToolResult {
            tool_use_id: tool_use_id.clone(),
            content: content.clone(),
            is_error: *is_error,
        },
    }
}

fn tool_def_copy(t: &ToolDef) -> (r: ToolDef)
    ensures
        r == *t,
{
    ToolDef { name: t.name.clone(), description: t.description.clone(), input_schema: t.input_schema.clone() }
}

// ---------------------------------------------------------------------------
// Anthropic
// ---------------------------------------------------------------------------

/// A message of the Anthropic Messages API.
#[derive(Debug, Clone)]
pub struct AnthropicMessage {
    /// `user` or `assistant`.
    pub role: String,
    pub content: Vec<ContentBlock>,
}

/// A request of the Anthropic Messages API.
#[derive(Debug, Clone)]
pub struct AnthropicRequest {
    pub model: String,
    pub max_tokens: u64,
    /// The sampling temperature, as the bits of its `f64` value.
    pub temperature_bits: Option<u64>,
    pub system: Option<String>,
    pub messages: Vec<AnthropicMessage>,
    /// The tools offered; absent when there are none.
    pub tools: Option<Vec<ToolDef>>,
}

/// The Anthropic backend.
#[derive(Debug, Clone)]
pub struct AnthropicBackend {
    pub api_key: String,
    pub base_url: String,
    pub model: String,
    pub max_tokens: u64,
    pub temperature_bits: Option<u64>,
    pub info: ModelInfo,
}

/// The content blocks a message is sent as: text becomes one text block.
pub open spec fn api_content(c: MessageContent) -> Seq<ContentBlock> {
    match c {
        MessageContent::Text(s) => seq![ContentBlock::Text { text: s }],
        MessageContent::Blocks(bs) => bs@,
    }
}

/// The role a message is sent under: `assistant` for the assistant, `user`
/// for the user and for tool results.
pub open spec fn anthropic_role(r: Role) -> Seq<char> {
    if r == Role::Assistant {
        "assistant"@
    } else {
        "user"@
    }
}

/// The messages sent to the Messages API: system messages are left out
/// (the system prompt goes separately).
pub open spec fn anthropic_messages(ms: Seq<Message>) -> Seq<(Seq<char>, Seq<ContentBlock>)>
    decreases ms.len(),
{
    if ms.len() == 0 {
        Seq::empty()
    } else {
        let rest = anthropic_messages(ms.drop_last());
        if ms.last().role == Role::System {
            rest
        } else {
            rest.push((anthropic_role(ms.last().role), api_content(ms.last().content)))
        }
    }
}

pub open spec fn anthropic_message_views(ms: Seq<AnthropicMessage>) -> Seq<(Seq<char>, Seq<ContentBlock>)> {
    ms.map_values(|m: AnthropicMessage| (m.role@, m.content@))
}

/// The tool calls of a reply, in order.
pub open spec fn reply_tool_calls(blocks: Seq<ContentBlock>) -> Seq<ToolCall>
    decreases blocks.len(),
{
    if blocks.len() == 0 {
        Seq::empty()
    } else {
        let rest = reply_tool_calls(blocks.drop_last());
        match blocks.last() {
            ContentBlock::ToolUse { id, name, input } => rest.push(ToolCall { id, name, input }),
            _ => rest,
        }
    }
}

/// Whether a block is a tool invocation.
pub open spec fn is_tool_use(b: ContentBlock) -> bool {
    b is ToolUse
}

/// A reply asks for one tool call per tool-use block, in the order of the
/// blocks: the `i`-th call carries the id, name and input of the `i`-th
/// tool-use block, and no other block adds a call.
pub proof fn lemma_reply_calls_are_tool_uses(blocks: Seq<ContentBlock>)
    ensures
        reply_tool_calls(blocks).len() == blocks.filter(|b: ContentBlock| is_tool_use(b)).len(),
        forall|i: int|
            0 <= i < reply_tool_calls(blocks).len() ==> (blocks.filter(|b: ContentBlock| is_tool_use(b))[i] matches ContentBlock::ToolUse {
                id,
                name,
                input,
            } && #[trigger] reply_tool_calls(blocks)[i].id == id && reply_tool_calls(blocks)[i].name == name
                && reply_tool_calls(blocks)[i].input == input),
    decreases blocks.len(),
{
    reveal(Seq::filter);
    let f = |b: ContentBlock| is_tool_use(b);
    if blocks.len() > 0 {
        lemma_reply_calls_are_tool_uses(blocks.drop_last());
        assert(blocks.filter(f) == (if f(blocks.last()) {
            blocks.drop_last().filter(f).push(blocks.last())
        } else {
            blocks.drop_last().filter(f)
        }));
    }
}

/// The content blocks a message is sent as: text becomes one text block,
/// blocks are sent as they are.
pub fn convert_content(content: &MessageContent) -> (r: Vec<ContentBlock>)
    ensures
        r@ == api_content(*content),
{
    match content {
        MessageContent::Text(s) => {
            let mut v: Vec<ContentBlock> = Vec::new();
            v.push(ContentBlock::Text { text: s.clone() });
            proof {
                assert(v@ =~= seq![ContentBlock::Text { text: *s }]);
            }
            v
        },
        MessageContent::Blocks(bs) => {
            let mut v: Vec<ContentBlock> = Vec::new();
            let mut i: usize = 0;
            while i < bs.len()
                invariant
                    i <= bs@.len(),
                    v@ == bs@.take(i as int),
                decreases bs@.len() - i,
            {
                v.push(block_copy(&bs[i]));
                proof {
                    assert(v@ =~= bs@.take(i + 1));
                }
                i = i + 1;
            }
            proof {
                assert(bs@.take(bs@.len() as int) =~= bs@);
            }
            v
        },
    }
}

fn tools_copy(tools: &[ToolDef]) -> (r: Vec<ToolDef>)
    ensures
        r@ == tools@,
{
    let mut v: Vec<ToolDef> = Vec::new();
    let mut i: usize = 0;
    while i < tools.len()
        invariant
            i <= tools@.len(),
            v@ == tools@.take(i as int),
        decreases tools@.len() - i,
    {
        v.push(tool_def_copy(&tools[i]));
        proof {
            assert(v@ =~= tools@.take(i + 1));
        }
        i = i + 1;
    }
    proof {
        assert(tools@.take(tools@.len() as int) =~= tools@);
    }
    v
}

impl AnthropicBackend {
    /// A backend for a model: the default base URL is
    /// `https://api.anthropic.com` and the default maximum of tokens 4096.
    pub fn new(
        api_key: &str,
        model: &str,
        base_url: Option<String>,
        max_tokens: Option<u64>,
        temperature_bits: Option<u64>,
    ) -> (b: AnthropicBackend)
        ensures
            b.api_key@ == api_key@,
            b.model@ == model@,
            b.base_url@ == (match base_url {
                Some(u) => u@,
                None => "https://api.anthropic.com"@,
            }),
            b.max_tokens == (match max_tokens {
                Some(m) => m,
                None => 4096,
            }),
            b.temperature_bits == temperature_bits,
            b.info.provider@ == "anthropic"@,
            b.info.model_id@ == model@,
            b.info.supports_tool_use,
            b.info.max_context_tokens == Some(200_000u64),
            b.info.capabilities.as_map() == Map::<Seq<char>, bool>::empty(),
    {
        let info = ModelInfo {
            provider: to_owned_string("anthropic"),
            model_id: to_owned_string(model),
            supports_tool_use: true,
            max_context_tokens: Some(200_000),
            capabilities: StrMap::new(),
        };
        AnthropicBackend {
            api_key: to_owned_string(api_key),
            base_url: match base_url {
                Some(u) => u,
                None => to_owned_string("https://api.anthropic.com"),
            },
            model: to_owned_string(model),
            max_tokens: match max_tokens {
                Some(m) => m,
                None => 4096,
            },
            temperature_bits,
            info,
        }
    }

    pub fn model_info(&self) -> (i: &ModelInfo)
        ensures
            *i == self.info,
    {
        &self.info
    }

    /// The URL requests are posted to: `{base_url}/v1/messages`.
    pub fn endpoint(&self) -> (u: String)
        ensures
            u@ == self.base_url@ + "/v1/messages"@,
    {
        let mut v = chars_of(self.base_url.as_str());
        extend_str(&mut v, "/v1/messages");
        string_of(v.as_slice())
    }

    /// The request for a round: the backend's model, token limit and
    /// temperature, the system prompt, the messages (system messages left
    /// out) and the tools (absent when there are none).
    pub fn build_request(&self, messages: &[Message], tools: &[ToolDef], system: Option<&str>) -> (r: AnthropicRequest)
        ensures
            r.model == self.model,
            r.max_tokens == self.max_tokens,
            r.temperature_bits == self.temperature_bits,
            r.system matches Some(s) ==> system matches Some(t) && s@ == t@,
            r.system is None <==> system is None,
            anthropic_message_views(r.messages@) == anthropic_messages(messages@),
            tools@.len() == 0 ==> r.tools is None,
            tools@.len() > 0 ==> (r.tools matches Some(ts) && ts@ == tools@),
    {
        let mut api: Vec<AnthropicMessage> = Vec::new();
        let mut i: usize = 0;
        proof {
            reveal_strlit("assistant");
            reveal_strlit("user");
        }
        while i < messages.len()
            invariant
                i <= messages@.len(),
                anthropic_message_views(api@) == anthropic_messages(messages@.take(i as int)),
            decreases messages@.len() - i,
        {
            let m = &messages[i];
            proof {
                assert(messages@.take(i + 1).drop_last() =~= messages@.take(i as int));
                assert(messages@.take(i + 1).last() == messages@[i as int]);
            }
            if m.role != Role::System {
                let role = if m.role == Role::Assistant {
                    to_owned_string("assistant")
                } else {
                    to_owned_string("user")
                };
                let am = AnthropicMessage { role, content: convert_content(&m.content) };
                proof {
                    assert(anthropic_message_views(api@.push(am)) =~= anthropic_message_views(api@).push(
                        (am.role@, am.content@),
                    ));
                }
                api.push(am);
            }
            i = i + 1;
        }
        proof {
            assert(messages@.take(messages@.len() as int) =~= messages@);
        }
        AnthropicRequest {
            model: self.model.clone(),
            max_tokens: self.max_tokens,
            temperature_bits: self.temperature_bits,
            system: match system {
                Some(s) => Some(to_owned_string(s)),
                None => None,
            },
            messages: api,
            tools: if tools.len() == 0 {
                None
            } else {
                Some(tools_copy(tools))
            },
        }
    }

    /// What a reply makes of a round: its tool calls when it has any, and
    /// otherwise its text blocks joined by newlines; and the tokens used.
    pub fn interpret(content: Vec<ContentBlock>, input_tokens: u64, output_tokens: u64) -> (r: (LlmResponse, TokenUsage))
        ensures
            r.1.input_tokens == input_tokens,
            r.1.output_tokens == output_tokens,
            reply_tool_calls(content@).len() > 0 ==> (r.0 matches LlmResponse::ToolCalls(calls) && calls@
                == reply_tool_calls(content@)),
            reply_tool_calls(content@).len() == 0 ==> (r.0 matches LlmResponse::Final(t) && t@ == join(
                text_parts(content@),
                "\n"@,
            )),
    {
        let mut calls: Vec<ToolCall> = Vec::new();
        let mut texts: Vec<String> = Vec::new();
        let mut i: usize = 0;
        while i < content.len()
            invariant
                i <= content@.len(),
                calls@ == reply_tool_calls(content@.take(i as int)),
                views(texts@) == text_parts(content@.take(i as int)),
            decreases content@.len() - i,
        {
            proof {
                assert(content@.take(i + 1).drop_last() =~= content@.take(i as int));
                assert(content@.take(i + 1).last() == content@[i as int]);
            }
            match &content[i] {
                ContentBlock::Text { text } => {
                    let t = text.clone();
                    proof {
                        assert(views(texts@.push(t)) =~= views(texts@).push(t@));
                    }
                    texts.push(t);
                },
                ContentBlock::ToolUse { id, name, input } => {
                    calls.push(ToolCall { id: id.clone(), name: name.clone(), input: input.clone() });
                },
                ContentBlock::ToolResult { .. } => {},
            }
            i = i + 1;
        }
        proof {
            assert(content@.take(content@.len() as int) =~= content@);
        }
        let usage = TokenUsage { input_tokens, output_tokens };
        if calls.len() == 0 {
            (LlmResponse::Final(join_strings(&texts, "\n")), usage)
        } else {
            (LlmResponse::ToolCalls(calls), usage)
        }
    }
}

// ---------------------------------------------------------------------------
// OpenAI-compatible
// ---------------------------------------------------------------------------

/// A message of the Chat Completions API.
#[derive(Debug, Clone)]
pub struct OaiMessage {
    pub role: String,
    pub content: Option<String>,
    pub tool_calls: Option<Vec<OaiToolCall>>,
    pub tool_call_id: Option<String>,
}

/// A function tool offered to the Chat Completions API (its type is
/// always `function`).
#[derive(Debug, Clone)]
pub struct OaiTool {
    pub kind: String,
    pub name: String,
    pub description: String,
    pub parameters: serde_json::Value,
}

/// A tool call of a Chat Completions reply: its arguments are JSON text.
#[derive(Debug, Clone)]
pub struct OaiToolCall {
    pub id: String,
    pub name: String,
    pub arguments: String,
}

/// A request of the Chat Completions API.
#[derive(Debug, Clone)]
pub struct OaiRequest {
    pub model: String,
    pub messages: Vec<OaiMessage>,
    pub tools: Option<Vec<OaiTool>>,
    pub max_tokens: Option<u64>,
    pub temperature_bits: Option<u64>,
}

/// The message of the first choice of a reply.
#[derive(Debug, Clone)]
pub struct OaiReplyMessage {
    pub content: Option<String>,
    pub tool_calls: Option<Vec<OaiToolCall>>,
}

/// A reply of the Chat Completions API.
#[derive(Debug, Clone)]
pub struct OaiResponse {
    /// The message of each choice.
    pub choices: Vec<OaiReplyMessage>,
    /// Prompt and completion tokens, when the reply says.
    pub usage: Option<(u64, u64)>,
}

/// The OpenAI-compatible backend (OpenAI, Ollama and others).
#[derive(Debug, Clone)]
pub struct OpenAiCompatBackend {
    pub api_key: Option<String>,
    pub base_url: String,
    pub model: String,
    pub max_tokens: Option<u64>,
    pub temperature_bits: Option<u64>,
    pub info: ModelInfo,
}

/// Whether `n` occurs in `h`.
pub open spec fn has_text(h: Seq<char>, n: Seq<char>) -> bool {
    exists|i: int| has_at(h, i, n)
}

fn contains_text(h: &str, n: &str) -> (b: bool)
    ensures
        b == has_text(h@, n@),
{
    let hv = chars_of(h);
    let nv = chars_of(n);
    if nv.len() > hv.len() {
        return false;
    }
    let last = hv.len() - nv.len();
    let mut i: usize = 0;
    while i < last
        invariant
            hv@ == h@,
            nv@ == n@,
            i <= last,
            last == hv@.len() - nv@.len(),
            forall|j: int| 0 <= j < i ==> !has_at(h@, j, n@),
        decreases last - i,
    {
        if lit_at(hv.as_slice(), i, nv.as_slice()) {
            return true;
        }
        i = i + 1;
    }
    lit_at(hv.as_slice(), last, nv.as_slice())
}

/// The role a message is sent under.
pub open spec fn oai_role(r: Role) -> Seq<char> {
    match r {
        Role::User => "user"@,
        Role::Assistant => "assistant"@,
        Role::Tool => "tool"@,
        Role::System => "system"@,
    }
}

/// The messages sent: the system prompt first when there is one, then the
/// non-system messages as text.
pub open spec fn oai_messages(ms: Seq<Message>) -> Seq<(Seq<char>, Seq<char>)>
    decreases ms.len(),
{
    if ms.len() == 0 {
        Seq::empty()
    } else {
        let rest = oai_messages(ms.drop_last());
        if ms.last().role == Role::System {
            rest
        } else {
            rest.push((oai_role(ms.last().role), ms.last().content.spec_text()))
        }
    }
}

/// A sent message as role and text, when it carries no tool calls.
pub open spec fn oai_message_views(ms: Seq<OaiMessage>) -> Seq<(Seq<char>, Seq<char>)> {
    ms.map_values(|m: OaiMessage| (m.role@, match m.content {
        Some(c) => c@,
        None => Seq::empty(),
    }))
}

impl OpenAiCompatBackend {
    /// A backend for a model at a base URL (default
    /// `https://api.openai.com/v1`); it reports the provider `ollama` when
    /// the URL names `localhost` or `127.0.0.1`, and `openai` otherwise.
    pub fn new(
        api_key: Option<String>,
        model: &str,
        base_url: Option<String>,
        max_tokens: Option<u64>,
        temperature_bits: Option<u64>,
    ) -> (b: OpenAiCompatBackend)
        ensures
            b.api_key == api_key,
            b.model@ == model@,
            b.base_url@ == (match base_url {
                Some(u) => u@,
                None => "https://api.openai.com/v1"@,
            }),
            b.max_tokens == max_tokens,
            b.temperature_bits == temperature_bits,
            b.info.provider@ == (if has_text(b.base_url@, "localhost"@) || has_text(b.base_url@, "127.0.0.1"@) {
                "ollama"@
            } else {
                "openai"@
            }),
            b.info.model_id@ == model@,
            b.info.supports_tool_use,
            b.info.max_context_tokens is None,
            b.info.capabilities.as_map() == Map::<Seq<char>, bool>::empty(),
    {
        let base = match base_url {
            Some(u) => u,
            None => to_owned_string("https://api.openai.com/v1"),
        };
        let local = contains_text(base.as_str(), "localhost") || contains_text(base.as_str(), "127.0.0.1");
        let provider = if local {
            to_owned_string("ollama")
        } else {
            to_owned_string("openai")
        };
        let info = ModelInfo {
            provider,
            model_id: to_owned_string(model),
            supports_tool_use: true,
            max_context_tokens: None,
            capabilities: StrMap::new(),
        };
        OpenAiCompatBackend {
            api_key,
            base_url: base,
            model: to_owned_string(model),
            max_tokens,
            temperature_bits,
            info,
        }
    }

    /// A backend for a model served by a local Ollama.
    pub fn ollama(model: &str) -> (b: OpenAiCompatBackend)
        ensures
            b.api_key is None,
            b.model@ == model@,
            b.base_url@ == "http://localhost:11434/v1"@,
            b.max_tokens is None,
            b.temperature_bits is None,
            b.info.provider@ == "ollama"@,
    {
        let b = OpenAiCompatBackend::new(None, model, Some(to_owned_string("http://localhost:11434/v1")), None, None);
        proof {
            reveal_strlit("http://localhost:11434/v1");
            reveal_strlit("localhost");
            assert(b.base_url@.subrange(7, 16) =~= "localhost"@);
            assert(has_at(b.base_url@, 7, "localhost"@));
        }
        b
    }

    pub fn model_info(&self) -> (i: &ModelInfo)
        ensures
            *i == self.info,
    {
        &self.info
    }

    /// The URL requests are posted to: `{base_url}/chat/completions`.
    pub fn endpoint(&self) -> (u: String)
        ensures
            u@ == self.base_url@ + "/chat/completions"@,
    {
        let mut v = chars_of(self.base_url.as_str());
        extend_str(&mut v, "/chat/completions");
        string_of(v.as_slice())
    }

    /// The request for a round: the system prompt as the first message,
    /// then each non-system message as text; the tools as functions (absent
    /// when there are none).
    pub fn build_request(&self, messages: &[Message], tools: &[ToolDef], system: Option<&str>) -> (r: OaiRequest)
        ensures
            r.model == self.model,
            r.max_tokens == self.max_tokens,
            r.temperature_bits == self.temperature_bits,
            oai_message_views(r.messages@) == (match system {
                Some(s) => seq![("system"@, s@)],
                None => Seq::empty(),
            }) + oai_messages(messages@),
            forall|i: int| 0 <= i < r.messages@.len() ==> (#[trigger] r.messages@[i]).content is Some
                && r.messages@[i].tool_calls is None && r.messages@[i].tool_call_id is None,
            tools@.len() == 0 ==> r.tools is None,
            tools@.len() > 0 ==> (r.tools matches Some(ts) && ts@.len() == tools@.len() && forall|i: int|
                0 <= i < tools@.len() ==> (#[trigger] ts@[i]).kind@ == "function"@ && ts@[i].name
                    == tools@[i].name && ts@[i].description == tools@[i].description && ts@[i].parameters
                    == tools@[i].input_schema),
    {
        let mut api: Vec<OaiMessage> = Vec::new();
        proof {
            reveal_strlit("system");
            reveal_strlit("user");
            reveal_strlit("assistant");
            reveal_strlit("tool");
        }
        match system {
            Some(s) => {
                api.push(
                    OaiMessage {
                        role: to_owned_string("system"),
                        content: Some(to_owned_string(s)),
                        tool_calls: None,
                        tool_call_id: None,
                    },
                );
            },
            None => {},
        }
        let ghost head = oai_message_views(api@);
        proof {
            assert(head =~= (match system {
                Some(s) => seq![("system"@, s@)],
                None => Seq::empty(),
            }));
        }
        let mut i: usize = 0;
        while i < messages.len()
            invariant
                i <= messages@.len(),
                oai_message_views(api@) == head + oai_messages(messages@.take(i as int)),
                forall|k: int| 0 <= k < api@.len() ==> (#[trigger] api@[k]).content is Some
                    && api@[k].tool_calls is None && api@[k].tool_call_id is None,
            decreases messages@.len() - i,
        {
            let m = &messages[i];
            proof {
                assert(messages@.take(i + 1).drop_last() =~= messages@.take(i as int));
                assert(messages@.take(i + 1).last() == messages@[i as int]);
            }
            if m.role != Role::System {
                let role = match m.role {
                    Role::User => to_owned_string("user"),
                    Role::Assistant => to_owned_string("assistant"),
                    Role::Tool => to_owned_string("tool"),
                    Role::System => to_owned_string("system"),
                };
                let om = OaiMessage { role, content: Some(m.content.as_text()), tool_calls: None, tool_call_id: None };
                proof {
                    assert(oai_message_views(api@.push(om)) =~= oai_message_views(api@).push(
                        (om.role@, m.content.spec_text()),
                    ));
                }
                api.push(om);
            }
            i = i + 1;
        }
        proof {
            assert(messages@.take(messages@.len() as int) =~= messages@);
        }
        let oai_tools = if tools.len() == 0 {
            None
        } else {
            let mut ts: Vec<OaiTool> = Vec::new();
            let mut k: usize = 0;
            while k < tools.len()
                invariant
                    k <= tools@.len(),
                    ts@.len() == k,
                    forall|j: int| 0 <= j < k ==> (#[trigger] ts@[j]).kind@ == "function"@ && ts@[j].name
                        == tools@[j].name && ts@[j].description == tools@[j].description && ts@[j].parameters
                        == tools@[j].input_schema,
                decreases tools@.len() - k,
            {
                let t = &tools[k];
                ts.push(
                    OaiTool {
                        kind: to_owned_string("function"),
                        name: t.name.clone(),
                        description: t.description.clone(),
                        parameters: t.input_schema.clone(),
                    },
                );
                k = k + 1;
            }
            Some(ts)
        };
        OaiRequest {
            model: self.model.clone(),
            messages: api,
            tools: oai_tools,
            max_tokens: self.max_tokens,
            temperature_bits: self.temperature_bits,
        }
    }

    /// What a reply makes of a round: the first choice's tool calls (their
    /// arguments read as JSON, `null` when they are not) when it has them,
    /// its text (empty when none) otherwise; the tokens used (0 when the
    /// reply does not say); an error when the reply has no choice.
    pub fn interpret(&self, response: OaiResponse) -> (r: Result<(LlmResponse, TokenUsage), SakamotoError>)
        ensures
            response.choices@.len() == 0 ==> (r matches Err(e) && is_llm_error(
                e,
                self.info.provider@,
                "no choices in response"@,
            )),
            response.choices@.len() > 0 ==> (r matches Ok((resp, usage)) && {
                let m = response.choices@[0];
                &&& usage.input_tokens == (match response.usage {
                    Some(u) => u.0,
                    None => 0,
                })
                &&& usage.output_tokens == (match response.usage {
                    Some(u) => u.1,
                    None => 0,
                })
                &&& match m.tool_calls {
                    Some(tcs) => resp matches LlmResponse::ToolCalls(calls) && calls@.len() == tcs@.len()
                        && forall|i: int| 0 <= i < tcs@.len() ==> (#[trigger] calls@[i]).id == tcs@[i].id
                            && calls@[i].name == tcs@[i].name && calls@[i].input == json_parse_default(
                            tcs@[i].arguments@,
                        ),
                    None => resp matches LlmResponse::Final(t) && t@ == (match m.content {
                        Some(c) => c@,
                        None => Seq::empty(),
                    }),
                }
            }),
    {
        let usage = match response.usage {
            Some((a, b)) => TokenUsage { input_tokens: a, output_tokens: b },
            None => TokenUsage::default(),
        };
        if response.choices.len() == 0 {
            return Err(
                SakamotoError::LlmError {
                    backend: self.info.provider.clone(),
                    reason: to_owned_string("no choices in response"),
                },
            );
        }
        let mut choices = response.choices;
        let m = choices.swap_remove(0);
        let resp = match m.tool_calls {
            Some(tcs) => {
                let mut calls: Vec<ToolCall> = Vec::new();
                let mut i: usize = 0;
                while i < tcs.len()
                    invariant
                        i <= tcs@.len(),
                        calls@.len() == i,
                        forall|j: int| 0 <= j < i ==> (#[trigger] calls@[j]).id == tcs@[j].id && calls@[j].name
                            == tcs@[j].name && calls@[j].input == json_parse_default(tcs@[j].arguments@),
                    decreases tcs@.len() - i,
                {
                    let tc = &tcs[i];
                    calls.push(
                        ToolCall {
                            id: tc.id.clone(),
                            name: tc.name.clone(),
                            input: json_parse_or_null(tc.arguments.as_str()),
                        },
                    );
                    i = i + 1;
                }
                LlmResponse::ToolCalls(calls)
            },
            None => LlmResponse::Final(
                match m.content {
                    Some(c) => c,
                    None => String::new(),
                },
            ),
        };
        Ok((resp, usage))
    }
}

} // verus!
