//! ReAct loop: iterative LLM + tool-use execution.
//!
//! The loop sends messages to an LLM, executes any tool calls the LLM
//! requests, appends the results, and repeats until the LLM produces a final
//! answer or the iteration limit is reached. The decisions of each round are
//! made here; whoever holds the LLM client and the tool executor performs
//! the calls and hands back what they returned.
use vstd::prelude::*;

use crate::error::SakamotoError;
use crate::llm::{ContentBlock, LlmResponse, Message, MessageContent, Role, TokenUsage, ToolCall};
use crate::text::{chars_of, string_of, to_owned_string};

verus! {

/// Configuration for a ReAct loop execution.
#[derive(Debug, Clone)]
pub struct ReactLoop {
    /// Maximum number of LLM round-trips before giving up.
    pub max_iterations: usize,
    /// Optional system prompt prepended to every LLM call.
    pub system_prompt: Option<String>,
}

/// The result of a completed ReAct loop.
#[derive(Debug)]
pub struct ReactResult {
    /// The final text response from the LLM.
    pub final_text: String,
    /// The full message history (including tool calls and results).
    pub messages: Vec<Message>,
    /// Accumulated token usage across all iterations.
    pub token_usage: TokenUsage,
    /// Number of LLM round-trips performed.
    pub iterations: usize,
}

/// The progress of a loop: the conversation so far, the tokens used, and the
/// number of completed rounds.
#[derive(Debug)]
pub struct ReactState {
    pub messages: Vec<Message>,
    pub usage: TokenUsage,
    pub iteration: usize,
}

/// What a round leads to.
#[derive(Debug)]
pub enum ReactStep {
    /// The LLM gave its final answer.
    Done(ReactResult),
    /// The LLM asked for these tool calls; their outcomes go to
    /// [`ReactLoop::after_tools`].
    RunTools(ReactState, Vec<ToolCall>),
}

/// The tool-use block of a call.
pub open spec fn tool_use_block(call: ToolCall) -> ContentBlock {
    ContentBlock::ToolUse { id: call.id, name: call.name, input: call.input }
}

/// Whether `block` is the tool-result block of `call` with `outcome`: the
/// output on success, the error's text on failure.
pub open spec fn is_result_block(call: ToolCall, outcome: Result<String, SakamotoError>, block: ContentBlock) -> bool {
    match outcome {
        Ok(out) => block == ContentBlock::ToolResult { tool_use_id: call.id, content: out, is_error: false },
        Err(e) => block matches ContentBlock::ToolResult { tool_use_id, content, is_error } && tool_use_id
            == call.id && is_error && (e.message_is_exact() ==> content@ == e.spec_message()) && content@.take(
            e.spec_message().len() as int,
        ) == e.spec_message(),
    }
}

impl ReactLoop {
    /// Create a new ReAct loop with the given iteration limit.
    pub fn new(max_iterations: usize) -> (r: ReactLoop)
        ensures
            r.max_iterations == max_iterations,
            r.system_prompt is None,
    {
        ReactLoop { max_iterations, system_prompt: None }
    }

    /// Set the system prompt.
    pub fn with_system_prompt(self, prompt: &str) -> (r: ReactLoop)
        ensures
            r.max_iterations == self.max_iterations,
            r.system_prompt matches Some(p) && p@ == prompt@,
    {
        ReactLoop { max_iterations: self.max_iterations, system_prompt: Some(to_owned_string(prompt)) }
    }

    /// The state before the first round.
    pub fn begin(&self, initial_messages: Vec<Message>) -> (s: ReactState)
        ensures
            s.messages == initial_messages,
            s.usage.input_tokens == 0 && s.usage.output_tokens == 0,
            s.iteration == 0,
    {
        ReactState { messages: initial_messages, usage: TokenUsage::default(), iteration: 0 }
    }

    /// Whether another round may start: an error `MaxIterationsExceeded`
    /// (stage `react`) once `max_iterations` rounds have run.
    pub fn check_iteration(&self, state: &ReactState) -> (r: Result<(), SakamotoError>)
        ensures
            r is Ok <==> state.iteration < self.max_iterations,
            r matches Err(e) ==> e matches SakamotoError::MaxIterationsExceeded { stage, max } && stage@
                == "react"@ && max == self.max_iterations,
    {
        if state.iteration < self.max_iterations {
            Ok(())
        } else {
            Err(
                SakamotoError::MaxIterationsExceeded {
                    stage: string_of(chars_of("react").as_slice()),
                    max: self.max_iterations,
                },
            )
        }
    }

    /// Take the LLM's response of a round: the usage is added; a final
    /// answer ends the loop after `iteration + 1` rounds; tool calls are
    /// recorded as an assistant message of tool-use blocks and handed out.
    pub fn step(&self, state: ReactState, response: LlmResponse, usage: &TokenUsage) -> (r: ReactStep)
        requires
            state.iteration < self.max_iterations,
            state.usage.input_tokens + usage.input_tokens <= u64::MAX,
            state.usage.output_tokens + usage.output_tokens <= u64::MAX,
        ensures
            match response {
                LlmResponse::Final(text) => r matches ReactStep::Done(res) && res.final_text == text
                    && res.messages == state.messages && res.iterations == state.iteration + 1
                    && res.token_usage.input_tokens == state.usage.input_tokens + usage.input_tokens
                    && res.token_usage.output_tokens == state.usage.output_tokens + usage.output_tokens,
                LlmResponse::ToolCalls(calls) => r matches ReactStep::RunTools(s, cs) && cs == calls
                    && s.iteration == state.iteration
                    && s.usage.input_tokens == state.usage.input_tokens + usage.input_tokens
                    && s.usage.output_tokens == state.usage.output_tokens + usage.output_tokens
                    && s.messages@ == state.messages@.push(
                        Message {
                            role: Role::Assistant,
                            content: MessageContent::Blocks(s.messages@.last().content->Blocks_0),
                        },
                    ) && s.messages@.last().content is Blocks
                    && (s.messages@.last().content->Blocks_0)@ == calls@.map_values(|c: ToolCall| tool_use_block(c)),
            },
    {
        let ReactState { mut messages, usage: mut total, iteration } = state;
        total.accumulate(usage);
        match response {
            LlmResponse::Final(text) => ReactStep::Done(
                ReactResult { final_text: text, messages, token_usage: total, iterations: iteration + 1 },
            ),
            LlmResponse::ToolCalls(calls) => {
                let mut blocks: Vec<ContentBlock> = Vec::new();
                let mut i: usize = 0;
                while i < calls.len()
                    invariant
                        i <= calls@.len(),
                        blocks@ == calls@.take(i as int).map_values(|c: ToolCall| tool_use_block(c)),
                    decreases calls@.len() - i,
                {
                    let call = &calls[i];
                    let b = ContentBlock::ToolUse { id: call.id.clone(), name: call.name.clone(), input: call.input.clone() };
                    proof {
                        assert(calls@.take(i + 1).map_values(|c: ToolCall| tool_use_block(c))
                            =~= calls@.take(i as int).map_values(|c: ToolCall| tool_use_block(c)).push(b));
                    }
                    blocks.push(b);
                    i = i + 1;
                }
                proof {
                    assert(calls@.take(calls@.len() as int) =~= calls@);
                }
                messages.push(Message { role: Role::Assistant, content: MessageContent::Blocks(blocks) });
                ReactStep::RunTools(ReactState { messages, usage: total, iteration }, calls)
            },
        }
    }

    /// Take the outcomes of the tool calls of a round, one per call in order:
    /// a user message of tool-result blocks is appended and the round ends.
    pub fn after_tools(
        &self,
        state: ReactState,
        calls: &Vec<ToolCall>,
        outcomes: Vec<Result<String, SakamotoError>>,
    ) -> (s: ReactState)
        requires
            outcomes@.len() == calls@.len(),
            state.iteration < self.max_iterations,
        ensures
            s.usage == state.usage,
            s.iteration == state.iteration + 1,
            s.messages@.len() == state.messages@.len() + 1,
            s.messages@.drop_last() == state.messages@,
            s.messages@.last().role == Role::User,
            s.messages@.last().content matches MessageContent::Blocks(blocks) && blocks@.len() == calls@.len()
                && forall|i: int| 0 <= i < calls@.len() ==> #[trigger] is_result_block(
                calls@[i],
                outcomes@[i],
                blocks@[i],
            ),
    {
        let ReactState { mut messages, usage, iteration } = state;
        let ghost all = outcomes@;
        let mut rest = outcomes;
        let mut blocks: Vec<ContentBlock> = Vec::new();
        let mut i: usize = 0;
        while i < calls.len()
            invariant
                i <= calls@.len(),
                all.len() == calls@.len(),
                rest@ == all.skip(i as int),
                blocks@.len() == i,
                forall|j: int| 0 <= j < i ==> #[trigger] is_result_block(calls@[j], all[j], blocks@[j]),
            decreases calls@.len() - i,
        {
            let outcome = rest.remove(0);
            proof {
                assert(all.skip(i as int)[0] == all[i as int]);
                assert(all.skip(i as int).remove(0) =~= all.skip(i + 1));
            }
            let id = calls[i].id.clone();
            let ghost o = outcome;
            let b = match outcome {
                Ok(output) => ContentBlock::ToolResult { tool_use_id: id, content: output, is_error: false },
                Err(e) => {
                    let m = e.message();
                    proof {
                        if e.message_is_exact() {
                            assert(m@.take(e.spec_message().len() as int) =~= m@);
                        }
                    }
                    ContentBlock::ToolResult { tool_use_id: id, content: m, is_error: true }
                },
            };
            proof {
                assert(o == all[i as int]);
                assert(is_result_block(calls@[i as int], o, b));
            }
            let ghost prev = blocks@;
            blocks.push(b);
            proof {
                assert forall|j: int| 0 <= j < i + 1 implies #[trigger] is_result_block(calls@[j], all[j], blocks@[j]) by {
                    if j < i {
                        assert(blocks@[j] == prev[j]);
                    }
                }
            }
            i = i + 1;
        }
        messages.push(Message { role: Role::User, content: MessageContent::Blocks(blocks) });
        proof {
            assert(messages@.drop_last() =~= state.messages@);
        }
        ReactState { messages, usage, iteration: iteration + 1 }
    }
}

} // verus!
