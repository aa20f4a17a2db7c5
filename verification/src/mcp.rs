//! MCP tools seen from the library: the definition under which a server's
//! tool is offered, and how a tool call's content becomes a single result.
use vstd::prelude::*;

use crate::error::SakamotoError;
use crate::llm::ToolDef;
use crate::text::{chars_of, extend_str, string_of};

verus! {

/// What an MCP server says of one of its tools.
#[derive(Debug, Clone)]
pub struct McpToolInfo {
    pub name: String,
    pub description: Option<String>,
    pub input_schema: serde_json::Value,
}

/// One content item of an MCP tool call result.
#[derive(Debug, Clone)]
pub enum McpContent {
    Text { text: String },
    Image { mime_type: String },
    Resource { uri: String, text: Option<String> },
}

/// A tool of an MCP server, as offered to the LLM.
#[derive(Debug, Clone)]
pub struct McpTool {
    /// The definition offered to the LLM.
    pub definition: ToolDef,
    /// The tool's name on its server.
    pub remote_name: String,
}

/// `{server}_{tool}`: the name a server's tool is offered under.
pub open spec fn prefixed(server: Seq<char>, tool: Seq<char>) -> Seq<char> {
    server + "_"@ + tool
}

/// The name a server's tool is offered under: `{server}_{tool}`.
pub fn prefixed_tool_name(server_name: &str, tool_name: &str) -> (s: String)
    ensures
        s@ == prefixed(server_name@, tool_name@),
{
    let mut v = chars_of(server_name);
    extend_str(&mut v, "_");
    extend_str(&mut v, tool_name);
    proof {
        reveal_strlit("_");
    }
    string_of(v.as_slice())
}

fn description_or_empty(d: &Option<String>) -> (s: String)
    ensures
        s@ == (match d {
            Some(x) => x@,
            None => Seq::<char>::empty(),
        }),
{
    match d {
        Some(x) => x.clone(),
        None => String::new(),
    }
}

impl McpTool {
    /// A server's tool, offered under the name `{server}_{tool}` so that
    /// tools of different servers cannot collide.
    pub fn new(server_name: &str, tool_info: &McpToolInfo) -> (t: McpTool)
        ensures
            t.definition.name@ == prefixed(server_name@, tool_info.name@),
            t.definition.description@ == (match tool_info.description {
                Some(x) => x@,
                None => Seq::<char>::empty(),
            }),
            t.definition.input_schema == tool_info.input_schema,
            t.remote_name@ == tool_info.name@,
    {
        let definition = ToolDef {
            name: prefixed_tool_name(server_name, tool_info.name.as_str()),
            description: description_or_empty(&tool_info.description),
            input_schema: tool_info.input_schema.clone(),
        };
        McpTool { definition, remote_name: tool_info.name.clone() }
    }

    /// A server's tool, offered under its own name.
    pub fn new_unprefixed(tool_info: &McpToolInfo) -> (t: McpTool)
        ensures
            t.definition.name@ == tool_info.name@,
            t.definition.description@ == (match tool_info.description {
                Some(x) => x@,
                None => Seq::<char>::empty(),
            }),
            t.definition.input_schema == tool_info.input_schema,
            t.remote_name@ == tool_info.name@,
    {
        let definition = ToolDef {
            name: tool_info.name.clone(),
            description: description_or_empty(&tool_info.description),
            input_schema: tool_info.input_schema.clone(),
        };
        McpTool { definition, remote_name: tool_info.name.clone() }
    }
}

/// The text of one content item: the text itself, `[image: {mime}]`, or a
/// resource's text (`[resource: {uri}]` when it has none).
pub open spec fn content_text(c: McpContent) -> Seq<char> {
    match c {
        McpContent::Text { text } => text@,
        McpContent::Image { mime_type } => "[image: "@ + mime_type@ + "]"@,
        McpContent::Resource { uri, text } => match text {
            Some(t) => t@,
            None => "[resource: "@ + uri@ + "]"@,
        },
    }
}

/// The texts of the content items, in order.
pub open spec fn content_texts(items: Seq<McpContent>) -> Seq<Seq<char>>
    decreases items.len(),
{
    if items.len() == 0 {
        Seq::empty()
    } else {
        content_texts(items.drop_last()).push(content_text(items.last()))
    }
}

/// The text a sequence of content items gives when each item is appended,
/// preceded by a newline whenever the text so far is not empty.
pub open spec fn content_output(items: Seq<McpContent>) -> Seq<char>
    decreases items.len(),
{
    if items.len() == 0 {
        Seq::empty()
    } else {
        let prev = content_output(items.drop_last());
        if prev.len() == 0 {
            content_text(items.last())
        } else {
            prev + "\n"@ + content_text(items.last())
        }
    }
}

/// The result of an MCP tool call: the content items' texts as one string,
/// or, when the server flags an error, an `McpError` naming the tool and
/// carrying that text.
pub fn tool_call_output(server: &str, tool_name: &str, content: &Vec<McpContent>, is_error: bool) -> (r: Result<
    String,
    SakamotoError,
>)
    ensures
        !is_error ==> (r matches Ok(s) && s@ == content_output(content@)),
        is_error ==> (r matches Err(e) && e matches SakamotoError::McpError { server: srv, reason } && srv@
            == server@ && reason@ == "tool `"@ + tool_name@ + "` returned error: "@ + content_output(content@)),
{
    let mut out: Vec<char> = Vec::new();
    let mut i: usize = 0;
    proof {
        reveal_strlit("\n");
        reveal_strlit("[image: ");
        reveal_strlit("]");
        reveal_strlit("[resource: ");
    }
    while i < content.len()
        invariant
            i <= content@.len(),
            out@ == content_output(content@.take(i as int)),
        decreases content@.len() - i,
    {
        proof {
            assert(content@.take(i + 1).drop_last() =~= content@.take(i as int));
            assert(content@.take(i + 1).last() == content@[i as int]);
        }
        if out.len() > 0 {
            extend_str(&mut out, "\n");
        }
        match &content[i] {
            McpContent::Text { text } => {
                extend_str(&mut out, text.as_str());
            },
            McpContent::Image { mime_type } => {
                extend_str(&mut out, "[image: ");
                extend_str(&mut out, mime_type.as_str());
                extend_str(&mut out, "]");
            },
            McpContent::Resource { uri, text } => {
                match text {
                    Some(t) => {
                        extend_str(&mut out, t.as_str());
                    },
                    None => {
                        extend_str(&mut out, "[resource: ");
                        extend_str(&mut out, uri.as_str());
                        extend_str(&mut out, "]");
                    },
                }
            },
        }
        i = i + 1;
    }
    proof {
        assert(content@.take(content@.len() as int) =~= content@);
    }
    if is_error {
        let mut m = chars_of("tool `");
        extend_str(&mut m, tool_name);
        extend_str(&mut m, "` returned error: ");
        let ghost o = out@;
        crate::text::extend_chars(&mut m, out.as_slice());
        proof {
            reveal_strlit("tool `");
            reveal_strlit("` returned error: ");
        }
        return Err(
            SakamotoError::McpError {
                server: crate::text::to_owned_string(server),
                reason: string_of(m.as_slice()),
            },
        );
    }
    Ok(string_of(out.as_slice()))
}

/// `w` occurs in `s`, as a run of consecutive characters.
pub open spec fn occurs_in(w: Seq<char>, s: Seq<char>) -> bool {
    exists|k: int| 0 <= k && k + w.len() <= s.len() && #[trigger] s.subrange(k, k + w.len()) == w
}

/// The output of a call holds the text of each of its items.
proof fn lemma_output_holds_item(items: Seq<McpContent>, i: int)
    requires
        0 <= i < items.len(),
    ensures
        occurs_in(content_text(items[i]), content_output(items)),
    decreases items.len(),
{
    let w = content_text(items[i]);
    let out = content_output(items);
    let p = content_output(items.drop_last());
    if w.len() == 0 {
        assert(out.subrange(0int, 0int + w.len()) =~= w);
    } else if i == items.len() - 1 {
        if p.len() == 0 {
            assert(out.subrange(0int, 0int + w.len()) =~= w);
        } else {
            let k = out.len() - w.len();
            assert(out.subrange(k, k + w.len()) =~= w);
        }
    } else {
        lemma_output_holds_item(items.drop_last(), i);
        assert(items.drop_last()[i] == items[i]);
        let k = choose|k: int| 0 <= k && k + w.len() <= p.len() && #[trigger] p.subrange(k, k + w.len()) == w;
        assert(p.len() > 0);
        assert(out.subrange(k, k + w.len()) =~= p.subrange(k, k + w.len()));
    }
}

/// What a tool call's output keeps of its content items: the text of every
/// text item, `[image: mime]` for every image, the own text of every resource that carries one, and the
/// `[resource: uri]` placeholder only for a resource without text. A call
/// with a single text item or a single resource carrying text outputs
/// exactly that text.
pub proof fn lemma_tool_output_keeps_texts(items: Seq<McpContent>, i: int)
    requires
        0 <= i < items.len(),
    ensures
        items[i] matches McpContent::Text { text } ==> occurs_in(text@, content_output(items)),
        items[i] matches McpContent::Image { mime_type } ==> occurs_in(
            "[image: "@ + mime_type@ + "]"@,
            content_output(items),
        ),
        items[i] matches McpContent::Resource { uri, text: Some(t) } ==> occurs_in(t@, content_output(items)),
        items[i] matches McpContent::Resource { uri, text: None } ==> occurs_in(
            "[resource: "@ + uri@ + "]"@,
            content_output(items),
        ),
        items.len() == 1 ==> (items[0] matches McpContent::Resource { uri, text: Some(t) } ==> content_output(items)
            == t@),
        items.len() == 1 ==> (items[0] matches McpContent::Text { text } ==> content_output(items) == text@),
{
    lemma_output_holds_item(items, i);
    if items.len() == 1 {
        assert(content_output(items.drop_last()) == Seq::<char>::empty());
        assert(items.last() == items[0]);
    }
}

} // verus!
