//! The LLM provider adapter: which provider serves a chat, and the
//! conversion between the broker's messages and the provider's.

use vstd::prelude::*;

use crate::json::{entry, jstr, json_parsed, json_text, json_text_of, lemma_view_entries, lemma_view_items, member, object, parse_json, text_member, view_entries, view_items, Json, JsonV};
use crate::keys::{is_oauth_key, is_oauth_token};
use crate::schema::transform;
use crate::text::{cat, cat3, copy_str, str_eq};
use crate::types::{Message, Tool};

verus! {

broadcast use {vstd::std_specs::vec::group_vec_axioms, vstd::seq::group_seq_axioms};

/// The Anthropic provider. An OAuth token is sent with the bearer scheme, an
/// API key with the key header.
pub struct AnthropicProvider {
    pub api_key: String,
    pub oauth: bool,
}

/// A placeholder provider: every completion fails as not implemented.
pub struct OpenAIProvider {
    pub api_key: String,
}

impl AnthropicProvider {
    pub fn new(api_key: String, oauth: bool) -> (r: AnthropicProvider)
        ensures
            r.api_key == api_key,
            r.oauth == oauth,
    {
        AnthropicProvider { api_key, oauth }
    }

    pub fn name(&self) -> (r: &'static str)
        ensures
            r@ == "anthropic"@,
    {
        "anthropic"
    }
}

impl OpenAIProvider {
    pub fn new(api_key: String) -> (r: OpenAIProvider)
        ensures
            r.api_key == api_key,
    {
        OpenAIProvider { api_key }
    }

    pub fn name(&self) -> (r: &'static str)
        ensures
            r@ == "openai"@,
    {
        "openai"
    }
}

/// The providers a chat can use.
pub enum LlmProvider {
    Anthropic(AnthropicProvider),
    OpenAI(OpenAIProvider),
}

impl LlmProvider {
    pub fn name(&self) -> (r: &'static str)
        ensures
            self is Anthropic ==> r@ == "anthropic"@,
            self is OpenAI ==> r@ == "openai"@,
    {
        match self {
            LlmProvider::Anthropic(p) => p.name(),
            LlmProvider::OpenAI(p) => p.name(),
        }
    }

    /// Why a completion cannot be had from this provider at all, if so.
    pub fn unavailable_reason(&self) -> (r: Option<String>)
        ensures
            self is Anthropic ==> r is None,
            self is OpenAI ==> r is Some && r->0@ == "OpenAI provider not yet implemented"@,
    {
        match self {
            LlmProvider::Anthropic(_) => None,
            LlmProvider::OpenAI(_) => Some(copy_str("OpenAI provider not yet implemented")),
        }
    }
}

/// The provider for `provider_type`: `openai` is OpenAI, anything else
/// Anthropic, with the bearer scheme for an OAuth token.
pub fn create_llm_provider(provider_type: &str, api_key: &str) -> (r: LlmProvider)
    ensures
        provider_type@ == "openai"@ ==> r is OpenAI && r->OpenAI_0.api_key@ == api_key@,
        provider_type@ != "openai"@ ==> r is Anthropic && r->Anthropic_0.api_key@ == api_key@
            && r->Anthropic_0.oauth == is_oauth_key(api_key@),
{
    if str_eq(provider_type, "openai") {
        LlmProvider::OpenAI(OpenAIProvider::new(copy_str(api_key)))
    } else {
        LlmProvider::Anthropic(AnthropicProvider::new(copy_str(api_key), is_oauth_token(api_key)))
    }
}

/// Who speaks a turn sent to the provider.
pub enum ProviderRole {
    User,
    Assistant,
}

/// A turn as the provider receives it.
pub struct ProviderTurn {
    pub role: ProviderRole,
    pub text: String,
}

/// The `(tool_call_id, result)` pairs of a `tool_results_json` text: every
/// element must be an object with string `tool_call_id` and `result`, else
/// none are read.
pub open spec fn result_item(item: JsonV) -> bool {
    text_member(item, "tool_call_id"@) is Some && text_member(item, "result"@) is Some
}

pub open spec fn readable_results(text: Seq<char>) -> bool {
    &&& json_parsed(text) is Some
    &&& json_parsed(text)->0 is Array
    &&& forall|i: int| 0 <= i < json_parsed(text)->0->Array_0.len() ==> result_item(#[trigger] json_parsed(text)->0->Array_0[i])
}

/// The lines `- Tool call <id>: <result>` of the given result entries.
pub open spec fn result_lines(items: Seq<JsonV>) -> Seq<char>
    decreases items.len(),
{
    if items.len() == 0 {
        Seq::empty()
    } else {
        result_lines(items.drop_last()) + "- Tool call "@ + text_member(items.last(), "tool_call_id"@)->0 + ": "@
            + text_member(items.last(), "result"@)->0 + "\n"@
    }
}

/// The text of a turn as sent to the provider: tool results are listed one
/// per line, and a turn with tool calls is marked as pending them.
pub open spec fn turn_text(m: Message) -> Seq<char> {
    if m.tool_results_json is Some {
        "Tool execution results:\n"@ + if readable_results(m.tool_results_json->0@) {
            result_lines(json_parsed(m.tool_results_json->0@)->0->Array_0)
        } else {
            Seq::empty()
        }
    } else if m.tool_calls_json is Some {
        m.content@ + "\n[Tool calls pending]"@
    } else {
        m.content@
    }
}

fn results_text(text: &str) -> (r: String)
    ensures
        readable_results(text@) ==> r@ == result_lines(json_parsed(text@)->0->Array_0),
        !readable_results(text@) ==> r@.len() == 0,
{
    let doc = match parse_json(text) {
        Some(d) => d,
        None => { return String::new(); },
    };
    let items = match doc.as_array() {
        Some(a) => a,
        None => { return String::new(); },
    };
    proof { lemma_view_items(items@); }
    let ghost vs = view_items(items@);
    let mut out = String::new();
    let mut i: usize = 0;
    assert(vs.take(0) =~= Seq::<JsonV>::empty());
    while i < items.len()
        invariant
            0 <= i <= items@.len(),
            vs == view_items(items@),
            vs == json_parsed(text@)->0->Array_0,
            vs.len() == items@.len(),
            forall|k: int| 0 <= k < items@.len() ==> #[trigger] vs[k] == items@[k]@,
            forall|k: int| 0 <= k < i ==> result_item(#[trigger] vs[k]),
            out@ == result_lines(vs.take(i as int)),
        decreases items@.len() - i,
    {
        assert(vs.take(i + 1).drop_last() =~= vs.take(i as int));
        assert(readable_results(text@) ==> result_item(vs[i as int]));
        let id = match items[i].get_str("tool_call_id") {
            Some(x) => x,
            None => { return String::new(); },
        };
        let result = match items[i].get_str("result") {
            Some(x) => x,
            None => { return String::new(); },
        };
        let head = cat3("- Tool call ", id, ": ");
        let line = cat3(head.as_str(), result, "\n");
        out.append(line.as_str());
        assert(out@ =~= result_lines(vs.take(i + 1)));
        i = i + 1;
    }
    assert(vs.take(i as int) =~= vs);
    out
}

/// A turn as sent to the provider: `assistant` turns are the assistant's,
/// every other turn (tool results included) is the user's.
pub fn provider_turn(m: &Message) -> (r: ProviderTurn)
    ensures
        (r.role is Assistant) == (m.role@ == "assistant"@),
        r.text@ == turn_text(*m),
{
    let role = if str_eq(m.role.as_str(), "assistant") { ProviderRole::Assistant } else { ProviderRole::User };
    let text = match &m.tool_results_json {
        Some(t) => {
            let lines = results_text(t.as_str());
            cat("Tool execution results:\n", lines.as_str())
        },
        None => match &m.tool_calls_json {
            Some(_) => cat(m.content.as_str(), "\n[Tool calls pending]"),
            None => copy_str(m.content.as_str()),
        },
    };
    ProviderTurn { role, text }
}

/// The turns of a conversation as sent to the provider.
pub fn provider_turns(messages: &Vec<Message>) -> (r: Vec<ProviderTurn>)
    ensures
        r@.len() == messages@.len(),
        forall|i: int| 0 <= i < messages@.len() ==> (#[trigger] r@[i]).text@ == turn_text(messages@[i])
            && (r@[i].role is Assistant) == (messages@[i].role@ == "assistant"@),
{
    let mut out: Vec<ProviderTurn> = Vec::new();
    let mut i: usize = 0;
    while i < messages.len()
        invariant
            0 <= i <= messages@.len(),
            out@.len() == i,
            forall|k: int| 0 <= k < i ==> (#[trigger] out@[k]).text@ == turn_text(messages@[k])
                && (out@[k].role is Assistant) == (messages@[k].role@ == "assistant"@),
        decreases messages@.len() - i,
    {
        out.push(provider_turn(&messages[i]));
        i = i + 1;
    }
    out
}

/// A tool as declared to the provider.
pub struct ProviderTool {
    pub name: String,
    pub description: String,
    pub properties: Json,
    pub required: Vec<String>,
}

/// The schema text of a tool: `input_schema_json` when present, else `parameters`.
pub open spec fn schema_text(t: Tool) -> Seq<char> {
    match t.input_schema_json {
        Some(s) => s@,
        None => t.parameters@,
    }
}

/// The parsed schema of a tool, or an empty object when it is not JSON.
pub open spec fn tool_schema(t: Tool) -> JsonV {
    match json_parsed(schema_text(t)) {
        Some(j) => j,
        None => JsonV::Object(Seq::empty()),
    }
}

/// The strings among the elements of a `required` list.
pub open spec fn required_names(items: Seq<JsonV>) -> Seq<Seq<char>>
    decreases items.len(),
{
    if items.len() == 0 {
        Seq::empty()
    } else if items.last() is Str {
        required_names(items.drop_last()).push(items.last()->Str_0)
    } else {
        required_names(items.drop_last())
    }
}

impl AnthropicProvider {
    /// A tool declared to the provider: its schema transformed, split into
    /// the properties and the names of the required ones.
    pub fn provider_tool(&self, tool: &Tool) -> (r: ProviderTool)
        ensures
            r.name@ == tool.name@,
            r.description@ == tool.description@,
            r.properties@ == match member(transform(tool_schema(*tool)), "properties"@) {
                Some(p) => p,
                None => JsonV::Null,
            },
            r.required@.len() == match member(transform(tool_schema(*tool)), "required"@) {
                Some(JsonV::Array(items)) => required_names(items).len(),
                _ => 0,
            },
            forall|i: int| 0 <= i < r.required@.len() ==> match member(transform(tool_schema(*tool)), "required"@) {
                Some(JsonV::Array(items)) => (#[trigger] r.required@[i])@ == required_names(items)[i],
                _ => false,
            },
    {
        let text = match &tool.input_schema_json {
            Some(s) => s.as_str(),
            None => tool.parameters.as_str(),
        };
        let schema = match parse_json(text) {
            Some(j) => j,
            None => {
                let v: Vec<(String, Json)> = Vec::new();
                proof { lemma_view_entries(v@); }
                assert(view_entries(v@) =~= Seq::<(Seq<char>, JsonV)>::empty());
                object(v)
            },
        };
        let transformed = self.transform_mcp_to_anthropic_schema(&schema);
        let properties = match transformed.get("properties") {
            Some(p) => crate::json::copy_json(p),
            None => Json::Null,
        };
        let mut required: Vec<String> = Vec::new();
        match transformed.get("required") {
            Some(Json::Array(items)) => {
                proof { lemma_view_items(items@); }
                let ghost vs = view_items(items@);
                let mut i: usize = 0;
                assert(vs.take(0) =~= Seq::<JsonV>::empty());
                while i < items.len()
                    invariant
                        0 <= i <= items@.len(),
                        vs == view_items(items@),
                        vs.len() == items@.len(),
                        forall|k: int| 0 <= k < items@.len() ==> #[trigger] vs[k] == items@[k]@,
                        required@.len() == required_names(vs.take(i as int)).len(),
                        forall|k: int| 0 <= k < required@.len() ==> (#[trigger] required@[k])@ == required_names(vs.take(i as int))[k],
                    decreases items@.len() - i,
                {
                    assert(vs.take(i + 1).drop_last() =~= vs.take(i as int));
                    assert(vs.take(i + 1).last() == items@[i as int]@);
                    match items[i].as_str() {
                        Some(name) => {
                            let ghost before = required@;
                            required.push(copy_str(name));
                            assert forall|k: int| 0 <= k < required@.len() implies (#[trigger] required@[k])@ == required_names(vs.take(i + 1))[k] by {
                                if k < before.len() {
                                    assert(required@[k] == before[k]);
                                }
                            }
                        },
                        None => {},
                    }
                    i = i + 1;
                }
                assert(vs.take(i as int) =~= vs);
            },
            _ => {},
        }
        ProviderTool {
            name: copy_str(tool.name.as_str()),
            description: copy_str(tool.description.as_str()),
            properties,
            required,
        }
    }
}

/// A content block of a provider reply.
pub enum ResponseBlock {
    Text(String),
    ToolUse { id: String, name: String, input: Json },
}

/// The text of a reply: its text blocks joined by single spaces (a space
/// only after non-empty text).
pub open spec fn reply_text(blocks: Seq<ResponseBlock>) -> Seq<char>
    decreases blocks.len(),
{
    if blocks.len() == 0 {
        Seq::empty()
    } else {
        let acc = reply_text(blocks.drop_last());
        match blocks.last() {
            ResponseBlock::Text(t) => if acc.len() > 0 { acc + " "@ + t@ } else { acc + t@ },
            _ => acc,
        }
    }
}

/// The tool calls of a reply: one per tool-use block, its input as JSON text.
pub open spec fn reply_calls(blocks: Seq<ResponseBlock>) -> Seq<JsonV>
    decreases blocks.len(),
{
    if blocks.len() == 0 {
        Seq::empty()
    } else {
        let acc = reply_calls(blocks.drop_last());
        match blocks.last() {
            ResponseBlock::ToolUse { id, name, input } => acc.push(JsonV::Object(seq![
                ("id"@, JsonV::Str(id@)),
                ("tool_name"@, JsonV::Str(name@)),
                ("parameters"@, JsonV::Str(json_text_of(input@))),
            ])),
            _ => acc,
        }
    }
}

/// The assistant turn that a provider reply becomes: its text, and its tool
/// calls as `tool_calls_json` when there are any.
pub fn assemble_reply(blocks: &Vec<ResponseBlock>, timestamp: u64) -> (r: Message)
    ensures
        r.role@ == "assistant"@,
        r.content@ == reply_text(blocks@),
        reply_calls(blocks@).len() == 0 ==> r.tool_calls_json is None,
        reply_calls(blocks@).len() > 0 ==> r.tool_calls_json is Some
            && r.tool_calls_json->0@ == json_text_of(JsonV::Array(reply_calls(blocks@))),
        r.tool_results_json is None,
        r.timestamp == timestamp,
{
    let mut text = String::new();
    let mut calls: Vec<Json> = Vec::new();
    let mut i: usize = 0;
    assert(blocks@.take(0) =~= Seq::<ResponseBlock>::empty());
    proof { lemma_view_items(calls@); }
    while i < blocks.len()
        invariant
            0 <= i <= blocks@.len(),
            text@ == reply_text(blocks@.take(i as int)),
            view_items(calls@) == reply_calls(blocks@.take(i as int)),
        decreases blocks@.len() - i,
    {
        assert(blocks@.take(i + 1).drop_last() =~= blocks@.take(i as int));
        match &blocks[i] {
            ResponseBlock::Text(t) => {
                if text.unicode_len() > 0 {
                    text.append(" ");
                }
                text.append(t.as_str());
                proof { reveal_strlit(" "); }
                assert(text@ =~= reply_text(blocks@.take(i + 1)));
            },
            ResponseBlock::ToolUse { id, name, input } => {
                let mut v: Vec<(String, Json)> = Vec::new();
                v.push(entry("id", jstr(id.as_str())));
                v.push(entry("tool_name", jstr(name.as_str())));
                v.push(entry("parameters", Json::Str(json_text(input))));
                proof { lemma_view_entries(v@); }
                assert(view_entries(v@) =~= seq![
                    ("id"@, JsonV::Str(id@)),
                    ("tool_name"@, JsonV::Str(name@)),
                    ("parameters"@, JsonV::Str(json_text_of(input@))),
                ]);
                let ghost before = calls@;
                calls.push(object(v));
                assert(calls@.drop_last() =~= before);
            },
        }
        i = i + 1;
    }
    assert(blocks@.take(i as int) =~= blocks@);
    let tool_calls_json = if calls.len() == 0 {
        None
    } else {
        Some(json_text(&Json::Array(calls)))
    };
    proof { lemma_view_items(calls@); }
    Message {
        role: copy_str("assistant"),
        content: text,
        tool_calls_json,
        tool_results_json: None,
        timestamp,
    }
}

} // verus!
