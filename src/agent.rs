//! The agentic loop of one chat.
//!
//! A chat alternates LLM calls and tool calls, both performed by the caller.
//! [`ChatSession`] holds the conversation being built and decides each next
//! step: the caller reports the LLM's reply with [`ChatSession::on_llm_reply`],
//! runs the tool calls of a [`ToolRound`] one by one, records the round with
//! [`ChatSession::record_tool_round`], and ends with [`ChatSession::finish`].

use vstd::prelude::*;

use crate::ids::{is_hyphenated_uuid, new_uuid, now_rfc3339};
use crate::json::{entry, jstr, json_parsed, json_text, json_text_of, lemma_view_entries, lemma_view_items, object, parse_json, text_member, view_entries, view_items, Json, JsonV};
use crate::keys::{decrypt_key, decrypted_form, is_oauth_key, is_oauth_token};
use crate::mcp::{offers_tool, same_tools};
use crate::text::{cat3, contains_text, contains_text_of, copy_opt, copy_str, copy_strings, occurs_in, str_eq, strings_contain};
use crate::types::{ApiKey, Conversation, ConversationMetadata, McpServer, Message, SpiderError, SpiderState, Tool, ToolCall, ToolResult};

verus! {

broadcast use {vstd::std_specs::vec::group_vec_axioms, vstd::seq::group_seq_axioms};

/// A chat request: the presenting key, the messages so far, and the
/// provider, model and MCP servers to use (defaults when absent).
pub struct ChatRequest {
    pub api_key: String,
    pub messages: Vec<Message>,
    pub llm_provider: Option<String>,
    pub model: Option<String>,
    pub mcp_servers: Option<Vec<String>>,
    pub metadata: Option<ConversationMetadata>,
}

/// The outcome of a chat: the final reply and the turns that the chat added.
#[derive(Debug)]
pub struct ChatResponse {
    pub conversation_id: String,
    pub response: Message,
    pub all_messages: Vec<Message>,
}

/// `a` and `b` are the same message.
pub open spec fn same_message(a: Message, b: Message) -> bool {
    &&& a.role@ == b.role@
    &&& a.content@ == b.content@
    &&& a.tool_calls_json is Some == b.tool_calls_json is Some
    &&& a.tool_calls_json is Some ==> a.tool_calls_json->0@ == b.tool_calls_json->0@
    &&& a.tool_results_json is Some == b.tool_results_json is Some
    &&& a.tool_results_json is Some ==> a.tool_results_json->0@ == b.tool_results_json->0@
    &&& a.timestamp == b.timestamp
}

pub open spec fn same_messages(a: Seq<Message>, b: Seq<Message>) -> bool {
    &&& a.len() == b.len()
    &&& forall|i: int| 0 <= i < a.len() ==> same_message(#[trigger] a[i], b[i])
}

pub fn copy_message(m: &Message) -> (r: Message)
    ensures
        same_message(r, *m),
{
    Message {
        role: copy_str(m.role.as_str()),
        content: copy_str(m.content.as_str()),
        tool_calls_json: copy_opt(&m.tool_calls_json),
        tool_results_json: copy_opt(&m.tool_results_json),
        timestamp: m.timestamp,
    }
}

/// Copies `v[from..]`.
pub fn copy_messages_from(v: &Vec<Message>, from: usize) -> (r: Vec<Message>)
    requires
        from <= v@.len(),
    ensures
        same_messages(r@, v@.skip(from as int)),
{
    let mut out: Vec<Message> = Vec::new();
    let mut i: usize = from;
    while i < v.len()
        invariant
            from <= i <= v@.len(),
            out@.len() == i - from,
            forall|k: int| 0 <= k < out@.len() ==> same_message(#[trigger] out@[k], v@[from + k]),
        decreases v@.len() - i,
    {
        out.push(copy_message(&v[i]));
        i = i + 1;
    }
    out
}

/// The key stored for `provider` (the first entry filed under it), in its at-rest form.
pub open spec fn stored_key(keys: Seq<(String, ApiKey)>, provider: Seq<char>) -> Option<Seq<char>>
    decreases keys.len(),
{
    if keys.len() == 0 {
        None
    } else if keys[0].0@ == provider {
        Some(keys[0].1.key@)
    } else {
        stored_key(keys.drop_first(), provider)
    }
}

/// The credential a chat uses with `provider`. An OAuth token is used
/// directly, and only with Anthropic. A Spider key uses the stored provider
/// key; for Anthropic a stored OAuth token is preferred.
pub open spec fn credential_for(keys: Seq<(String, ApiKey)>, api_key: Seq<char>, provider: Seq<char>) -> Option<Seq<char>> {
    if is_oauth_key(api_key) {
        if provider == "anthropic"@ || provider == "anthropic-oauth"@ { Some(api_key) } else { None }
    } else if provider == "anthropic"@ {
        if stored_key(keys, "anthropic-oauth"@) is Some && is_oauth_key(decrypted_form(stored_key(keys, "anthropic-oauth"@)->0)) {
            Some(decrypted_form(stored_key(keys, "anthropic-oauth"@)->0))
        } else {
            match stored_key(keys, "anthropic"@) {
                Some(k) => Some(decrypted_form(k)),
                None => None,
            }
        }
    } else {
        match stored_key(keys, provider) {
            Some(k) => Some(decrypted_form(k)),
            None => None,
        }
    }
}

/// Whether a chat may use `server`: it is connected and, when the request
/// names servers, among them.
pub open spec fn selected(server: McpServer, filter: Option<Vec<String>>) -> bool {
    server.connected && match filter {
        Some(ids) => contains_text(ids@, server.id@),
        None => true,
    }
}

/// The tools of the servers a chat may use, server by server.
pub open spec fn catalog(servers: Seq<McpServer>, filter: Option<Vec<String>>) -> Seq<Tool>
    decreases servers.len(),
{
    if servers.len() == 0 {
        Seq::empty()
    } else {
        catalog(servers.drop_last(), filter) + if selected(servers.last(), filter) { servers.last().tools@ } else { Seq::empty() }
    }
}

/// The per-chat state of the agentic loop.
pub struct ChatSession {
    pub conversation_id: String,
    pub provider: String,
    pub credential: String,
    pub model: Option<String>,
    pub tools: Vec<Tool>,
    pub working: Vec<Message>,
    pub initial_len: usize,
    pub iteration: u32,
    pub done: bool,
    pub mcp_servers: Vec<String>,
    pub metadata: Option<ConversationMetadata>,
}

/// A role that the loop itself adds.
pub open spec fn added_role(role: Seq<char>) -> bool {
    role == "assistant"@ || role == "tool"@
}

/// Two states of a chat with the same provider, credential, model, tools,
/// id, servers and metadata.
pub open spec fn same_setup(a: ChatSession, b: ChatSession) -> bool {
    &&& a.conversation_id == b.conversation_id
    &&& a.provider == b.provider
    &&& a.credential == b.credential
    &&& a.model == b.model
    &&& a.tools == b.tools
    &&& a.mcp_servers == b.mcp_servers
    &&& a.metadata == b.metadata
}

impl ChatSession {
    /// The turns the loop adds are assistant or tool turns; once done, the
    /// last is the final assistant reply.
    pub open spec fn wf(&self) -> bool {
        &&& self.initial_len <= self.working@.len()
        &&& forall|k: int| self.initial_len <= k < self.working@.len() ==> added_role(#[trigger] self.working@[k].role@)
        &&& self.done ==> self.working@.len() > self.initial_len && self.working@.last().role@ == "assistant"@
    }
}

/// The tool calls of one LLM reply and the results gathered so far, in order.
pub struct ToolRound {
    pub calls: Vec<ToolCall>,
    pub results: Vec<ToolResult>,
}

impl ToolRound {
    /// Result `i` answers call `i`.
    pub open spec fn wf(&self) -> bool {
        &&& self.results@.len() <= self.calls@.len()
        &&& forall|i: int| 0 <= i < self.results@.len() ==> (#[trigger] self.results@[i]).tool_call_id@ == self.calls@[i].id@
    }

    /// The call to run next, if any.
    pub fn next_call(&self) -> (r: Option<&ToolCall>)
        requires
            self.wf(),
        ensures
            r is Some <==> self.results@.len() < self.calls@.len(),
            r is Some ==> *r->0 == self.calls@[self.results@.len() as int],
    {
        if self.results.len() < self.calls.len() {
            Some(&self.calls[self.results.len()])
        } else {
            None
        }
    }

    /// Records the outcome of the call returned by [`ToolRound::next_call`].
    pub fn complete_call(&mut self, outcome: String)
        requires
            old(self).wf(),
        ensures
            final(self).wf(),
            final(self).calls == old(self).calls,
            old(self).results@.len() < old(self).calls@.len() ==> {
                &&& final(self).results@.len() == old(self).results@.len() + 1
                &&& final(self).results@.drop_last() == old(self).results@
                &&& final(self).results@.last().result@ == outcome@
            },
            old(self).results@.len() == old(self).calls@.len() ==> final(self).results == old(self).results,
    {
        if self.results.len() < self.calls.len() {
            let id = copy_str(self.calls[self.results.len()].id.as_str());
            self.results.push(ToolResult { tool_call_id: id, result: outcome });
        }
    }

    pub fn is_complete(&self) -> (r: bool)
        ensures
            r == (self.results@.len() == self.calls@.len()),
    {
        self.results.len() == self.calls.len()
    }
}

/// The number of results that answer call `id`.
pub open spec fn answers(results: Seq<ToolResult>, id: Seq<char>) -> nat
    decreases results.len(),
{
    if results.len() == 0 {
        0
    } else {
        answers(results.drop_last(), id) + if results.last().tool_call_id@ == id { 1nat } else { 0nat }
    }
}

/// When the LLM's call ids are distinct, a complete round answers each call
/// exactly once.
pub proof fn lemma_each_call_answered_once(calls: Seq<ToolCall>, results: Seq<ToolResult>)
    requires
        results.len() == calls.len(),
        forall|i: int| 0 <= i < results.len() ==> (#[trigger] results[i]).tool_call_id@ == calls[i].id@,
        forall|i: int, j: int| 0 <= i < j < calls.len() ==> (#[trigger] calls[i]).id@ != (#[trigger] calls[j]).id@,
    ensures
        forall|i: int| 0 <= i < calls.len() ==> answers(results, (#[trigger] calls[i]).id@) == 1,
{
    assert forall|i: int| 0 <= i < calls.len() implies answers(results, (#[trigger] calls[i]).id@) == 1 by {
        lemma_answers_prefix(calls, results, calls[i].id@, i, results.len() as int);
        assert(results.take(results.len() as int) =~= results);
    }
}

proof fn lemma_answers_prefix(calls: Seq<ToolCall>, results: Seq<ToolResult>, id: Seq<char>, i: int, n: int)
    requires
        results.len() == calls.len(),
        0 <= i < calls.len(),
        calls[i].id@ == id,
        0 <= n <= results.len(),
        forall|k: int| 0 <= k < results.len() ==> (#[trigger] results[k]).tool_call_id@ == calls[k].id@,
        forall|a: int, b: int| 0 <= a < b < calls.len() ==> (#[trigger] calls[a]).id@ != (#[trigger] calls[b]).id@,
    ensures
        answers(results.take(n), id) == if n > i { 1nat } else { 0nat },
    decreases n,
{
    if n > 0 {
        lemma_answers_prefix(calls, results, id, i, n - 1);
        assert(results.take(n).drop_last() =~= results.take(n - 1));
        let k = n - 1;
        if k != i {
            if k < i {
                assert(calls[k].id@ != calls[i].id@);
            } else {
                assert(calls[i].id@ != calls[k].id@);
            }
        }
        assert(results.take(n).last() == results[k]);
    } else {
        assert(results.take(0).len() == 0);
    }
}

/// What a chat does after an LLM reply.
pub enum LoopStep {
    /// Run these tool calls, then record the round and call the LLM again.
    RunTools(ToolRound),
    /// The reply is final: finish the chat.
    Finish,
}

/// The calls that a `tool_calls_json` text lists: an array of objects with
/// string members `id`, `tool_name` and `parameters`.
pub open spec fn is_call_item(item: JsonV) -> bool {
    &&& text_member(item, "id"@) is Some
    &&& text_member(item, "tool_name"@) is Some
    &&& text_member(item, "parameters"@) is Some
}

pub open spec fn calls_of(items: Seq<JsonV>, calls: Seq<ToolCall>) -> bool {
    &&& calls.len() == items.len()
    &&& forall|i: int| 0 <= i < items.len() ==> {
        &&& (#[trigger] calls[i]).id@ == text_member(items[i], "id"@)->0
        &&& calls[i].tool_name@ == text_member(items[i], "tool_name"@)->0
        &&& calls[i].parameters@ == text_member(items[i], "parameters"@)->0
    }
}

/// Whether a `tool_calls_json` text is well formed.
pub open spec fn calls_well_formed(text: Seq<char>) -> bool {
    &&& json_parsed(text) is Some
    &&& json_parsed(text)->0 is Array
    &&& forall|i: int| 0 <= i < json_parsed(text)->0->Array_0.len() ==> is_call_item(#[trigger] json_parsed(text)->0->Array_0[i])
}

/// Reads the tool calls of a `tool_calls_json` text.
pub fn parse_tool_calls(text: &str) -> (r: Result<Vec<ToolCall>, SpiderError>)
    ensures
        calls_well_formed(text@) ==> r is Ok && calls_of(json_parsed(text@)->0->Array_0, r->Ok_0@),
        !calls_well_formed(text@) ==> r == Err::<Vec<ToolCall>, SpiderError>(SpiderError::MalformedToolCalls),
{
    let doc = match parse_json(text) {
        Some(d) => d,
        None => { return Err(SpiderError::MalformedToolCalls); },
    };
    let items = match doc.as_array() {
        Some(a) => a,
        None => { return Err(SpiderError::MalformedToolCalls); },
    };
    proof { lemma_view_items(items@); }
    let ghost vs = view_items(items@);
    let mut out: Vec<ToolCall> = Vec::new();
    let mut i: usize = 0;
    while i < items.len()
        invariant
            0 <= i <= items@.len(),
            vs == view_items(items@),
            vs == json_parsed(text@)->0->Array_0,
            vs.len() == items@.len(),
            forall|k: int| 0 <= k < items@.len() ==> #[trigger] vs[k] == items@[k]@,
            forall|k: int| 0 <= k < i ==> is_call_item(#[trigger] vs[k]),
            calls_of(vs.take(i as int), out@),
        decreases items@.len() - i,
    {
        let item = &items[i];
        assert(calls_well_formed(text@) ==> is_call_item(vs[i as int]));
        let id = match item.get_str("id") {
            Some(x) => copy_str(x),
            None => { return Err(SpiderError::MalformedToolCalls); },
        };
        let tool_name = match item.get_str("tool_name") {
            Some(x) => copy_str(x),
            None => { return Err(SpiderError::MalformedToolCalls); },
        };
        let parameters = match item.get_str("parameters") {
            Some(x) => copy_str(x),
            None => { return Err(SpiderError::MalformedToolCalls); },
        };
        out.push(ToolCall { id, tool_name, parameters });
        i = i + 1;
        assert forall|k: int| 0 <= k < i implies #[trigger] out@[k].id@ == text_member(vs.take(i as int)[k], "id"@)->0
            && out@[k].tool_name@ == text_member(vs.take(i as int)[k], "tool_name"@)->0
            && out@[k].parameters@ == text_member(vs.take(i as int)[k], "parameters"@)->0 by {
            if k < i - 1 {
                assert(vs.take(i - 1)[k] == vs.take(i as int)[k]);
            }
        }
    }
    assert(vs.take(i as int) =~= vs);
    Ok(out)
}

/// The arguments of a tool call: its parameters text parsed as JSON, or an
/// empty object when it is not JSON.
pub fn tool_arguments(parameters: &str) -> (r: Json)
    ensures
        json_parsed(parameters@) is Some ==> r@ == json_parsed(parameters@)->0,
        json_parsed(parameters@) is None ==> r@ == JsonV::Object(Seq::empty()),
{
    match parse_json(parameters) {
        Some(j) => j,
        None => {
            let v: Vec<(String, Json)> = Vec::new();
            proof { lemma_view_entries(v@); }
            assert(view_entries(v@) =~= Seq::<(Seq<char>, JsonV)>::empty());
            object(v)
        },
    }
}

/// The error object `{"error": message}`.
pub open spec fn error_value(message: Seq<char>) -> JsonV {
    JsonV::Object(seq![("error"@, JsonV::Str(message))])
}

fn error_object(message: &str) -> (r: Json)
    ensures
        r@ == error_value(message@),
{
    let mut v: Vec<(String, Json)> = Vec::new();
    v.push(entry("error", jstr(message)));
    proof { lemma_view_entries(v@); }
    assert(view_entries(v@) =~= error_value(message@)->Object_0);
    object(v)
}

/// The result text of a tool call: the JSON text of its value, or of
/// `{"error": message}` when it failed.
pub fn tool_outcome_text(outcome: &Result<Json, SpiderError>) -> (r: String)
    ensures
        outcome is Ok ==> r@ == json_text_of(outcome->Ok_0@),
        outcome is Err ==> r@ == json_text_of(error_value(crate::types::error_text(outcome->Err_0))),
{
    match outcome {
        Ok(v) => json_text(v),
        Err(e) => json_text(&error_object(e.message().as_str())),
    }
}

/// The result text of a call to a tool that no connected server offers:
/// the JSON text of `{"error": "Tool <name> not found in any connected MCP server"}`.
pub fn missing_tool_text(tool_name: &str) -> (r: String)
    ensures
        r@ == json_text_of(error_value("Tool "@ + tool_name@ + " not found in any connected MCP server"@)),
{
    let message = cat3("Tool ", tool_name, " not found in any connected MCP server");
    json_text(&error_object(message.as_str()))
}

/// The JSON form of tool results: `[{"tool_call_id": .., "result": ..}, ..]`.
pub open spec fn result_value(r: ToolResult) -> JsonV {
    JsonV::Object(seq![("tool_call_id"@, JsonV::Str(r.tool_call_id@)), ("result"@, JsonV::Str(r.result@))])
}

pub open spec fn results_value(results: Seq<ToolResult>) -> JsonV {
    JsonV::Array(Seq::new(results.len(), |i: int| result_value(results[i])))
}

fn results_json(results: &Vec<ToolResult>) -> (r: Json)
    ensures
        r@ == results_value(results@),
{
    let mut items: Vec<Json> = Vec::new();
    let mut i: usize = 0;
    while i < results.len()
        invariant
            0 <= i <= results@.len(),
            items@.len() == i,
            forall|k: int| 0 <= k < i ==> (#[trigger] items@[k])@ == result_value(results@[k]),
        decreases results@.len() - i,
    {
        let mut v: Vec<(String, Json)> = Vec::new();
        v.push(entry("tool_call_id", jstr(results[i].tool_call_id.as_str())));
        v.push(entry("result", jstr(results[i].result.as_str())));
        proof { lemma_view_entries(v@); }
        assert(view_entries(v@) =~= result_value(results@[i as int])->Object_0);
        items.push(object(v));
        i = i + 1;
    }
    proof { lemma_view_items(items@); }
    assert(view_items(items@) =~= results_value(results@)->Array_0);
    Json::Array(items)
}

/// Classifies a failure of the LLM provider: a rejected credential
/// (`401`, `unauthorized`, `api key`) or a rate limit (`429`, `rate limit`)
/// is terminal; anything else is passed on with the provider's message.
pub fn classify_llm_error(provider: &str, error: &str) -> (r: SpiderError)
    ensures
        (occurs_in("401"@, error@) || occurs_in("unauthorized"@, error@) || occurs_in("api key"@, error@))
            ==> r is UpstreamAuth && r->UpstreamAuth_0@ == provider@,
        !(occurs_in("401"@, error@) || occurs_in("unauthorized"@, error@) || occurs_in("api key"@, error@))
            && (occurs_in("429"@, error@) || occurs_in("rate limit"@, error@))
            ==> r is RateLimited && r->RateLimited_0@ == provider@,
        !(occurs_in("401"@, error@) || occurs_in("unauthorized"@, error@) || occurs_in("api key"@, error@))
            && !(occurs_in("429"@, error@) || occurs_in("rate limit"@, error@))
            ==> r is Upstream && r->Upstream_0@ == provider@ && r->Upstream_1@ == error@,
{
    if contains_text_of(error, "401") || contains_text_of(error, "unauthorized") || contains_text_of(error, "api key") {
        SpiderError::UpstreamAuth(copy_str(provider))
    } else if contains_text_of(error, "429") || contains_text_of(error, "rate limit") {
        SpiderError::RateLimited(copy_str(provider))
    } else {
        SpiderError::Upstream(copy_str(provider), copy_str(error))
    }
}

impl SpiderState {
    /// The key stored for `provider`, in its at-rest form.
    pub fn stored_key_of(&self, provider: &str) -> (r: Option<&String>)
        ensures
            r is Some == stored_key(self.api_keys@, provider@) is Some,
            r is Some ==> r->0@ == stored_key(self.api_keys@, provider@)->0,
    {
        let ghost ks = self.api_keys@;
        assert(ks.skip(0) =~= ks);
        let mut i: usize = 0;
        while i < self.api_keys.len()
            invariant
                0 <= i <= ks.len(),
                ks == self.api_keys@,
                stored_key(ks, provider@) == stored_key(ks.skip(i as int), provider@),
            decreases ks.len() - i,
        {
            assert(ks.skip(i as int).drop_first() =~= ks.skip(i + 1));
            assert(ks.skip(i as int)[0] == ks[i as int]);
            if str_eq(self.api_keys[i].0.as_str(), provider) {
                return Some(&self.api_keys[i].1.key);
            }
            i = i + 1;
        }
        None
    }

    /// The credential for a chat (see [`credential_for`]).
    pub fn resolve_llm_key(&self, api_key: &str, provider: &str) -> (r: Result<String, SpiderError>)
        ensures
            credential_for(self.api_keys@, api_key@, provider@) is Some ==> r is Ok && r->Ok_0@ == credential_for(self.api_keys@, api_key@, provider@)->0,
            credential_for(self.api_keys@, api_key@, provider@) is None && is_oauth_key(api_key@) ==>
                r is Err && r->Err_0 is OAuthProviderMismatch && r->Err_0->OAuthProviderMismatch_0@ == provider@,
            credential_for(self.api_keys@, api_key@, provider@) is None && !is_oauth_key(api_key@) ==>
                r is Err && r->Err_0 is NoProviderKey && r->Err_0->NoProviderKey_0@ == provider@,
    {
        if is_oauth_token(api_key) {
            if str_eq(provider, "anthropic") || str_eq(provider, "anthropic-oauth") {
                return Ok(copy_str(api_key));
            }
            return Err(SpiderError::OAuthProviderMismatch(copy_str(provider)));
        }
        if str_eq(provider, "anthropic") {
            match self.stored_key_of("anthropic-oauth") {
                Some(k) => {
                    let plain = decrypt_key(k.as_str());
                    if is_oauth_token(plain.as_str()) {
                        return Ok(plain);
                    }
                },
                None => {},
            }
            match self.stored_key_of("anthropic") {
                Some(k) => Ok(decrypt_key(k.as_str())),
                None => Err(SpiderError::NoProviderKey(copy_str(provider))),
            }
        } else {
            match self.stored_key_of(provider) {
                Some(k) => Ok(decrypt_key(k.as_str())),
                None => Err(SpiderError::NoProviderKey(copy_str(provider))),
            }
        }
    }

    /// The tools a chat may use (see [`catalog`]).
    pub fn chat_tools(&self, filter: &Option<Vec<String>>) -> (r: Vec<Tool>)
        ensures
            same_tools(r@, catalog(self.mcp_servers@, *filter)),
    {
        let ghost ss = self.mcp_servers@;
        let mut out: Vec<Tool> = Vec::new();
        let mut i: usize = 0;
        while i < self.mcp_servers.len()
            invariant
                0 <= i <= ss.len(),
                ss == self.mcp_servers@,
                same_tools(out@, catalog(ss.take(i as int), *filter)),
            decreases ss.len() - i,
        {
            assert(ss.take(i + 1).drop_last() =~= ss.take(i as int));
            let server = &self.mcp_servers[i];
            let use_it = server.connected && match filter {
                Some(ids) => strings_contain(ids, server.id.as_str()),
                None => true,
            };
            let ghost base = out@;
            if use_it {
                let mut t: usize = 0;
                while t < server.tools.len()
                    invariant
                        0 <= t <= server.tools@.len(),
                        out@.len() == base.len() + t,
                        out@.take(base.len() as int) == base,
                        forall|k: int| 0 <= k < t ==> crate::mcp::same_tool(#[trigger] out@[base.len() + k], server.tools@[k]),
                    decreases server.tools@.len() - t,
                {
                    out.push(crate::mcp::copy_tool(&server.tools[t]));
                    assert(out@.take(base.len() as int) =~= base);
                    t = t + 1;
                }
                let ghost cat_prev = catalog(ss.take(i as int), *filter);
                assert(catalog(ss.take(i + 1), *filter) == cat_prev + server.tools@);
                assert forall|k: int| 0 <= k < out@.len() implies crate::mcp::same_tool(#[trigger] out@[k], (cat_prev + server.tools@)[k]) by {
                    assert(cat_prev.len() == base.len());
                    if k < base.len() {
                        assert(out@[k] == base[k]);
                        assert(crate::mcp::same_tool(base[k], cat_prev[k]));
                    } else {
                        let t2 = k - base.len();
                        assert(out@[base.len() + t2] == out@[k]);
                        assert(crate::mcp::same_tool(out@[base.len() + t2], server.tools@[t2]));
                    }
                }
            } else {
                assert(catalog(ss.take(i + 1), *filter) =~= catalog(ss.take(i as int), *filter));
            }
            i = i + 1;
        }
        assert(ss.take(i as int) =~= ss);
        out
    }
}

/// The provider a request asks for, or the default.
pub open spec fn requested_provider(request: ChatRequest, default: Seq<char>) -> Seq<char> {
    match request.llm_provider {
        Some(p) => p@,
        None => default,
    }
}

/// Whether a stored conversation has id `id`.
pub open spec fn conversation_taken(convs: Seq<(String, Conversation)>, id: Seq<char>) -> bool {
    exists|i: int| 0 <= i < convs.len() && #[trigger] convs[i].0@ == id
}

impl SpiderState {
    /// Whether a stored conversation has id `id`.
    pub fn conversation_exists(&self, id: &str) -> (r: bool)
        ensures
            r == conversation_taken(self.active_conversations@, id@),
    {
        let mut i: usize = 0;
        while i < self.active_conversations.len()
            invariant
                0 <= i <= self.active_conversations@.len(),
                forall|j: int| 0 <= j < i ==> self.active_conversations@[j].0@ != id@,
            decreases self.active_conversations@.len() - i,
        {
            if str_eq(self.active_conversations[i].0.as_str(), id) {
                return true;
            }
            i = i + 1;
        }
        false
    }

    /// Starts the chat `conversation_id`: the presented key must be valid and
    /// grant `write`, the provider needs a credential, and the id must not be
    /// that of a stored conversation.
    pub fn start_chat_with(&self, request: &ChatRequest, conversation_id: &str) -> (r: Result<ChatSession, SpiderError>)
        ensures
            !self.key_is_valid(request.api_key@) ==> r == Err::<ChatSession, SpiderError>(SpiderError::InvalidApiKey),
            self.key_is_valid(request.api_key@) && !self.key_permits(request.api_key@, "write"@)
                ==> r == Err::<ChatSession, SpiderError>(SpiderError::ChatForbidden),
            self.key_is_valid(request.api_key@) && self.key_permits(request.api_key@, "write"@) ==> {
                let provider = requested_provider(*request, self.default_llm_provider@);
                let credential = credential_for(self.api_keys@, request.api_key@, provider);
                &&& credential is None ==> r is Err && (r->Err_0 is NoProviderKey || r->Err_0 is OAuthProviderMismatch)
                &&& credential is Some && conversation_taken(self.active_conversations@, conversation_id@)
                    ==> r == Err::<ChatSession, SpiderError>(SpiderError::IdCollision)
                &&& credential is Some && !conversation_taken(self.active_conversations@, conversation_id@) ==> {
                    &&& r is Ok
                    &&& r->Ok_0.wf()
                    &&& !r->Ok_0.done
                    &&& r->Ok_0.conversation_id@ == conversation_id@
                    &&& r->Ok_0.provider@ == provider
                    &&& r->Ok_0.credential@ == credential->0
                    &&& r->Ok_0.iteration == 0
                    &&& r->Ok_0.initial_len == request.messages@.len()
                    &&& same_messages(r->Ok_0.working@, request.messages@)
                    &&& same_tools(r->Ok_0.tools@, catalog(self.mcp_servers@, request.mcp_servers))
                }
            },
    {
        if !self.validate_spider_key(request.api_key.as_str()) {
            return Err(SpiderError::InvalidApiKey);
        }
        if !self.validate_permission(request.api_key.as_str(), "write") {
            return Err(SpiderError::ChatForbidden);
        }
        let provider = match &request.llm_provider {
            Some(p) => copy_str(p.as_str()),
            None => copy_str(self.default_llm_provider.as_str()),
        };
        let credential = self.resolve_llm_key(request.api_key.as_str(), provider.as_str())?;
        if self.conversation_exists(conversation_id) {
            return Err(SpiderError::IdCollision);
        }
        let tools = self.chat_tools(&request.mcp_servers);
        let working = copy_messages_from(&request.messages, 0);
        assert(request.messages@.skip(0) =~= request.messages@);
        let servers = match &request.mcp_servers {
            Some(v) => copy_strings(v),
            None => Vec::new(),
        };
        let metadata = match &request.metadata {
            Some(m) => Some(ConversationMetadata {
                start_time: copy_str(m.start_time.as_str()),
                client: copy_str(m.client.as_str()),
                from_stt: m.from_stt,
            }),
            None => None,
        };
        Ok(ChatSession {
            conversation_id: copy_str(conversation_id),
            provider,
            credential,
            model: copy_opt(&request.model),
            tools,
            working,
            initial_len: request.messages.len(),
            iteration: 0,
            done: false,
            mcp_servers: servers,
            metadata,
        })
    }

    /// Starts a chat under a fresh random conversation id (see
    /// [`SpiderState::start_chat_with`]).
    pub fn start_chat(&self, request: &ChatRequest) -> (r: Result<ChatSession, SpiderError>)
        ensures
            !self.key_is_valid(request.api_key@) ==> r == Err::<ChatSession, SpiderError>(SpiderError::InvalidApiKey),
            self.key_is_valid(request.api_key@) && !self.key_permits(request.api_key@, "write"@)
                ==> r == Err::<ChatSession, SpiderError>(SpiderError::ChatForbidden),
            self.key_is_valid(request.api_key@) && self.key_permits(request.api_key@, "write"@) ==> {
                let provider = requested_provider(*request, self.default_llm_provider@);
                let credential = credential_for(self.api_keys@, request.api_key@, provider);
                &&& credential is None ==> r is Err && (r->Err_0 is NoProviderKey || r->Err_0 is OAuthProviderMismatch)
                &&& credential is Some ==> r is Ok || r == Err::<ChatSession, SpiderError>(SpiderError::IdCollision)
                &&& r is Ok ==> {
                    &&& !conversation_taken(self.active_conversations@, r->Ok_0.conversation_id@)
                    &&& r->Ok_0.wf()
                    &&& !r->Ok_0.done
                    &&& is_hyphenated_uuid(r->Ok_0.conversation_id@)
                    &&& r->Ok_0.provider@ == provider
                    &&& r->Ok_0.credential@ == credential->0
                    &&& r->Ok_0.iteration == 0
                    &&& r->Ok_0.initial_len == request.messages@.len()
                    &&& same_messages(r->Ok_0.working@, request.messages@)
                    &&& same_tools(r->Ok_0.tools@, catalog(self.mcp_servers@, request.mcp_servers))
                }
            },
    {
        let mut attempt: u32 = 0;
        loop
            invariant
                attempt <= 3,
            decreases 3 - attempt,
        {
            let id = new_uuid();
            let r = self.start_chat_with(request, id.as_str());
            match r {
                Err(SpiderError::IdCollision) => {
                    if attempt >= 2 {
                        return r;
                    }
                    attempt = attempt + 1;
                },
                _ => {
                    return r;
                },
            }
        }
    }

    /// The first connected server that offers `tool_name`.
    pub fn server_for_tool(&self, tool_name: &str) -> (r: Option<String>)
        ensures
            r is Some ==> exists|i: int| 0 <= i < self.mcp_servers@.len() && #[trigger] self.mcp_servers@[i].id@ == r->0@
                && self.mcp_servers@[i].connected && offers_tool(self.mcp_servers@[i], tool_name@),
            r is None ==> forall|i: int| 0 <= i < self.mcp_servers@.len() ==> !((#[trigger] self.mcp_servers@[i]).connected && offers_tool(self.mcp_servers@[i], tool_name@)),
    {
        let mut i: usize = 0;
        while i < self.mcp_servers.len()
            invariant
                0 <= i <= self.mcp_servers@.len(),
                forall|k: int| 0 <= k < i ==> !((#[trigger] self.mcp_servers@[k]).connected && offers_tool(self.mcp_servers@[k], tool_name@)),
            decreases self.mcp_servers@.len() - i,
        {
            let server = &self.mcp_servers[i];
            if server.connected {
                let mut t: usize = 0;
                while t < server.tools.len()
                    invariant
                        0 <= t <= server.tools@.len(),
                        0 <= i < self.mcp_servers@.len(),
                        *server == self.mcp_servers@[i as int],
                        server.connected,
                        forall|k: int| 0 <= k < t ==> #[trigger] server.tools@[k].name@ != tool_name@,
                    decreases server.tools@.len() - t,
                {
                    if str_eq(server.tools[t].name.as_str(), tool_name) {
                        assert(offers_tool(self.mcp_servers@[i as int], tool_name@));
                        return Some(copy_str(server.id.as_str()));
                    }
                    t = t + 1;
                }
            }
            i = i + 1;
        }
        None
    }

    /// Keeps a finished conversation in the in-memory index.
    pub fn commit_conversation(&mut self, conversation: Conversation)
        ensures
            final(self).active_conversations@.len() == old(self).active_conversations@.len() + 1,
            final(self).active_conversations@.drop_last() == old(self).active_conversations@,
            final(self).active_conversations@.last().0@ == conversation.id@,
            final(self).active_conversations@.last().1 == conversation,
            final(self).mcp_servers == old(self).mcp_servers,
            final(self).pending_mcp_requests == old(self).pending_mcp_requests,
            final(self).ws_connections == old(self).ws_connections,
    {
        let id = copy_str(conversation.id.as_str());
        self.active_conversations.push((id, conversation));
    }
}

impl ChatSession {
    /// Begins the next iteration unless the chat was cancelled; returns its
    /// number. The counter stops at `u32::MAX`.
    pub fn next_iteration(&mut self, cancelled: bool) -> (r: Result<u32, SpiderError>)
        ensures
            same_setup(*final(self), *old(self)),
            cancelled ==> r == Err::<u32, SpiderError>(SpiderError::Cancelled) && *final(self) == *old(self),
            !cancelled ==> {
                &&& r is Ok
                &&& old(self).iteration < u32::MAX ==> r->Ok_0 == old(self).iteration + 1
                &&& old(self).iteration == u32::MAX ==> r->Ok_0 == u32::MAX
                &&& final(self).iteration == r->Ok_0
                &&& final(self).working == old(self).working
                &&& final(self).initial_len == old(self).initial_len
                &&& final(self).done == old(self).done
            },
    {
        if cancelled {
            return Err(SpiderError::Cancelled);
        }
        if self.iteration < u32::MAX {
            self.iteration = self.iteration + 1;
        }
        Ok(self.iteration)
    }

    /// Records an LLM reply as an assistant turn. A reply with tool calls
    /// starts a tool round; one without is final.
    pub fn on_llm_reply(&mut self, reply: Message) -> (r: Result<LoopStep, SpiderError>)
        requires
            old(self).wf(),
            !old(self).done,
        ensures
            same_setup(*final(self), *old(self)),
            final(self).wf(),
            final(self).initial_len == old(self).initial_len,
            final(self).working@.len() == old(self).working@.len() + 1,
            final(self).working@.drop_last() == old(self).working@,
            final(self).working@.last().role@ == "assistant"@,
            final(self).working@.last().content@ == reply.content@,
            final(self).working@.last().tool_calls_json == reply.tool_calls_json,
            final(self).working@.last().tool_results_json == reply.tool_results_json,
            reply.tool_calls_json is None ==> r is Ok && r->Ok_0 is Finish && final(self).done,
            reply.tool_calls_json is Some ==> !final(self).done && {
                &&& calls_well_formed(reply.tool_calls_json->0@) ==> {
                    &&& r is Ok
                    &&& r->Ok_0 is RunTools
                    &&& r->Ok_0->RunTools_0.wf()
                    &&& r->Ok_0->RunTools_0.results@.len() == 0
                    &&& calls_of(json_parsed(reply.tool_calls_json->0@)->0->Array_0, r->Ok_0->RunTools_0.calls@)
                }
                &&& !calls_well_formed(reply.tool_calls_json->0@) ==> r == Err::<LoopStep, SpiderError>(SpiderError::MalformedToolCalls)
            },
    {
        let step = match &reply.tool_calls_json {
            Some(text) => match parse_tool_calls(text.as_str()) {
                Ok(calls) => Ok(LoopStep::RunTools(ToolRound { calls, results: Vec::new() })),
                Err(e) => Err(e),
            },
            None => Ok(LoopStep::Finish),
        };
        let finished = reply.tool_calls_json.is_none();
        let turn = Message {
            role: copy_str("assistant"),
            content: reply.content,
            tool_calls_json: reply.tool_calls_json,
            tool_results_json: reply.tool_results_json,
            timestamp: reply.timestamp,
        };
        self.working.push(turn);
        self.done = finished;
        proof {
            reveal_strlit("assistant");
            assert forall|k: int| self.initial_len <= k < self.working@.len() implies added_role(#[trigger] self.working@[k].role@) by {
                if k < self.working@.len() - 1 {
                    assert(self.working@[k] == old(self).working@[k]);
                }
            }
        }
        step
    }

    /// Records a complete tool round as a `tool` turn carrying the results,
    /// result `i` answering call `i`. Returns a copy of the turn.
    pub fn record_tool_round(&mut self, round: &ToolRound, now: u64) -> (r: Option<Message>)
        requires
            old(self).wf(),
            !old(self).done,
            round.wf(),
        ensures
            same_setup(*final(self), *old(self)),
            final(self).wf(),
            !final(self).done,
            final(self).initial_len == old(self).initial_len,
            round.results@.len() < round.calls@.len() ==> r is None && *final(self) == *old(self),
            round.results@.len() == round.calls@.len() ==> {
                &&& r is Some
                &&& final(self).working@.len() == old(self).working@.len() + 1
                &&& final(self).working@.drop_last() == old(self).working@
                &&& final(self).working@.last().role@ == "tool"@
                &&& final(self).working@.last().tool_calls_json is None
                &&& final(self).working@.last().tool_results_json is Some
                &&& final(self).working@.last().tool_results_json->0@ == json_text_of(results_value(round.results@))
                &&& same_message(r->0, final(self).working@.last())
            },
    {
        if !round.is_complete() {
            return None;
        }
        let text = json_text(&results_json(&round.results));
        let turn = Message {
            role: copy_str("tool"),
            content: copy_str("Tool execution results"),
            tool_calls_json: None,
            tool_results_json: Some(text),
            timestamp: now,
        };
        let copy = copy_message(&turn);
        self.working.push(turn);
        proof {
            reveal_strlit("tool");
            assert forall|k: int| self.initial_len <= k < self.working@.len() implies added_role(#[trigger] self.working@[k].role@) by {
                if k < self.working@.len() - 1 {
                    assert(self.working@[k] == old(self).working@[k]);
                }
            }
        }
        Some(copy)
    }

    /// Ends a finished chat: the response is the final reply, and the
    /// conversation holds every turn. Nothing is returned before the final
    /// reply has been recorded.
    pub fn finish(&self, start_time: &str) -> (r: Option<(ChatResponse, Conversation)>)
        requires
            self.wf(),
        ensures
            !self.done ==> r is None,
            self.done ==> {
                let (resp, conv) = r->0;
                &&& r is Some
                &&& same_message(resp.response, self.working@.last())
                &&& same_messages(resp.all_messages@, self.working@.skip(self.initial_len as int))
                &&& resp.all_messages@.len() > 0
                &&& same_message(resp.response, resp.all_messages@.last())
                &&& forall|k: int| 0 <= k < resp.all_messages@.len() ==> added_role(#[trigger] resp.all_messages@[k].role@)
                &&& resp.conversation_id@ == self.conversation_id@
                &&& conv.id@ == self.conversation_id@
                &&& same_messages(conv.messages@, self.working@)
                &&& conv.llm_provider@ == self.provider@
            },
    {
        if !self.done {
            return None;
        }
        let all = copy_messages_from(&self.working, self.initial_len);
        let response = copy_message(&self.working[self.working.len() - 1]);
        let messages = copy_messages_from(&self.working, 0);
        assert(self.working@.skip(0) =~= self.working@);
        let metadata = match &self.metadata {
            Some(m) => ConversationMetadata {
                start_time: copy_str(m.start_time.as_str()),
                client: copy_str(m.client.as_str()),
                from_stt: m.from_stt,
            },
            None => ConversationMetadata {
                start_time: copy_str(start_time),
                client: copy_str("unknown"),
                from_stt: false,
            },
        };
        let conversation = Conversation {
            id: copy_str(self.conversation_id.as_str()),
            messages,
            metadata,
            llm_provider: copy_str(self.provider.as_str()),
            mcp_servers: copy_strings(&self.mcp_servers),
        };
        proof {
            let tail = self.working@.skip(self.initial_len as int);
            assert forall|k: int| 0 <= k < all@.len() implies added_role(#[trigger] all@[k].role@) by {
                assert(tail[k] == self.working@[self.initial_len + k]);
            }
            assert(tail[tail.len() - 1] == self.working@.last());
        }
        let resp = ChatResponse {
            conversation_id: copy_str(self.conversation_id.as_str()),
            response,
            all_messages: all,
        };
        Some((resp, conversation))
    }

    /// [`ChatSession::finish`] with the current time as the start time of a
    /// conversation that carries no metadata.
    pub fn finish_now(&self) -> (r: Option<(ChatResponse, Conversation)>)
        requires
            self.wf(),
        ensures
            !self.done ==> r is None,
            self.done ==> {
                let (resp, conv) = r->0;
                &&& r is Some
                &&& same_message(resp.response, self.working@.last())
                &&& same_messages(resp.all_messages@, self.working@.skip(self.initial_len as int))
                &&& resp.all_messages@.len() > 0
                &&& same_message(resp.response, resp.all_messages@.last())
                &&& forall|k: int| 0 <= k < resp.all_messages@.len() ==> added_role(#[trigger] resp.all_messages@[k].role@)
                &&& resp.conversation_id@ == self.conversation_id@
                &&& conv.id@ == self.conversation_id@
                &&& same_messages(conv.messages@, self.working@)
                &&& conv.llm_provider@ == self.provider@
            },
    {
        let start = now_rfc3339();
        self.finish(start.as_str())
    }
}

} // verus!
