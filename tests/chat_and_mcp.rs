use spider::agent::{classify_llm_error, missing_tool_text, tool_arguments, tool_outcome_text, ChatRequest, LoopStep};
use spider::gateway::ServerFrame;
use spider::json::{json_text, parse_json, Json};
use spider::mcp::{discover_mcp_tools, hypergrid_probe_ok, hypergrid_reply, ConnectStep, ToolDispatch};
use spider::provider::{assemble_reply, provider_turns, ProviderRole, ResponseBlock};
use spider::store::{snapshot_file_name, Reconnect};
use spider::types::{Message, SpiderApiKey, SpiderError, SpiderState, Tool, TransportConfig};

fn user(text: &str) -> Message {
    Message { role: "user".to_string(), content: text.to_string(), tool_calls_json: None, tool_results_json: None, timestamp: 1 }
}

fn ws_transport() -> TransportConfig {
    TransportConfig {
        transport_type: "websocket".to_string(),
        command: None,
        args: None,
        url: Some("ws://mcp.local:1".to_string()),
        hypergrid_token: None,
        hypergrid_client_id: None,
        hypergrid_node: None,
    }
}

fn echo_tool() -> Tool {
    Tool {
        name: "echo".to_string(),
        description: "Echo text".to_string(),
        parameters: r#"{"type":"object","properties":{"text":{"type":"string"}}}"#.to_string(),
        input_schema_json: None,
    }
}

fn state_with_key() -> SpiderState {
    let mut state = SpiderState::default();
    state.set_startup_defaults();
    state.spider_api_keys.push(SpiderApiKey {
        key: "sp_user".to_string(),
        name: "User".to_string(),
        permissions: vec!["read".to_string(), "write".to_string(), "chat".to_string()],
        created_at: 1,
    });
    state.set_api_key_at("anthropic", "sk-ant-api03-secret", "sp_user", 2).unwrap();
    state
}

fn request(messages: Vec<Message>) -> ChatRequest {
    ChatRequest { api_key: "sp_user".to_string(), messages, llm_provider: None, model: None, mcp_servers: None, metadata: None }
}

/// A connected echo server on channel 1000, reached through the real handshake.
fn connect_echo(state: &mut SpiderState) -> String {
    let id = state.add_mcp_server_with("echo", ws_transport(), "sp_user", "srv-1").unwrap();
    let step = state.connect_mcp_server(&id, "sp_user").unwrap();
    let (channel, name) = match step {
        ConnectStep::OpenWebSocket { channel_id, url, server_name } => {
            assert_eq!(url, "ws://mcp.local:1");
            (channel_id, server_name)
        }
        _ => panic!("expected a WebSocket"),
    };
    assert_eq!(channel, 1000);
    let init = state.ws_opened(&id, &name, channel);
    assert_eq!(init.get_str("id"), Some("init_1000"));
    assert_eq!(init.get_str("method"), Some("initialize"));
    let frames = state.handle_mcp_message(channel, &parse_json(r#"{"jsonrpc":"2.0","id":"init_1000","result":{}}"#).unwrap());
    assert_eq!(frames.len(), 2);
    assert_eq!(frames[0].get_str("method"), Some("notifications/initialized"));
    assert_eq!(frames[1].get_str("id"), Some("tools_1000"));
    assert!(!state.mcp_servers[0].connected);
    let listing = r#"{"jsonrpc":"2.0","id":"tools_1000","result":{"tools":[{"name":"echo","description":"Echo text","inputSchema":{"type":"object","properties":{"text":{"type":"string"}}}},{"name":"nameless"}]}}"#;
    state.handle_mcp_message(channel, &parse_json(listing).unwrap());
    assert!(state.mcp_servers[0].connected);
    assert_eq!(state.mcp_servers[0].tools.len(), 1);
    assert_eq!(state.mcp_servers[0].tools[0].name, "echo");
    assert!(state.pending_mcp_requests.is_empty());
    id
}

#[test]
fn agentic_single_turn() {
    let mut state = state_with_key();
    let mut session = state.start_chat_with(&request(vec![user("Hello")]), "conv-1").unwrap();
    assert_eq!(session.credential, "sk-ant-api03-secret");
    assert!(session.tools.is_empty());
    assert_eq!(session.next_iteration(false).unwrap(), 1);
    let reply = assemble_reply(&vec![ResponseBlock::Text("Hi".to_string())], 5);
    assert!(matches!(session.on_llm_reply(reply).unwrap(), LoopStep::Finish));
    let (response, conversation) = session.finish("2024-01-01T00:00:00Z").unwrap();
    assert_eq!(response.response.content, "Hi");
    assert_eq!(response.all_messages.len(), 1);
    assert_eq!(response.conversation_id, "conv-1");
    assert_eq!(conversation.messages.len(), 2);
    assert_eq!(conversation.metadata.client, "unknown");
    assert_eq!(session.iteration, 1);
    state.commit_conversation(conversation);
    assert_eq!(state.active_conversations.len(), 1);
    let listed = state.list_conversations(None, None, None, "sp_user").unwrap();
    assert_eq!(listed.len(), 1);
    assert_eq!(snapshot_file_name("20240101-000000", "conv-1"), "20240101-000000-conv-1.json");
}

#[test]
fn two_turn_tool_use() {
    let mut state = state_with_key();
    let server_id = connect_echo(&mut state);
    let mut session = state.start_chat_with(&request(vec![user("say x")]), "conv-2").unwrap();
    assert_eq!(session.tools.len(), 1);

    session.next_iteration(false).unwrap();
    let calls = r#"[{"id":"t1","tool_name":"echo","parameters":"{\"text\":\"x\"}"}]"#;
    let reply = Message { role: "assistant".to_string(), content: String::new(), tool_calls_json: Some(calls.to_string()), tool_results_json: None, timestamp: 2 };
    let mut round = match session.on_llm_reply(reply).unwrap() {
        LoopStep::RunTools(round) => round,
        LoopStep::Finish => panic!("expected tools"),
    };
    let call = round.next_call().unwrap();
    assert_eq!(call.id, "t1");
    let tool_name = call.tool_name.clone();
    let args = tool_arguments(&call.parameters);
    assert_eq!(state.server_for_tool(&tool_name), Some(server_id.clone()));
    let dispatch = state.begin_tool_call_with(&server_id, &tool_name, &args, None, "u-1").unwrap();
    let request_id = match dispatch {
        ToolDispatch::WebSocket { channel_id, request_id, frame } => {
            assert_eq!(channel_id, 1000);
            assert_eq!(frame.get_str("method"), Some("tools/call"));
            request_id
        }
        _ => panic!("expected a WebSocket call"),
    };
    assert_eq!(request_id, "tool_1000_u-1");
    assert!(state.take_tool_response(&request_id).is_none());
    let response = format!(r#"{{"jsonrpc":"2.0","id":"{}","result":{{"content":[{{"type":"text","text":"x"}}]}}}}"#, request_id);
    state.handle_mcp_message(1000, &parse_json(&response).unwrap());
    let value = state.take_tool_response(&request_id).unwrap();
    assert!(state.tool_responses.is_empty());
    assert!(state.pending_mcp_requests.is_empty());
    let outcome = tool_outcome_text(&Ok(value));
    assert!(outcome.contains("\"x\""));
    round.complete_call(outcome);
    assert!(round.is_complete());
    let tool_turn = session.record_tool_round(&round, 3).unwrap();
    assert_eq!(tool_turn.role, "tool");
    let results: serde_json::Value = serde_json::from_str(tool_turn.tool_results_json.as_ref().unwrap()).unwrap();
    assert_eq!(results.as_array().unwrap().len(), 1);
    assert_eq!(results[0]["tool_call_id"], "t1");

    assert_eq!(session.next_iteration(false).unwrap(), 2);
    let done = assemble_reply(&vec![ResponseBlock::Text("done".to_string())], 4);
    assert!(matches!(session.on_llm_reply(done).unwrap(), LoopStep::Finish));
    let (resp, _) = session.finish("t").unwrap();
    assert_eq!(resp.all_messages.len(), 3);
    let roles: Vec<&str> = resp.all_messages.iter().map(|m| m.role.as_str()).collect();
    assert_eq!(roles, vec!["assistant", "tool", "assistant"]);
    assert_eq!(resp.response.content, "done");
    assert!(resp.all_messages[1].tool_results_json.as_ref().unwrap().contains("x"));
}

#[test]
fn cancellation_between_iterations() {
    let mut state = state_with_key();
    let mut session = state.start_chat_with(&request(vec![user("Hello")]), "conv-3").unwrap();
    let frame = state.begin_streaming(7);
    assert!(matches!(frame, ServerFrame::Status { ref status, .. } if status == "processing"));
    assert_eq!(session.next_iteration(state.is_cancelled(7).unwrap()).unwrap(), 1);
    assert!(state.cancel_chat(8).is_none());
    let cancelled = state.cancel_chat(7).unwrap();
    assert!(matches!(cancelled, ServerFrame::Status { ref status, .. } if status == "cancelled"));
    match session.next_iteration(state.is_cancelled(7).unwrap()) {
        Err(e) => assert_eq!(e.message(), "Request cancelled by user"),
        Ok(_) => panic!("expected cancellation"),
    }
    state.end_streaming(7);
    assert!(state.is_cancelled(7).is_none());
    assert!(session.finish("t").is_none());
    assert!(state.active_conversations.is_empty());
}

#[test]
fn tool_timeout_becomes_an_error_result() {
    let mut state = state_with_key();
    let server_id = connect_echo(&mut state);
    let args = tool_arguments(r#"{"text":"x"}"#);
    let request_id = match state.begin_tool_call_with(&server_id, "echo", &args, None, "late").unwrap() {
        ToolDispatch::WebSocket { request_id, .. } => request_id,
        _ => panic!("expected a WebSocket call"),
    };
    assert_eq!(state.pending_mcp_requests.len(), 1);
    let err = state.abandon_tool_call(&request_id, "echo");
    assert!(state.pending_mcp_requests.is_empty());
    let text = tool_outcome_text(&Err(err));
    assert_eq!(text, r#"{"error":"Tool call echo timed out after 60 seconds"}"#);
    let late = format!(r#"{{"id":"{}","result":{{}}}}"#, request_id);
    state.handle_mcp_message(1000, &parse_json(&late).unwrap());
    assert!(state.tool_responses.is_empty());
}

#[test]
fn reconnect_backoff_then_success() {
    let mut plan = Reconnect::new();
    assert_eq!(plan.after_failure(), Some(1000));
    assert_eq!(plan.after_failure(), Some(2000));
    assert_eq!(plan.attempt, 3);
    let mut state = state_with_key();
    connect_echo(&mut state);
    assert!(state.mcp_servers[0].connected);
    assert_eq!(plan.after_failure(), None);
    let mut long = Reconnect { attempt: 1, delay_ms: 8000 };
    assert_eq!(long.after_failure(), Some(8000));
    assert_eq!(long.delay_ms, 10000);
}

#[test]
fn closing_a_connection_purges_its_requests() {
    let mut state = state_with_key();
    let server_id = connect_echo(&mut state);
    let args = tool_arguments("{}");
    state.begin_tool_call_with(&server_id, "echo", &args, None, "a").unwrap();
    assert_eq!(state.pending_mcp_requests.len(), 1);
    state.on_ws_close(1000);
    assert!(state.pending_mcp_requests.is_empty());
    assert!(state.ws_connections.is_empty());
    assert!(!state.mcp_servers[0].connected);
    assert!(matches!(state.begin_tool_call_with(&server_id, "echo", &args, None, "b"), Err(SpiderError::ServerUnavailable(_))));
}

#[test]
fn disconnect_and_remove_servers() {
    let mut state = state_with_key();
    let server_id = connect_echo(&mut state);
    state.begin_tool_call_with(&server_id, "echo", &tool_arguments("{}"), None, "a").unwrap();
    let (msg, channel) = state.disconnect_mcp_server(&server_id, "sp_user").unwrap();
    assert_eq!(msg, "Disconnected from MCP server echo");
    assert_eq!(channel, vec![1000]);
    assert!(state.pending_mcp_requests.is_empty());
    let (msg, _) = state.remove_mcp_server(&server_id, "sp_user").unwrap();
    assert_eq!(msg, "MCP server srv-1 removed");
    assert!(state.mcp_servers.is_empty());
    match state.remove_mcp_server(&server_id, "sp_user") {
        Err(e) => assert_eq!(e.message(), "MCP server srv-1 not found"),
        Ok(_) => panic!("removed twice"),
    }
}

#[test]
fn tools_on_unknown_servers_are_reported() {
    assert_eq!(missing_tool_text("nope"), r#"{"error":"Tool nope not found in any connected MCP server"}"#);
    let state = state_with_key();
    assert_eq!(state.server_for_tool("nope"), None);
}

#[test]
fn http_and_other_transports() {
    let mut state = state_with_key();
    let mut t = ws_transport();
    t.transport_type = "http".to_string();
    let id = state.add_mcp_server_with("web", t, "sp_user", "h1").unwrap();
    match state.connect_mcp_server(&id, "sp_user").unwrap() {
        ConnectStep::Connected(msg) => assert_eq!(msg, "Connected to MCP server web with 1 tools"),
        _ => panic!("expected connected"),
    }
    match state.begin_tool_call_with(&id, "http_tool", &tool_arguments(r#"{"q":1}"#), None, "u").unwrap() {
        ToolDispatch::Done(v) => assert_eq!(v.get_str("result"), Some(r#"HTTP execution of http_tool with params: {"q":1}"#)),
        _ => panic!("expected a result"),
    }
    assert!(matches!(discover_mcp_tools("carrier-pigeon"), Err(SpiderError::UnsupportedTransport(_))));
    assert_eq!(discover_mcp_tools("stdio").unwrap().len(), 2);
}

#[test]
fn hypergrid_tools_flow() {
    let mut state = state_with_key();
    assert!(state.ensure_hypergrid_server());
    assert!(!state.ensure_hypergrid_server());
    let id = "hypergrid_default";
    let search = tool_arguments(r#"{"query":"weather"}"#);
    assert!(matches!(state.begin_tool_call_with(id, "hypergrid_search", &search, None, "u"), Err(SpiderError::HypergridNotConfigured)));
    let creds = tool_arguments(r#"{"url":"http://h/api","token":"tok","client_id":"cid","node":"n.os"}"#);
    let (url, token, client_id, node) = match state.begin_tool_call_with(id, "hypergrid_authorize", &creds, None, "u").unwrap() {
        ToolDispatch::HypergridAuthorize { url, token, client_id, node } => (url, token, client_id, node),
        _ => panic!("expected authorize"),
    };
    assert!(hypergrid_probe_ok(404));
    assert!(!hypergrid_probe_ok(500));
    let result = state.hypergrid_authorized(id, &url, &token, &client_id, &node);
    assert!(json_text(&result).contains("Successfully authorized"));
    match state.begin_tool_call_with(id, "hypergrid_search", &search, None, "u").unwrap() {
        ToolDispatch::HypergridPost { url, body, .. } => {
            assert_eq!(url, "http://h/api");
            assert_eq!(json_text(&body), r#"{"request":{"SearchRegistry":"weather"}}"#);
        }
        _ => panic!("expected a post"),
    }
    let call = tool_arguments(r#"{"providerId":"p","providerName":"P","callArgs":[["a","1"],["bad"],["b","2"]]}"#);
    match state.begin_tool_call_with(id, "hypergrid_call", &call, None, "u").unwrap() {
        ToolDispatch::HypergridPost { body, .. } => {
            let v: serde_json::Value = serde_json::from_str(&json_text(&body)).unwrap();
            assert_eq!(v["request"]["CallProvider"]["callArgs"].to_string(), r#"[["a","1"],["b","2"]]"#);
        }
        _ => panic!("expected a post"),
    }
    assert!(matches!(state.begin_tool_call_with(id, "hypergrid_call", &tool_arguments("{}"), None, "u"), Err(SpiderError::MissingParameter(_))));
    let ok = hypergrid_reply(200, "body").unwrap();
    assert_eq!(json_text(&ok), r#"{"content":[{"text":"body","type":"text"}]}"#);
    assert!(hypergrid_reply(399, "fine").is_ok());
    assert!(hypergrid_reply(404, "none").is_err());
    assert!(hypergrid_reply(400, "bad").is_err());
}

#[test]
fn chat_authorization_and_credentials() {
    let state = state_with_key();
    assert!(matches!(state.start_chat_with(&ChatRequest { api_key: "nope".to_string(), ..request(vec![]) }, "c"), Err(SpiderError::InvalidApiKey)));
    let mut reader = state_with_key();
    reader.spider_api_keys.push(SpiderApiKey { key: "sp_r".to_string(), name: "r".to_string(), permissions: vec!["read".to_string()], created_at: 0 });
    assert!(matches!(reader.start_chat_with(&ChatRequest { api_key: "sp_r".to_string(), ..request(vec![]) }, "c"), Err(SpiderError::ChatForbidden)));
    let oauth = ChatRequest { api_key: "sk-ant-oat01-abc".to_string(), llm_provider: Some("openai".to_string()), ..request(vec![]) };
    assert!(matches!(state.start_chat_with(&oauth, "c"), Err(SpiderError::OAuthProviderMismatch(_))));
    let direct = ChatRequest { api_key: "sk-ant-oat01-abc".to_string(), ..request(vec![]) };
    assert_eq!(state.start_chat_with(&direct, "c").unwrap().credential, "sk-ant-oat01-abc");
    let other = ChatRequest { llm_provider: Some("openai".to_string()), ..request(vec![]) };
    match state.start_chat_with(&other, "c") {
        Err(e) => assert_eq!(e.message(), "No API key found for provider: openai"),
        Ok(_) => panic!("no key stored"),
    }
    let mut with_oauth = state_with_key();
    with_oauth.set_api_key_at("anthropic-oauth", "sk-ant-oat02-stored", "sp_user", 3).unwrap();
    assert_eq!(with_oauth.resolve_llm_key("sp_user", "anthropic").unwrap(), "sk-ant-oat02-stored");
}

#[test]
fn llm_errors_are_classified() {
    assert_eq!(classify_llm_error("anthropic", "HTTP 401").message(), "Authentication failed for anthropic: Please check your API key");
    assert_eq!(classify_llm_error("anthropic", "429 Too Many").message(), "Rate limited by anthropic: Please try again later");
    assert_eq!(classify_llm_error("anthropic", "boom").message(), "Failed to get response from anthropic: boom");
}

#[test]
fn provider_turns_and_replies() {
    let results = Message {
        role: "tool".to_string(),
        content: "Tool execution results".to_string(),
        tool_calls_json: None,
        tool_results_json: Some(r#"[{"tool_call_id":"t1","result":"ok"}]"#.to_string()),
        timestamp: 0,
    };
    let calls = Message { role: "assistant".to_string(), content: "using".to_string(), tool_calls_json: Some("[]".to_string()), tool_results_json: None, timestamp: 0 };
    let turns = provider_turns(&vec![user("hi"), calls, results]);
    assert!(matches!(turns[0].role, ProviderRole::User));
    assert!(matches!(turns[1].role, ProviderRole::Assistant));
    assert!(matches!(turns[2].role, ProviderRole::User));
    assert_eq!(turns[1].text, "using\n[Tool calls pending]");
    assert_eq!(turns[2].text, "Tool execution results:\n- Tool call t1: ok\n");

    let input = parse_json(r#"{"text":"x"}"#).unwrap();
    let reply = assemble_reply(
        &vec![
            ResponseBlock::Text("a".to_string()),
            ResponseBlock::ToolUse { id: "t9".to_string(), name: "echo".to_string(), input },
            ResponseBlock::Text("b".to_string()),
        ],
        7,
    );
    assert_eq!(reply.role, "assistant");
    assert_eq!(reply.content, "a b");
    let v: serde_json::Value = serde_json::from_str(reply.tool_calls_json.as_ref().unwrap()).unwrap();
    assert_eq!(v[0]["id"], "t9");
    assert_eq!(v[0]["tool_name"], "echo");
    assert_eq!(v[0]["parameters"], r#"{"text":"x"}"#);
    let plain = assemble_reply(&vec![], 1);
    assert!(plain.tool_calls_json.is_none());
    assert_eq!(plain.content, "");
}

#[test]
fn provider_tools_carry_transformed_schemas() {
    let p = spider::provider::AnthropicProvider::new("k".to_string(), false);
    let t = Tool {
        name: "t".to_string(),
        description: "d".to_string(),
        parameters: "{}".to_string(),
        input_schema_json: Some(r#"{"properties":{"a":{"type":"string","title":"A"}},"required":["a",3]}"#.to_string()),
    };
    let pt = p.provider_tool(&t);
    assert_eq!(json_text(&pt.properties), r#"{"a":{"type":"string"}}"#);
    assert_eq!(pt.required, vec!["a".to_string()]);
    let broken = Tool { input_schema_json: Some("not json".to_string()), ..echo_tool() };
    assert!(matches!(p.provider_tool(&broken).properties, Json::Null));
}

#[test]
fn websocket_client_authentication() {
    let mut state = state_with_key();
    let ok = state.authenticate_client(5, "sp_user", 1);
    assert!(!ok.close);
    assert!(matches!(ok.frame, ServerFrame::AuthSuccess { .. }));
    assert_eq!(state.chat_key(5).unwrap(), "sp_user");
    let bad = state.authenticate_client(6, "nope", 1);
    assert!(bad.close);
    assert!(matches!(bad.frame, ServerFrame::AuthError { ref error } if error == "Invalid API key"));
    assert!(matches!(state.chat_key(6), Err(ServerFrame::Error { ref error }) if error == "Not authenticated. Please send auth message first."));
    state.remove_client(5);
    assert!(state.chat_key(5).is_err());
}

#[test]
fn oauth_bodies_and_tokens() {
    let body = spider::oauth::exchange_body("abc#xyz#extra", "ver");
    let v: serde_json::Value = serde_json::from_str(&json_text(&body)).unwrap();
    assert_eq!(v["code"], "abc");
    assert_eq!(v["state"], "xyz");
    assert_eq!(v["code_verifier"], "ver");
    assert_eq!(v["grant_type"], "authorization_code");
    let no_state = spider::oauth::exchange_body("abc", "ver");
    assert_eq!(no_state.get_str("state"), Some(""));
    let reply = parse_json(r#"{"access_token":"A","refresh_token":"R","expires_in":60}"#).unwrap();
    let tokens = spider::oauth::oauth_tokens(&reply, 1000);
    assert_eq!((tokens.access.as_str(), tokens.refresh.as_str(), tokens.expires), ("A", "R", 1060));
    let bare = spider::oauth::oauth_tokens(&parse_json("{}").unwrap(), u64::MAX - 10);
    assert_eq!(bare.expires, u64::MAX);
    assert_eq!(bare.access, "");
}

#[test]
fn list_changed_asks_for_tools_again() {
    let mut state = state_with_key();
    connect_echo(&mut state);
    let frames = state.handle_mcp_message(1000, &parse_json(r#"{"jsonrpc":"2.0","method":"tools/list_changed"}"#).unwrap());
    assert_eq!(frames.len(), 1);
    assert_eq!(frames[0].get_str("method"), Some("tools/list"));
    assert_eq!(frames[0].get_str("id"), Some("tools_1000"));
    assert_eq!(state.pending_mcp_requests.len(), 1);
    let again = state.handle_mcp_message(1000, &parse_json(r#"{"method":"tools/list_changed"}"#).unwrap());
    assert_eq!(again.len(), 1);
    assert_eq!(state.pending_mcp_requests.len(), 1);
    assert!(state.ws_connections[0].initialized);
}

#[test]
fn tool_results_are_the_content_and_errors_carry_status() {
    let mut state = state_with_key();
    let server_id = connect_echo(&mut state);
    let rid = match state.begin_tool_call_with(&server_id, "echo", &tool_arguments("{}"), None, "c").unwrap() {
        ToolDispatch::WebSocket { request_id, .. } => request_id,
        _ => panic!("expected a WebSocket call"),
    };
    let reply = format!(r#"{{"id":"{}","result":{{"content":[{{"type":"text","text":"hi"}}]}}}}"#, rid);
    state.handle_mcp_message(1000, &parse_json(&reply).unwrap());
    let value = state.take_tool_response(&rid).unwrap();
    assert_eq!(json_text(&value), r#"[{"text":"hi","type":"text"}]"#);
    match hypergrid_reply(503, "down") {
        Err(e) => assert_eq!(e.message(), "Hypergrid API error (status 503): down"),
        Ok(_) => panic!("expected an error"),
    }
    let err = SpiderError::Transport("say \"no\"".to_string());
    assert_eq!(tool_outcome_text(&Err(err)), r#"{"error":"say \"no\""}"#);
}

#[test]
fn late_responses_after_a_timeout_are_dropped() {
    let mut state = state_with_key();
    let server_id = connect_echo(&mut state);
    let rid = match state.begin_tool_call_with(&server_id, "echo", &tool_arguments("{}"), None, "d").unwrap() {
        ToolDispatch::WebSocket { request_id, .. } => request_id,
        _ => panic!("expected a WebSocket call"),
    };
    state.abandon_tool_call(&rid, "echo");
    state.handle_mcp_message(1000, &parse_json(&format!(r#"{{"id":"{}","result":{{}}}}"#, rid)).unwrap());
    assert!(state.take_tool_response(&rid).is_none());
    assert!(state.tool_responses.is_empty());
}

#[test]
fn cancelling_updates_the_flag_in_place() {
    let mut state = state_with_key();
    state.begin_streaming(3);
    state.begin_streaming(3);
    assert_eq!(state.active_chat_cancellation.len(), 1);
    state.cancel_chat(3).unwrap();
    state.cancel_chat(3).unwrap();
    assert_eq!(state.active_chat_cancellation.len(), 1);
    assert_eq!(state.is_cancelled(3), Some(true));
}

#[test]
fn closing_marks_every_server_with_the_id() {
    let mut state = state_with_key();
    let server_id = connect_echo(&mut state);
    let mut twin = state.list_mcp_servers("sp_user").unwrap().remove(0);
    twin.connected = true;
    state.mcp_servers.push(twin);
    state.on_ws_close(1000);
    assert!(state.mcp_servers.iter().all(|s| !s.connected));
    assert_eq!(server_id, "srv-1");
}
