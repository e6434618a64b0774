use spider::agent::{parse_tool_calls, ChatRequest};
use spider::json::{parse_json, Json};
use spider::mcp::ToolDispatch;
use spider::store::names_snapshot_of;
use spider::types::{Conversation, ConversationMetadata, McpServer, Message, SpiderApiKey, SpiderError, SpiderState, Tool, TransportConfig};

fn state() -> SpiderState {
    let mut s = SpiderState::default();
    s.set_startup_defaults();
    s.spider_api_keys.push(SpiderApiKey {
        key: "sp_rw".to_string(),
        name: "rw".to_string(),
        permissions: vec!["read".to_string(), "write".to_string()],
        created_at: 0,
    });
    s
}

fn conversation(id: &str, client: &str) -> Conversation {
    Conversation {
        id: id.to_string(),
        messages: vec![],
        metadata: ConversationMetadata { start_time: "t".to_string(), client: client.to_string(), from_stt: false },
        llm_provider: "anthropic".to_string(),
        mcp_servers: vec![],
    }
}

fn server(id: &str, kind: &str, tools: &[&str], connected: bool) -> McpServer {
    McpServer {
        id: id.to_string(),
        name: id.to_string(),
        transport: TransportConfig {
            transport_type: kind.to_string(),
            command: None,
            args: None,
            url: None,
            hypergrid_token: None,
            hypergrid_client_id: None,
            hypergrid_node: None,
        },
        tools: tools
            .iter()
            .map(|t| Tool { name: t.to_string(), description: String::new(), parameters: "{}".to_string(), input_schema_json: None })
            .collect(),
        connected,
    }
}

#[test]
fn conversations_page_in_insertion_order() {
    let mut s = state();
    for (id, client) in [("c1", "web"), ("c2", "cli"), ("c3", "web"), ("c4", "web")] {
        s.commit_conversation(conversation(id, client));
    }
    let ids = |v: Vec<Conversation>| v.into_iter().map(|c| c.id).collect::<Vec<_>>();
    assert_eq!(ids(s.list_conversations(None, None, None, "sp_rw").unwrap()), vec!["c1", "c2", "c3", "c4"]);
    assert_eq!(ids(s.list_conversations(None, None, Some("web"), "sp_rw").unwrap()), vec!["c1", "c3", "c4"]);
    assert_eq!(ids(s.list_conversations(Some(1), Some(1), Some("web"), "sp_rw").unwrap()), vec!["c3"]);
    assert_eq!(ids(s.list_conversations(Some(5), Some(9), None, "sp_rw").unwrap()), Vec::<String>::new());
    assert!(matches!(s.list_conversations(None, None, None, "nobody"), Err(SpiderError::ReadDenied)));
    assert_eq!(s.get_conversation("c2", "sp_rw").unwrap().unwrap().metadata.client, "cli");
    assert!(s.get_conversation("zz", "sp_rw").unwrap().is_none());
    assert!(names_snapshot_of("20240101-000000-c2.json", "c2"));
    assert!(!names_snapshot_of("20240101-000000-c2.json", "c9"));
    assert_eq!(SpiderError::ConversationNotFound("zz".to_string()).message(), "Conversation zz not found");
}

#[test]
fn config_reads_and_updates() {
    let mut s = state();
    assert_eq!(s.get_config("sp_rw").unwrap(), ("anthropic".to_string(), 4096, 1000));
    assert_eq!(s.update_config(None, Some(100), Some(250), "sp_rw").unwrap(), "Configuration updated");
    assert_eq!(s.get_config("sp_rw").unwrap(), ("anthropic".to_string(), 100, 250));
    s.update_config(Some("openai"), None, None, "sp_rw").unwrap();
    assert_eq!(s.default_llm_provider, "openai");
    assert!(matches!(s.update_config(None, None, None, "nobody"), Err(SpiderError::WriteDenied)));
    assert_eq!(s.next_channel_id, 1000);
}

#[test]
fn tool_call_errors() {
    let mut s = state();
    s.mcp_servers.push(server("hg", "hypergrid", &["hypergrid_weird"], true));
    s.mcp_servers.push(server("ws", "websocket", &["echo"], true));
    s.mcp_servers.push(server("odd", "smoke-signals", &["puff"], true));
    let args = Json::Object(vec![]);
    assert!(matches!(s.begin_tool_call_with("hg", "hypergrid_weird", &args, None, "u"), Err(SpiderError::UnknownHypergridTool(_))));
    assert!(matches!(s.begin_tool_call_with("ws", "other", &args, None, "u"), Err(SpiderError::ToolNotOnServer(_, _))));
    assert!(matches!(s.begin_tool_call_with("ws", "echo", &args, None, "u"), Err(SpiderError::NoWebSocket(_))));
    assert!(matches!(s.begin_tool_call_with("odd", "puff", &args, None, "u"), Err(SpiderError::UnsupportedTransport(_))));
    assert_eq!(
        SpiderError::ToolNotOnServer("t".to_string(), "s".to_string()).message(),
        "Tool t not found on server s"
    );
    assert!(s.pending_mcp_requests.is_empty());
}

#[test]
fn malformed_tool_calls_are_rejected() {
    assert!(matches!(parse_tool_calls("not json"), Err(SpiderError::MalformedToolCalls)));
    assert!(matches!(parse_tool_calls(r#"[{"id":"a"}]"#), Err(SpiderError::MalformedToolCalls)));
    let calls = parse_tool_calls(r#"[{"id":"a","tool_name":"t","parameters":"{}"},{"id":"b","tool_name":"u","parameters":"[]"}]"#).unwrap();
    assert_eq!(calls.len(), 2);
    assert_eq!(calls[1].tool_name, "u");

    let mut s = state();
    s.set_api_key_at("anthropic", "k", "sp_rw", 0).unwrap();
    let request = ChatRequest { api_key: "sp_rw".to_string(), messages: vec![], llm_provider: None, model: None, mcp_servers: None, metadata: None };
    let mut session = s.start_chat_with(&request, "c").unwrap();
    let reply = Message { role: "assistant".to_string(), content: String::new(), tool_calls_json: Some("{".to_string()), tool_results_json: None, timestamp: 0 };
    assert!(matches!(session.on_llm_reply(reply), Err(SpiderError::MalformedToolCalls)));
    assert_eq!(SpiderError::MalformedToolCalls.message(), "Failed to parse tool calls");
}

#[test]
fn channel_ids_run_out_at_the_top() {
    let mut s = state();
    s.mcp_servers.push(server("ws", "websocket", &[], false));
    s.next_channel_id = u32::MAX;
    assert!(matches!(s.connect_mcp_server("ws", "sp_rw"), Err(SpiderError::ChannelsExhausted)));
    s.next_channel_id = 1000;
    assert!(s.connect_mcp_server("ws", "sp_rw").is_ok());
    assert_eq!(s.next_channel_id, 1001);
    assert!(matches!(s.connect_mcp_server("nope", "sp_rw"), Err(SpiderError::McpServerNotFound(_))));
}

#[test]
fn the_catalog_follows_the_server_filter() {
    let mut s = state();
    s.mcp_servers.push(server("a", "websocket", &["t1", "t2"], true));
    s.mcp_servers.push(server("b", "websocket", &["t3"], false));
    s.mcp_servers.push(server("c", "websocket", &["t4"], true));
    let names = |v: Vec<Tool>| v.into_iter().map(|t| t.name).collect::<Vec<_>>();
    assert_eq!(names(s.chat_tools(&None)), vec!["t1", "t2", "t4"]);
    assert_eq!(names(s.chat_tools(&Some(vec!["c".to_string(), "b".to_string()]))), vec!["t4"]);
    assert_eq!(s.server_for_tool("t4"), Some("c".to_string()));
    assert_eq!(s.server_for_tool("t3"), None);
}

#[test]
fn hypergrid_servers_need_credentials() {
    let mut s = state();
    s.mcp_servers.push(server("hg", "hypergrid", &[], false));
    match s.connect_mcp_server("hg", "sp_rw") {
        Err(SpiderError::MissingParameter(name)) => assert_eq!(name, "url"),
        _ => panic!("expected a missing credential"),
    }
    s.mcp_servers[0].transport.url = Some("http://h".to_string());
    s.mcp_servers[0].transport.hypergrid_token = Some("t".to_string());
    s.mcp_servers[0].transport.hypergrid_client_id = Some("c".to_string());
    s.mcp_servers[0].transport.hypergrid_node = Some("n".to_string());
    assert!(s.connect_mcp_server("hg", "sp_rw").is_ok());
    let msg = s.hypergrid_probe_passed("hg", "http://h", "t", "c", "n");
    assert_eq!(msg, "Connected to Hypergrid MCP server hg (Node: n, Client ID: c)");
    assert!(s.mcp_servers[0].connected);
    assert_eq!(s.mcp_servers[0].tools.len(), 3);
    let query = parse_json(r#"{"query":"q"}"#).unwrap();
    assert!(matches!(s.begin_tool_call_with("hg", "hypergrid_search", &query, None, "u"), Ok(ToolDispatch::HypergridPost { .. })));
}

#[test]
fn timeouts_and_oauth_statuses() {
    assert!(!spider::mcp::tool_call_expired(60000));
    assert!(spider::mcp::tool_call_expired(60100));
    assert!(spider::oauth::oauth_status_ok(200));
    assert!(!spider::oauth::oauth_status_ok(302));
}

#[test]
fn drawn_ids_must_be_fresh() {
    let mut s = state();
    s.set_api_key_at("anthropic", "k", "sp_rw", 0).unwrap();
    s.commit_conversation(conversation("taken", "web"));
    let request = ChatRequest { api_key: "sp_rw".to_string(), messages: vec![], llm_provider: None, model: None, mcp_servers: None, metadata: None };
    assert!(matches!(s.start_chat_with(&request, "taken"), Err(SpiderError::IdCollision)));
    assert!(s.start_chat_with(&request, "fresh").is_ok());
    let fresh = s.start_chat(&request).unwrap();
    assert_ne!(fresh.conversation_id, "taken");

    s.spider_api_keys[0].permissions.push("admin".to_string());
    let u = "67e55044-10b1-426f-9247-bb680e5fe0c8";
    assert!(s.create_spider_key_with("a", &vec![], "sp_rw", false, u, 1).is_ok());
    assert!(matches!(s.create_spider_key_with("b", &vec![], "sp_rw", false, u, 2), Err(SpiderError::IdCollision)));
    assert_eq!(s.spider_api_keys.len(), 2);
}
