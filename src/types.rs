use vstd::prelude::*;

use crate::json::Json;
use crate::text::{cat, cat3, copy_str};

verus! {

/// An upstream provider key, stored in its obfuscated at-rest form.
pub struct ApiKey {
    pub provider: String,
    pub key: String,
    pub created_at: u64,
    pub last_used: Option<u64>,
}

/// What a key listing shows of a provider key.
pub struct ApiKeyInfo {
    pub provider: String,
    pub created_at: u64,
    pub last_used: Option<u64>,
    pub key_preview: String,
}

/// A locally issued bearer credential with its permissions
/// (`read`, `write`, `admin`, `chat`).
pub struct SpiderApiKey {
    pub key: String,
    pub name: String,
    pub permissions: Vec<String>,
    pub created_at: u64,
}

/// How an MCP server is reached: `websocket`, `stdio`, `http` or `hypergrid`.
pub struct TransportConfig {
    pub transport_type: String,
    pub command: Option<String>,
    pub args: Option<Vec<String>>,
    pub url: Option<String>,
    pub hypergrid_token: Option<String>,
    pub hypergrid_client_id: Option<String>,
    pub hypergrid_node: Option<String>,
}

/// A tool offered by an MCP server. `input_schema_json` is canonical when
/// present; `parameters` is the older form.
pub struct Tool {
    pub name: String,
    pub description: String,
    pub parameters: String,
    pub input_schema_json: Option<String>,
}

pub struct McpServer {
    pub id: String,
    pub name: String,
    pub transport: TransportConfig,
    pub tools: Vec<Tool>,
    pub connected: bool,
}

/// One turn of a conversation. `role` is `user`, `assistant`, `tool` or `system`.
#[derive(Debug)]
pub struct Message {
    pub role: String,
    pub content: String,
    pub tool_calls_json: Option<String>,
    pub tool_results_json: Option<String>,
    pub timestamp: u64,
}

/// A tool call requested by the LLM; `parameters` is JSON text.
#[derive(Debug)]
pub struct ToolCall {
    pub id: String,
    pub tool_name: String,
    pub parameters: String,
}

/// The outcome of one tool call, correlated by `tool_call_id`.
#[derive(Debug)]
pub struct ToolResult {
    pub tool_call_id: String,
    pub result: String,
}

pub struct ConversationMetadata {
    pub start_time: String,
    pub client: String,
    pub from_stt: bool,
}

pub struct Conversation {
    pub id: String,
    pub messages: Vec<Message>,
    pub metadata: ConversationMetadata,
    pub llm_provider: String,
    pub mcp_servers: Vec<String>,
}

/// An open WebSocket to an MCP server.
pub struct WsConnection {
    pub server_id: String,
    pub server_name: String,
    pub channel_id: u32,
    pub tools: Vec<Tool>,
    pub initialized: bool,
}

pub enum McpRequestType {
    Initialize,
    ToolsList,
    ToolCall { tool_name: String },
}

/// A JSON-RPC request sent to an MCP server whose response has not been consumed.
pub struct PendingMcpRequest {
    pub request_id: String,
    pub conversation_id: Option<String>,
    pub server_id: String,
    pub request_type: McpRequestType,
}

/// An authenticated chat client on an inbound WebSocket.
pub struct ChatClient {
    pub channel_id: u32,
    pub api_key: String,
    pub conversation_id: Option<String>,
    pub connected_at: u64,
}

/// Validated credentials of a Hypergrid server.
pub struct HypergridConnection {
    pub server_id: String,
    pub url: String,
    pub token: String,
    pub client_id: String,
    pub node: String,
}

/// The process-wide state of the broker.
///
/// The temperature is held in thousandths (1000 stands for 1.0).
pub struct SpiderState {
    pub api_keys: Vec<(String, ApiKey)>,
    pub spider_api_keys: Vec<SpiderApiKey>,
    pub mcp_servers: Vec<McpServer>,
    pub active_conversations: Vec<(String, Conversation)>,
    pub default_llm_provider: String,
    pub max_tokens: u32,
    pub temperature_permille: u32,
    pub ws_connections: Vec<WsConnection>,
    pub pending_mcp_requests: Vec<PendingMcpRequest>,
    pub tool_responses: Vec<(String, Json)>,
    pub next_channel_id: u32,
    pub chat_clients: Vec<ChatClient>,
    pub active_chat_cancellation: Vec<(u32, bool)>,
    pub hypergrid_connections: Vec<HypergridConnection>,
    pub show_trial_key_notification: bool,
}

impl Default for SpiderState {
    fn default() -> (r: SpiderState)
        ensures
            r.api_keys@.len() == 0,
            r.spider_api_keys@.len() == 0,
            r.mcp_servers@.len() == 0,
            r.active_conversations@.len() == 0,
            r.default_llm_provider@.len() == 0,
            r.max_tokens == 0,
            r.temperature_permille == 0,
            r.ws_connections@.len() == 0,
            r.pending_mcp_requests@.len() == 0,
            r.tool_responses@.len() == 0,
            r.next_channel_id == 0,
            r.chat_clients@.len() == 0,
            r.active_chat_cancellation@.len() == 0,
            r.hypergrid_connections@.len() == 0,
            !r.show_trial_key_notification,
            r.pending_wf(),
    {
        SpiderState {
            api_keys: Vec::new(),
            spider_api_keys: Vec::new(),
            mcp_servers: Vec::new(),
            active_conversations: Vec::new(),
            default_llm_provider: String::new(),
            max_tokens: 0,
            temperature_permille: 0,
            ws_connections: Vec::new(),
            pending_mcp_requests: Vec::new(),
            tool_responses: Vec::new(),
            next_channel_id: 0,
            chat_clients: Vec::new(),
            active_chat_cancellation: Vec::new(),
            hypergrid_connections: Vec::new(),
            show_trial_key_notification: false,
        }
    }
}

/// The errors that the broker reports. [`SpiderError::message`] gives the text
/// that clients see.
#[derive(Debug)]
pub enum SpiderError {
    /// The presented key lacks `read`.
    ReadDenied,
    /// The presented key lacks `write`.
    WriteDenied,
    /// The presented key is not a Spider key with `admin`.
    NotAdmin,
    /// The presented key is neither a Spider key nor an OAuth token.
    InvalidApiKey,
    /// The presented key is valid but may not chat.
    ChatForbidden,
    /// No provider key is stored for the named provider.
    NoProviderKey(String),
    /// An OAuth token was presented for a provider other than Anthropic.
    OAuthProviderMismatch(String),
    SpiderKeyNotFound(String),
    McpServerNotFound(String),
    ConversationNotFound(String),
    NoAdminGuiKey,
    /// A transport type that the broker cannot use.
    UnsupportedTransport(String),
    /// A required Hypergrid credential or argument is missing; holds its name.
    MissingParameter(String),
    HypergridNotConfigured,
    UnknownHypergridTool(String),
    ServerUnavailable(String),
    ToolNotOnServer(String, String),
    NoWebSocket(String),
    ToolTimeout(String),
    MalformedToolCalls,
    Cancelled,
    /// The LLM provider rejected the credential.
    UpstreamAuth(String),
    /// The LLM provider rate-limited the request.
    RateLimited(String),
    /// Any other failure of the LLM provider: provider and its message.
    Upstream(String, String),
    /// A freshly drawn id is already in use.
    IdCollision,
    /// Every channel id has been handed out.
    ChannelsExhausted,
    /// A failure reported by the caller's transport, passed on verbatim.
    Transport(String),
}

/// The text that clients see for an error.
pub open spec fn error_text(e: SpiderError) -> Seq<char> {
    match e {
        SpiderError::ReadDenied => "Unauthorized: API key lacks read permission"@,
        SpiderError::WriteDenied => "Unauthorized: API key lacks write permission"@,
        SpiderError::NotAdmin => "Unauthorized: Invalid or non-admin Spider API key"@,
        SpiderError::InvalidApiKey => "Unauthorized: Invalid API key"@,
        SpiderError::ChatForbidden => "Forbidden: API key lacks write permission"@,
        SpiderError::NoProviderKey(p) => "No API key found for provider: "@ + p@,
        SpiderError::OAuthProviderMismatch(p) => "OAuth token can only be used with Anthropic provider, not "@ + p@,
        SpiderError::SpiderKeyNotFound(k) => "Spider API key "@ + k@ + " not found"@,
        SpiderError::McpServerNotFound(id) => "MCP server "@ + id@ + " not found"@,
        SpiderError::ConversationNotFound(id) => "Conversation "@ + id@ + " not found"@,
        SpiderError::NoAdminGuiKey => "No admin GUI key found"@,
        SpiderError::UnsupportedTransport(t) => "Unsupported transport type: "@ + t@,
        SpiderError::MissingParameter(n) => "Missing "@ + n@ + " parameter"@,
        SpiderError::HypergridNotConfigured => "Hypergrid not configured. Please use hypergrid_authorize first with your credentials."@,
        SpiderError::UnknownHypergridTool(t) => "Unknown hypergrid tool: "@ + t@,
        SpiderError::ServerUnavailable(id) => "MCP server "@ + id@ + " not found or not connected"@,
        SpiderError::ToolNotOnServer(t, id) => "Tool "@ + t@ + " not found on server "@ + id@,
        SpiderError::NoWebSocket(id) => "No WebSocket connection found for server "@ + id@,
        SpiderError::ToolTimeout(t) => "Tool call "@ + t@ + " timed out after 60 seconds"@,
        SpiderError::MalformedToolCalls => "Failed to parse tool calls"@,
        SpiderError::Cancelled => "Request cancelled by user"@,
        SpiderError::UpstreamAuth(p) => "Authentication failed for "@ + p@ + ": Please check your API key"@,
        SpiderError::RateLimited(p) => "Rate limited by "@ + p@ + ": Please try again later"@,
        SpiderError::Upstream(p, m) => "Failed to get response from "@ + p@ + ": "@ + m@,
        SpiderError::ChannelsExhausted => "No channel ids left"@,
        SpiderError::IdCollision => "A freshly drawn id is already in use"@,
        SpiderError::Transport(m) => m@,
    }
}

impl SpiderError {
    /// The text that clients see (see [`error_text`]).
    pub fn message(&self) -> (r: String)
        ensures
            r@ == error_text(*self),
    {
        match self {
            SpiderError::ReadDenied => copy_str("Unauthorized: API key lacks read permission"),
            SpiderError::WriteDenied => copy_str("Unauthorized: API key lacks write permission"),
            SpiderError::NotAdmin => copy_str("Unauthorized: Invalid or non-admin Spider API key"),
            SpiderError::InvalidApiKey => copy_str("Unauthorized: Invalid API key"),
            SpiderError::ChatForbidden => copy_str("Forbidden: API key lacks write permission"),
            SpiderError::NoProviderKey(p) => cat("No API key found for provider: ", p.as_str()),
            SpiderError::OAuthProviderMismatch(p) => cat("OAuth token can only be used with Anthropic provider, not ", p.as_str()),
            SpiderError::SpiderKeyNotFound(k) => cat3("Spider API key ", k.as_str(), " not found"),
            SpiderError::McpServerNotFound(id) => cat3("MCP server ", id.as_str(), " not found"),
            SpiderError::ConversationNotFound(id) => cat3("Conversation ", id.as_str(), " not found"),
            SpiderError::NoAdminGuiKey => copy_str("No admin GUI key found"),
            SpiderError::UnsupportedTransport(t) => cat("Unsupported transport type: ", t.as_str()),
            SpiderError::MissingParameter(n) => cat3("Missing ", n.as_str(), " parameter"),
            SpiderError::HypergridNotConfigured => copy_str("Hypergrid not configured. Please use hypergrid_authorize first with your credentials."),
            SpiderError::UnknownHypergridTool(t) => cat("Unknown hypergrid tool: ", t.as_str()),
            SpiderError::ServerUnavailable(id) => cat3("MCP server ", id.as_str(), " not found or not connected"),
            SpiderError::ToolNotOnServer(t, id) => {
                let head = cat3("Tool ", t.as_str(), " not found on server ");
                cat(head.as_str(), id.as_str())
            },
            SpiderError::NoWebSocket(id) => cat("No WebSocket connection found for server ", id.as_str()),
            SpiderError::ToolTimeout(t) => cat3("Tool call ", t.as_str(), " timed out after 60 seconds"),
            SpiderError::MalformedToolCalls => copy_str("Failed to parse tool calls"),
            SpiderError::Cancelled => copy_str("Request cancelled by user"),
            SpiderError::UpstreamAuth(p) => cat3("Authentication failed for ", p.as_str(), ": Please check your API key"),
            SpiderError::RateLimited(p) => cat3("Rate limited by ", p.as_str(), ": Please try again later"),
            SpiderError::Upstream(p, m) => {
                let head = cat3("Failed to get response from ", p.as_str(), ": ");
                cat(head.as_str(), m.as_str())
            },
            SpiderError::ChannelsExhausted => copy_str("No channel ids left"),
            SpiderError::IdCollision => copy_str("A freshly drawn id is already in use"),
            SpiderError::Transport(m) => copy_str(m.as_str()),
        }
    }
}

} // verus!
