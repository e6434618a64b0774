//! Spider: an MCP client and agentic chat broker.
//!
//! The library holds the broker's state and its decisions: the key store and
//! authorization rules, the MCP connection manager and tool broker, the
//! per-chat agentic loop, the LLM provider adapter and the schema transformer.
//! Network and storage effects are performed by the caller, which hands the
//! library plain values and performs the actions it returns.

pub mod text;
pub mod keys;
pub mod json;
pub mod types;
pub mod ids;
pub mod auth;
pub mod rpc;
pub mod mcp;
pub mod agent;
pub mod provider;
pub mod schema;
pub mod gateway;
pub mod store;
pub mod oauth;
