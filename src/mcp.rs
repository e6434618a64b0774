//! The MCP connection manager and the tool broker.
//!
//! Connections to MCP servers are WebSockets owned by the caller; this module
//! decides what to send on them and keeps the correlation between JSON-RPC
//! request ids and the servers that must answer them.

use vstd::prelude::*;

use crate::ids::{is_hyphenated_uuid, new_uuid};
use crate::json::{entry, jstr, object, copy_json, json_text, json_text_of, lemma_view_entries, lemma_view_items, member, text_member, view_entries, view_items, Json, JsonV};
use crate::rpc::{init_request_id, initialize_params, initialize_request, notification, notification_frame, request, request_frame, tools_list_request, tools_request_id};
use crate::text::{cat, cat3, copy_opt, copy_str, decimal_of, lemma_filter_step, str_eq, u32_decimal};
use crate::types::{
    HypergridConnection, McpRequestType, McpServer, PendingMcpRequest, SpiderError, SpiderState, Tool,
    TransportConfig, WsConnection,
};

verus! {

broadcast use {vstd::std_specs::vec::group_vec_axioms, vstd::seq::group_seq_axioms};

/// `a` and `b` describe the same tool.
pub open spec fn same_tool(a: Tool, b: Tool) -> bool {
    &&& a.name@ == b.name@
    &&& a.description@ == b.description@
    &&& a.parameters@ == b.parameters@
    &&& a.input_schema_json is Some == b.input_schema_json is Some
    &&& a.input_schema_json is Some ==> a.input_schema_json->0@ == b.input_schema_json->0@
}

pub open spec fn same_tools(a: Seq<Tool>, b: Seq<Tool>) -> bool {
    &&& a.len() == b.len()
    &&& forall|i: int| 0 <= i < a.len() ==> same_tool(#[trigger] a[i], b[i])
}

/// `a` and `b` describe the same server.
pub open spec fn same_server(a: McpServer, b: McpServer) -> bool {
    &&& a.id@ == b.id@
    &&& a.name@ == b.name@
    &&& a.connected == b.connected
    &&& a.transport.transport_type@ == b.transport.transport_type@
    &&& same_tools(a.tools@, b.tools@)
}

/// Whether `servers` holds a server with id `id`.
pub open spec fn server_listed(servers: Seq<McpServer>, id: Seq<char>) -> bool {
    exists|i: int| 0 <= i < servers.len() && #[trigger] servers[i].id@ == id
}

/// The index of the first server with id `id`.
pub open spec fn first_server(servers: Seq<McpServer>, id: Seq<char>, i: int) -> bool {
    &&& 0 <= i < servers.len()
    &&& servers[i].id@ == id
    &&& forall|k: int| 0 <= k < i ==> #[trigger] servers[k].id@ != id
}

/// `c` is the first connection on channel `channel_id`.
pub open spec fn first_on_channel(conns: Seq<WsConnection>, channel_id: u32, c: int) -> bool {
    &&& 0 <= c < conns.len()
    &&& conns[c].channel_id == channel_id
    &&& forall|k: int| 0 <= k < c ==> (#[trigger] conns[k]).channel_id != channel_id
}

pub proof fn lemma_first_server_unique(servers: Seq<McpServer>, id: Seq<char>, i: int, k: int)
    requires
        first_server(servers, id, i),
        first_server(servers, id, k),
    ensures
        i == k,
{
    if i < k {
        assert(servers[i].id@ != id);
    } else if k < i {
        assert(servers[k].id@ != id);
    }
}

/// `servers` without the servers whose id is `id`, order kept.
pub open spec fn servers_without(servers: Seq<McpServer>, id: Seq<char>) -> Seq<McpServer>
    decreases servers.len(),
{
    if servers.len() == 0 {
        servers
    } else if servers.last().id@ == id {
        servers_without(servers.drop_last(), id)
    } else {
        servers_without(servers.drop_last(), id).push(servers.last())
    }
}

/// `pending` without the requests addressed to server `id`, order kept.
pub open spec fn pending_without_server(pending: Seq<PendingMcpRequest>, id: Seq<char>) -> Seq<PendingMcpRequest>
    decreases pending.len(),
{
    if pending.len() == 0 {
        pending
    } else if pending.last().server_id@ == id {
        pending_without_server(pending.drop_last(), id)
    } else {
        pending_without_server(pending.drop_last(), id).push(pending.last())
    }
}

/// Whether some open connection belongs to server `id`.
pub open spec fn has_connection(conns: Seq<WsConnection>, id: Seq<char>) -> bool {
    exists|j: int| 0 <= j < conns.len() && #[trigger] conns[j].server_id@ == id
}

/// Whether some pending request is addressed to server `id`.
pub open spec fn has_pending_for(pending: Seq<PendingMcpRequest>, id: Seq<char>) -> bool {
    exists|i: int| 0 <= i < pending.len() && #[trigger] pending[i].server_id@ == id
}

pub proof fn lemma_servers_without(servers: Seq<McpServer>, id: Seq<char>)
    ensures
        !server_listed(servers_without(servers, id), id),
        servers_without(servers, id).len() < servers.len() <==> server_listed(servers, id),
        servers_without(servers, id).len() <= servers.len(),
    decreases servers.len(),
{
    if servers.len() > 0 {
        let init = servers.drop_last();
        lemma_servers_without(init, id);
        if server_listed(init, id) {
            let i = choose|i: int| 0 <= i < init.len() && #[trigger] init[i].id@ == id;
            assert(servers[i].id@ == id);
        }
        if servers.last().id@ != id && server_listed(servers, id) {
            let i = choose|i: int| 0 <= i < servers.len() && #[trigger] servers[i].id@ == id;
            assert(init[i].id@ == id);
        }
        let f = servers_without(servers, id);
        if server_listed(f, id) {
            let j = choose|j: int| 0 <= j < f.len() && #[trigger] f[j].id@ == id;
            assert(j < servers_without(init, id).len() ==> servers_without(init, id)[j].id@ == id);
        }
    }
}

/// Two server lists that differ only in servers with id `id` lose the same
/// servers when those are removed.
pub proof fn lemma_servers_without_same(a: Seq<McpServer>, b: Seq<McpServer>, id: Seq<char>)
    requires
        a.len() == b.len(),
        forall|k: int| 0 <= k < a.len() ==> (#[trigger] a[k]).id == b[k].id,
        forall|k: int| 0 <= k < a.len() && #[trigger] b[k].id@ != id ==> a[k] == b[k],
    ensures
        servers_without(a, id) == servers_without(b, id),
    decreases a.len(),
{
    if a.len() > 0 {
        let (ia, ib) = (a.drop_last(), b.drop_last());
        assert forall|k: int| 0 <= k < ia.len() implies (#[trigger] ia[k]).id == ib[k].id by {
            assert(ia[k] == a[k] && ib[k] == b[k]);
        }
        assert forall|k: int| 0 <= k < ia.len() && #[trigger] ib[k].id@ != id implies ia[k] == ib[k] by {
            assert(ia[k] == a[k] && ib[k] == b[k]);
        }
        lemma_servers_without_same(ia, ib, id);
        assert(a.last().id == b.last().id);
        assert(b[b.len() - 1].id@ != id ==> a[a.len() - 1] == b[b.len() - 1]);
    }
}

pub proof fn lemma_pending_without_server(pending: Seq<PendingMcpRequest>, id: Seq<char>)
    ensures
        !has_pending_for(pending_without_server(pending, id), id),
        forall|i: int| 0 <= i < pending_without_server(pending, id).len() ==>
            exists|k: int| 0 <= k < pending.len() && #[trigger] pending_without_server(pending, id)[i] == pending[k],
    decreases pending.len(),
{
    if pending.len() > 0 {
        let init = pending.drop_last();
        lemma_pending_without_server(init, id);
        let f = pending_without_server(pending, id);
        let g = pending_without_server(init, id);
        if has_pending_for(f, id) {
            let j = choose|j: int| 0 <= j < f.len() && #[trigger] f[j].server_id@ == id;
            assert(j < g.len() ==> g[j].server_id@ == id);
        }
        assert forall|i: int| 0 <= i < f.len() implies
            exists|k: int| 0 <= k < pending.len() && #[trigger] f[i] == pending[k] by {
            if i < g.len() {
                let k = choose|k: int| 0 <= k < init.len() && #[trigger] g[i] == init[k];
                assert(f[i] == pending[k]);
            } else {
                assert(f[i] == pending[pending.len() - 1]);
            }
        }
    }
}

impl SpiderState {
    /// Connections have distinct channel ids, pending request ids are
    /// unique, and every pending request is addressed to a server that has an
    /// open connection: closing or dropping a connection purges its requests.
    pub open spec fn pending_wf(&self) -> bool {
        &&& channels_unique(self.ws_connections@)
        &&& pending_ids_unique(self.pending_mcp_requests@)
        &&& forall|i: int| 0 <= i < self.pending_mcp_requests@.len() ==>
            has_connection(self.ws_connections@, (#[trigger] self.pending_mcp_requests@[i]).server_id@)
    }
}

/// No two connections share a channel id.
pub open spec fn channels_unique(conns: Seq<WsConnection>) -> bool {
    forall|i: int, j: int| 0 <= i < j < conns.len() ==> (#[trigger] conns[i]).channel_id != (#[trigger] conns[j]).channel_id
}

/// No two pending requests share an id.
pub open spec fn pending_ids_unique(pending: Seq<PendingMcpRequest>) -> bool {
    forall|i: int, j: int| 0 <= i < j < pending.len() ==> (#[trigger] pending[i]).request_id@ != (#[trigger] pending[j]).request_id@
}

pub proof fn lemma_unique_without_server(pending: Seq<PendingMcpRequest>, id: Seq<char>)
    requires
        pending_ids_unique(pending),
    ensures
        pending_ids_unique(pending_without_server(pending, id)),
    decreases pending.len(),
{
    if pending.len() > 0 {
        let init = pending.drop_last();
        assert forall|i: int, j: int| 0 <= i < j < init.len() implies (#[trigger] init[i]).request_id@ != (#[trigger] init[j]).request_id@ by {
            assert(init[i] == pending[i] && init[j] == pending[j]);
        }
        lemma_unique_without_server(init, id);
        lemma_pending_without_server(init, id);
        let g = pending_without_server(init, id);
        let f = pending_without_server(pending, id);
        if pending.last().server_id@ != id {
            assert forall|i: int, j: int| 0 <= i < j < f.len() implies (#[trigger] f[i]).request_id@ != (#[trigger] f[j]).request_id@ by {
                if j == f.len() - 1 {
                    let k = choose|k: int| 0 <= k < init.len() && #[trigger] g[i] == init[k];
                    assert(pending[k] == init[k]);
                    assert(pending[k].request_id@ != pending[pending.len() - 1].request_id@);
                } else {
                    assert(f[i] == g[i] && f[j] == g[j]);
                }
            }
        }
    }
}

/// An entry whose id differs from `id` survives dropping the requests with id `id`.
pub proof fn lemma_pending_kept_by_id(pending: Seq<PendingMcpRequest>, id: Seq<char>, q: int)
    requires
        0 <= q < pending.len(),
        pending[q].request_id@ != id,
    ensures
        exists|k: int| 0 <= k < pending_without_id(pending, id).len() && #[trigger] pending_without_id(pending, id)[k] == pending[q],
    decreases pending.len(),
{
    let init = pending.drop_last();
    let f = pending_without_id(pending, id);
    if q == pending.len() - 1 {
        assert(f[f.len() - 1] == pending[q]);
    } else {
        lemma_pending_kept_by_id(init, id, q);
        assert(init[q] == pending[q]);
        let k = choose|k: int| 0 <= k < pending_without_id(init, id).len() && #[trigger] pending_without_id(init, id)[k] == init[q];
        if pending.last().request_id@ != id {
            assert(f[k] == pending_without_id(init, id)[k]);
        }
    }
}

pub proof fn lemma_unique_without_id(pending: Seq<PendingMcpRequest>, id: Seq<char>)
    requires
        pending_ids_unique(pending),
    ensures
        pending_ids_unique(pending_without_id(pending, id)),
    decreases pending.len(),
{
    if pending.len() > 0 {
        let init = pending.drop_last();
        assert forall|i: int, j: int| 0 <= i < j < init.len() implies (#[trigger] init[i]).request_id@ != (#[trigger] init[j]).request_id@ by {
            assert(init[i] == pending[i] && init[j] == pending[j]);
        }
        lemma_unique_without_id(init, id);
        lemma_pending_without_id(init, id);
        let g = pending_without_id(init, id);
        let f = pending_without_id(pending, id);
        if pending.last().request_id@ != id {
            assert forall|i: int, j: int| 0 <= i < j < f.len() implies (#[trigger] f[i]).request_id@ != (#[trigger] f[j]).request_id@ by {
                if j == f.len() - 1 {
                    let k = choose|k: int| 0 <= k < init.len() && #[trigger] g[i] == init[k];
                    assert(pending[k] == init[k]);
                    assert(pending[k].request_id@ != pending[pending.len() - 1].request_id@);
                } else {
                    assert(f[i] == g[i] && f[j] == g[j]);
                }
            }
        }
    }
}

/// Dropping the requests of one server, and any connection of that server,
/// keeps every remaining request addressed to a server with a connection.
pub proof fn lemma_purge_keeps_pending_wf(
    pending: Seq<PendingMcpRequest>,
    conns: Seq<WsConnection>,
    conns_after: Seq<WsConnection>,
    id: Seq<char>,
)
    requires
        forall|i: int| 0 <= i < pending.len() ==> has_connection(conns, (#[trigger] pending[i]).server_id@),
        forall|j: int| 0 <= j < conns.len() && conns[j].server_id@ != id ==> has_connection(conns_after, (#[trigger] conns[j]).server_id@),
    ensures
        forall|i: int| 0 <= i < pending_without_server(pending, id).len() ==>
            has_connection(conns_after, (#[trigger] pending_without_server(pending, id)[i]).server_id@),
        !has_pending_for(pending_without_server(pending, id), id),
        pending_ids_unique(pending) ==> pending_ids_unique(pending_without_server(pending, id)),
{
    lemma_pending_without_server(pending, id);
    if pending_ids_unique(pending) {
        lemma_unique_without_server(pending, id);
    }
    let f = pending_without_server(pending, id);
    assert forall|i: int| 0 <= i < f.len() implies has_connection(conns_after, (#[trigger] f[i]).server_id@) by {
        let k = choose|k: int| 0 <= k < pending.len() && #[trigger] f[i] == pending[k];
        assert(has_connection(conns, pending[k].server_id@));
        let j = choose|j: int| 0 <= j < conns.len() && #[trigger] conns[j].server_id@ == pending[k].server_id@;
        if f[i].server_id@ == id {
            assert(has_pending_for(f, id));
        }
    }
}

pub fn copy_tool(t: &Tool) -> (r: Tool)
    ensures
        same_tool(r, *t),
{
    Tool {
        name: copy_str(t.name.as_str()),
        description: copy_str(t.description.as_str()),
        parameters: copy_str(t.parameters.as_str()),
        input_schema_json: copy_opt(&t.input_schema_json),
    }
}

pub fn copy_tools(v: &Vec<Tool>) -> (r: Vec<Tool>)
    ensures
        same_tools(r@, v@),
{
    let mut out: Vec<Tool> = Vec::new();
    let mut i: usize = 0;
    while i < v.len()
        invariant
            0 <= i <= v@.len(),
            out@.len() == i,
            forall|k: int| 0 <= k < i ==> same_tool(#[trigger] out@[k], v@[k]),
        decreases v@.len() - i,
    {
        out.push(copy_tool(&v[i]));
        i = i + 1;
    }
    out
}

pub fn copy_transport(t: &TransportConfig) -> (r: TransportConfig)
    ensures
        r.transport_type@ == t.transport_type@,
{
    let args = match &t.args {
        Some(a) => Some(crate::text::copy_strings(a)),
        None => None,
    };
    TransportConfig {
        transport_type: copy_str(t.transport_type.as_str()),
        command: copy_opt(&t.command),
        args,
        url: copy_opt(&t.url),
        hypergrid_token: copy_opt(&t.hypergrid_token),
        hypergrid_client_id: copy_opt(&t.hypergrid_client_id),
        hypergrid_node: copy_opt(&t.hypergrid_node),
    }
}

pub fn copy_server(s: &McpServer) -> (r: McpServer)
    ensures
        same_server(r, *s),
{
    McpServer {
        id: copy_str(s.id.as_str()),
        name: copy_str(s.name.as_str()),
        transport: copy_transport(&s.transport),
        tools: copy_tools(&s.tools),
        connected: s.connected,
    }
}

impl SpiderState {
    /// The index of the first server with id `id`.
    pub fn server_index(&self, id: &str) -> (r: Option<usize>)
        ensures
            r is Some ==> first_server(self.mcp_servers@, id@, r->0 as int),
            r is None ==> !server_listed(self.mcp_servers@, id@),
    {
        let mut i: usize = 0;
        while i < self.mcp_servers.len()
            invariant
                0 <= i <= self.mcp_servers@.len(),
                forall|k: int| 0 <= k < i ==> #[trigger] self.mcp_servers@[k].id@ != id@,
            decreases self.mcp_servers@.len() - i,
        {
            if str_eq(self.mcp_servers[i].id.as_str(), id) {
                return Some(i);
            }
            i = i + 1;
        }
        None
    }

    /// The index of the first open connection of server `id`.
    fn connection_of_server(&self, id: &str) -> (r: Option<usize>)
        ensures
            r is Some ==> r->0 < self.ws_connections@.len() && self.ws_connections@[r->0 as int].server_id@ == id@,
            r is None ==> !has_connection(self.ws_connections@, id@),
    {
        let mut i: usize = 0;
        while i < self.ws_connections.len()
            invariant
                0 <= i <= self.ws_connections@.len(),
                forall|k: int| 0 <= k < i ==> #[trigger] self.ws_connections@[k].server_id@ != id@,
            decreases self.ws_connections@.len() - i,
        {
            if str_eq(self.ws_connections[i].server_id.as_str(), id) {
                return Some(i);
            }
            i = i + 1;
        }
        None
    }

    /// The index of the connection on channel `channel_id`.
    pub fn connection_on_channel(&self, channel_id: u32) -> (r: Option<usize>)
        ensures
            r is Some ==> r->0 < self.ws_connections@.len() && self.ws_connections@[r->0 as int].channel_id == channel_id,
            r is Some ==> forall|k: int| 0 <= k < r->0 ==> #[trigger] self.ws_connections@[k].channel_id != channel_id,
            r is None ==> forall|k: int| 0 <= k < self.ws_connections@.len() ==> #[trigger] self.ws_connections@[k].channel_id != channel_id,
    {
        let mut i: usize = 0;
        while i < self.ws_connections.len()
            invariant
                0 <= i <= self.ws_connections@.len(),
                forall|k: int| 0 <= k < i ==> #[trigger] self.ws_connections@[k].channel_id != channel_id,
            decreases self.ws_connections@.len() - i,
        {
            if self.ws_connections[i].channel_id == channel_id {
                return Some(i);
            }
            i = i + 1;
        }
        None
    }

    /// Registers a new, not yet connected MCP server under id `id`. Needs `write`.
    pub fn add_mcp_server_with(&mut self, name: &str, transport: TransportConfig, auth_key: &str, id: &str) -> (r: Result<String, SpiderError>)
        ensures
            !old(self).key_permits(auth_key@, "write"@) ==> r == Err::<String, SpiderError>(SpiderError::WriteDenied) && *final(self) == *old(self),
            old(self).key_permits(auth_key@, "write"@) ==> {
                &&& r is Ok
                &&& r->Ok_0@ == id@
                &&& final(self).mcp_servers@.len() == old(self).mcp_servers@.len() + 1
                &&& final(self).mcp_servers@.drop_last() == old(self).mcp_servers@
                &&& final(self).mcp_servers@.last().id@ == id@
                &&& final(self).mcp_servers@.last().name@ == name@
                &&& final(self).mcp_servers@.last().transport == transport
                &&& final(self).mcp_servers@.last().tools@.len() == 0
                &&& !final(self).mcp_servers@.last().connected
                &&& final(self).ws_connections == old(self).ws_connections
                &&& final(self).pending_mcp_requests == old(self).pending_mcp_requests
            },
    {
        if !self.validate_permission(auth_key, "write") {
            return Err(SpiderError::WriteDenied);
        }
        self.mcp_servers.push(McpServer {
            id: copy_str(id),
            name: copy_str(name),
            transport,
            tools: Vec::new(),
            connected: false,
        });
        Ok(copy_str(id))
    }

    /// Registers a new MCP server under a fresh random id (see
    /// [`SpiderState::add_mcp_server_with`]).
    pub fn add_mcp_server(&mut self, name: &str, transport: TransportConfig, auth_key: &str) -> (r: Result<String, SpiderError>)
        ensures
            !old(self).key_permits(auth_key@, "write"@) ==> r == Err::<String, SpiderError>(SpiderError::WriteDenied) && *final(self) == *old(self),
            old(self).key_permits(auth_key@, "write"@) ==> {
                &&& r is Ok
                &&& final(self).mcp_servers@.len() == old(self).mcp_servers@.len() + 1
                &&& final(self).mcp_servers@.drop_last() == old(self).mcp_servers@
                &&& final(self).mcp_servers@.last().id@ == r->Ok_0@
                &&& !final(self).mcp_servers@.last().connected
                &&& final(self).ws_connections == old(self).ws_connections
                &&& final(self).pending_mcp_requests == old(self).pending_mcp_requests
            },
    {
        let id = new_uuid();
        self.add_mcp_server_with(name, transport, auth_key, id.as_str())
    }

    /// The registered MCP servers. Needs `read`.
    pub fn list_mcp_servers(&self, auth_key: &str) -> (r: Result<Vec<McpServer>, SpiderError>)
        ensures
            !self.key_permits(auth_key@, "read"@) ==> r == Err::<Vec<McpServer>, SpiderError>(SpiderError::ReadDenied),
            self.key_permits(auth_key@, "read"@) ==> {
                &&& r is Ok
                &&& r->Ok_0@.len() == self.mcp_servers@.len()
                &&& forall|i: int| 0 <= i < self.mcp_servers@.len() ==> same_server(#[trigger] r->Ok_0@[i], self.mcp_servers@[i])
            },
    {
        if !self.validate_permission(auth_key, "read") {
            return Err(SpiderError::ReadDenied);
        }
        let mut out: Vec<McpServer> = Vec::new();
        let mut i: usize = 0;
        while i < self.mcp_servers.len()
            invariant
                0 <= i <= self.mcp_servers@.len(),
                out@.len() == i,
                forall|k: int| 0 <= k < i ==> same_server(#[trigger] out@[k], self.mcp_servers@[k]),
            decreases self.mcp_servers@.len() - i,
        {
            out.push(copy_server(&self.mcp_servers[i]));
            i = i + 1;
        }
        Ok(out)
    }

    /// Forgets every pending request addressed to server `id`.
    fn drop_pending_for_server(&mut self, id: &str)
        ensures
            final(self).pending_mcp_requests@ == pending_without_server(old(self).pending_mcp_requests@, id@),
            pending_ids_unique(old(self).pending_mcp_requests@) ==> pending_ids_unique(final(self).pending_mcp_requests@),
            final(self).ws_connections == old(self).ws_connections,
            final(self).mcp_servers == old(self).mcp_servers,
            final(self).spider_api_keys == old(self).spider_api_keys,
            final(self).tool_responses == old(self).tool_responses,
            final(self).next_channel_id == old(self).next_channel_id,
    {
        proof {
            if pending_ids_unique(old(self).pending_mcp_requests@) {
                lemma_unique_without_server(old(self).pending_mcp_requests@, id@);
            }
        }
        let ghost orig = self.pending_mcp_requests@;
        let mut i: usize = 0;
        let ghost mut j: int = 0;
        while i < self.pending_mcp_requests.len()
            invariant
                0 <= i <= self.pending_mcp_requests@.len(),
                0 <= j <= orig.len(),
                self.pending_mcp_requests@.take(i as int) == pending_without_server(orig.take(j), id@),
                self.pending_mcp_requests@.skip(i as int) == orig.skip(j),
                self.pending_mcp_requests@.len() - i == orig.len() - j,
                orig == old(self).pending_mcp_requests@,
                self.ws_connections == old(self).ws_connections,
                self.mcp_servers == old(self).mcp_servers,
                self.spider_api_keys == old(self).spider_api_keys,
                self.tool_responses == old(self).tool_responses,
                self.next_channel_id == old(self).next_channel_id,
            decreases self.pending_mcp_requests@.len() - i,
        {
            let ghost before = self.pending_mcp_requests@;
            proof { lemma_filter_step(before, orig, i as int, j); }
            if str_eq(self.pending_mcp_requests[i].server_id.as_str(), id) {
                self.pending_mcp_requests.remove(i);
            } else {
                i = i + 1;
            }
            proof { j = j + 1; }
        }
        assert(orig.take(j) =~= orig);
        assert(self.pending_mcp_requests@.take(i as int) =~= self.pending_mcp_requests@);
    }

    /// Marks every server with id `id` disconnected.
    fn mark_disconnected(&mut self, id: &str)
        ensures
            final(self).mcp_servers@.len() == old(self).mcp_servers@.len(),
            forall|k: int| 0 <= k < old(self).mcp_servers@.len() ==> (#[trigger] final(self).mcp_servers@[k]).id == old(self).mcp_servers@[k].id,
            forall|k: int| 0 <= k < old(self).mcp_servers@.len() && #[trigger] old(self).mcp_servers@[k].id@ == id@
                ==> !final(self).mcp_servers@[k].connected,
            forall|k: int| 0 <= k < old(self).mcp_servers@.len() && #[trigger] old(self).mcp_servers@[k].id@ != id@
                ==> final(self).mcp_servers@[k] == old(self).mcp_servers@[k],
            final(self).ws_connections == old(self).ws_connections,
            final(self).pending_mcp_requests == old(self).pending_mcp_requests,
            final(self).spider_api_keys == old(self).spider_api_keys,
            final(self).tool_responses == old(self).tool_responses,
            final(self).next_channel_id == old(self).next_channel_id,
            final(self).hypergrid_connections == old(self).hypergrid_connections,
    {
        let mut i: usize = 0;
        while i < self.mcp_servers.len()
            invariant
                0 <= i <= self.mcp_servers@.len(),
                self.mcp_servers@.len() == old(self).mcp_servers@.len(),
                forall|k: int| 0 <= k < old(self).mcp_servers@.len() ==> (#[trigger] self.mcp_servers@[k]).id == old(self).mcp_servers@[k].id,
                forall|k: int| 0 <= k < i && #[trigger] old(self).mcp_servers@[k].id@ == id@ ==> !self.mcp_servers@[k].connected,
                forall|k: int| i <= k < old(self).mcp_servers@.len() ==> #[trigger] self.mcp_servers@[k] == old(self).mcp_servers@[k],
                forall|k: int| 0 <= k < i && #[trigger] old(self).mcp_servers@[k].id@ != id@
                    ==> self.mcp_servers@[k] == old(self).mcp_servers@[k],
                self.ws_connections == old(self).ws_connections,
                self.pending_mcp_requests == old(self).pending_mcp_requests,
                self.spider_api_keys == old(self).spider_api_keys,
                self.tool_responses == old(self).tool_responses,
                self.next_channel_id == old(self).next_channel_id,
                self.hypergrid_connections == old(self).hypergrid_connections,
            decreases self.mcp_servers@.len() - i,
        {
            if str_eq(self.mcp_servers[i].id.as_str(), id) {
                self.mcp_servers[i].connected = false;
            }
            i = i + 1;
        }
    }

    /// Drops connection `j` and every pending request of its server, and
    /// marks every server with that id disconnected.
    fn close_connection(&mut self, j: usize)
        requires
            j < old(self).ws_connections@.len(),
        ensures
            final(self).ws_connections@ == old(self).ws_connections@.remove(j as int),
            final(self).pending_mcp_requests@ == pending_without_server(old(self).pending_mcp_requests@, old(self).ws_connections@[j as int].server_id@),
            !has_pending_for(final(self).pending_mcp_requests@, old(self).ws_connections@[j as int].server_id@),
            old(self).pending_wf() ==> final(self).pending_wf(),
            final(self).mcp_servers@.len() == old(self).mcp_servers@.len(),
            forall|k: int| 0 <= k < old(self).mcp_servers@.len() ==> (#[trigger] final(self).mcp_servers@[k]).id == old(self).mcp_servers@[k].id,
            forall|k: int| 0 <= k < old(self).mcp_servers@.len() && #[trigger] old(self).mcp_servers@[k].id@ != old(self).ws_connections@[j as int].server_id@
                ==> final(self).mcp_servers@[k] == old(self).mcp_servers@[k],
            forall|k: int| 0 <= k < old(self).mcp_servers@.len() && #[trigger] old(self).mcp_servers@[k].id@ == old(self).ws_connections@[j as int].server_id@
                ==> !final(self).mcp_servers@[k].connected,
            final(self).spider_api_keys == old(self).spider_api_keys,
            final(self).tool_responses == old(self).tool_responses,
            final(self).next_channel_id == old(self).next_channel_id,
    {
        let conn = self.ws_connections.remove(j);
        let ghost id = conn.server_id@;
        proof {
            let conns = old(self).ws_connections@;
            let after = self.ws_connections@;
            assert forall|k: int| 0 <= k < conns.len() && conns[k].server_id@ != id implies
                has_connection(after, (#[trigger] conns[k]).server_id@) by {
                if k < j {
                    assert(after[k] == conns[k]);
                } else {
                    assert(after[k - 1] == conns[k]);
                }
            }
            if old(self).pending_wf() {
                lemma_purge_keeps_pending_wf(old(self).pending_mcp_requests@, conns, after, id);
                assert forall|a: int, b: int| 0 <= a < b < after.len() implies (#[trigger] after[a]).channel_id != (#[trigger] after[b]).channel_id by {
                    let a2 = if a < j { a } else { a + 1 };
                    let b2 = if b < j { b } else { b + 1 };
                    assert(after[a] == conns[a2] && after[b] == conns[b2]);
                }
            }
            lemma_pending_without_server(old(self).pending_mcp_requests@, id);
        }
        self.mark_disconnected(conn.server_id.as_str());
        self.drop_pending_for_server(conn.server_id.as_str());
    }

    /// Handles the close of an MCP server's socket on `channel_id`: the
    /// connection on that channel is dropped, every server with its server id
    /// is marked disconnected, and that server's pending requests are
    /// forgotten while those of other servers are kept.
    pub fn on_ws_close(&mut self, channel_id: u32)
        ensures
            old(self).pending_wf() ==> final(self).pending_wf(),
            old(self).pending_wf() ==> forall|k: int| 0 <= k < final(self).ws_connections@.len()
                ==> #[trigger] final(self).ws_connections@[k].channel_id != channel_id,
            forall|c: int| #[trigger] first_on_channel(old(self).ws_connections@, channel_id, c) ==> {
                let sid = old(self).ws_connections@[c].server_id@;
                &&& final(self).ws_connections@ == old(self).ws_connections@.remove(c)
                &&& final(self).pending_mcp_requests@ == pending_without_server(old(self).pending_mcp_requests@, sid)
                &&& !has_pending_for(final(self).pending_mcp_requests@, sid)
                &&& final(self).mcp_servers@.len() == old(self).mcp_servers@.len()
                &&& forall|k: int| 0 <= k < old(self).mcp_servers@.len() && #[trigger] old(self).mcp_servers@[k].id@ == sid
                    ==> !final(self).mcp_servers@[k].connected
                &&& forall|k: int| 0 <= k < old(self).mcp_servers@.len() && #[trigger] old(self).mcp_servers@[k].id@ != sid
                    ==> final(self).mcp_servers@[k] == old(self).mcp_servers@[k]
            },
            (forall|k: int| 0 <= k < old(self).ws_connections@.len() ==> #[trigger] old(self).ws_connections@[k].channel_id != channel_id)
                ==> *final(self) == *old(self),
    {
        match self.connection_on_channel(channel_id) {
            Some(j) => {
                proof {
                    assert forall|c: int| #[trigger] first_on_channel(old(self).ws_connections@, channel_id, c) implies c == j by {
                        if c < j {
                            assert(self.ws_connections@[c].channel_id != channel_id);
                        } else if c > j {
                            assert(self.ws_connections@[j as int].channel_id != channel_id);
                        }
                    }
                }
                self.close_connection(j);
                proof {
                    if old(self).pending_wf() {
                        let o = old(self).ws_connections@;
                        assert forall|k: int| 0 <= k < self.ws_connections@.len() implies #[trigger] self.ws_connections@[k].channel_id != channel_id by {
                            let k2 = if k < j { k } else { k + 1 };
                            assert(self.ws_connections@[k] == o[k2]);
                            if k2 < j { assert(o[k2].channel_id != o[j as int].channel_id); }
                            else { assert(o[j as int].channel_id != o[k2].channel_id); }
                        }
                    }
                }
            },
            None => {},
        }
    }

    /// Disconnects server `server_id`: every server with that id is marked
    /// disconnected, every connection of it dropped and its pending requests
    /// forgotten. Returns the message and the channels the caller must close.
    /// Needs `write`.
    pub fn disconnect_mcp_server(&mut self, server_id: &str, auth_key: &str) -> (r: Result<(String, Vec<u32>), SpiderError>)
        ensures
            !old(self).key_permits(auth_key@, "write"@) ==> r == Err::<(String, Vec<u32>), SpiderError>(SpiderError::WriteDenied) && *final(self) == *old(self),
            old(self).key_permits(auth_key@, "write"@) && !server_listed(old(self).mcp_servers@, server_id@) ==> {
                &&& r is Err
                &&& r->Err_0 is McpServerNotFound
                &&& r->Err_0->McpServerNotFound_0@ == server_id@
                &&& *final(self) == *old(self)
            },
            old(self).key_permits(auth_key@, "write"@) && server_listed(old(self).mcp_servers@, server_id@) ==> {
                &&& r is Ok
                &&& !has_pending_for(final(self).pending_mcp_requests@, server_id@)
                &&& !has_connection(final(self).ws_connections@, server_id@)
                &&& forall|k: int| 0 <= k < old(self).mcp_servers@.len() && #[trigger] old(self).mcp_servers@[k].id@ == server_id@
                    ==> !final(self).mcp_servers@[k].connected
                &&& (r->Ok_0.1@.len() == 0 <==> !has_connection(old(self).ws_connections@, server_id@))
            },
            final(self).mcp_servers@.len() == old(self).mcp_servers@.len(),
            forall|k: int| 0 <= k < old(self).mcp_servers@.len() ==> (#[trigger] final(self).mcp_servers@[k]).id == old(self).mcp_servers@[k].id,
            forall|k: int| 0 <= k < old(self).mcp_servers@.len() && #[trigger] old(self).mcp_servers@[k].id@ != server_id@
                ==> final(self).mcp_servers@[k] == old(self).mcp_servers@[k],
            old(self).pending_wf() ==> final(self).pending_wf(),
    {
        if !self.validate_permission(auth_key, "write") {
            return Err(SpiderError::WriteDenied);
        }
        let i = match self.server_index(server_id) {
            Some(i) => i,
            None => {
                return Err(SpiderError::McpServerNotFound(copy_str(server_id)));
            },
        };
        let name = copy_str(self.mcp_servers[i].name.as_str());
        let mut closed: Vec<u32> = Vec::new();
        loop
            invariant
                self.mcp_servers@.len() == old(self).mcp_servers@.len(),
                forall|k: int| 0 <= k < old(self).mcp_servers@.len() ==> (#[trigger] self.mcp_servers@[k]).id == old(self).mcp_servers@[k].id,
                old(self).pending_wf() ==> self.pending_wf(),
                closed@.len() == 0 ==> self.ws_connections == old(self).ws_connections,
                closed@.len() > 0 ==> has_connection(old(self).ws_connections@, server_id@),
                forall|k: int| 0 <= k < old(self).mcp_servers@.len() && #[trigger] old(self).mcp_servers@[k].id@ != server_id@
                    ==> self.mcp_servers@[k] == old(self).mcp_servers@[k],
            ensures
                forall|k: int| 0 <= k < old(self).mcp_servers@.len() && #[trigger] old(self).mcp_servers@[k].id@ != server_id@
                    ==> self.mcp_servers@[k] == old(self).mcp_servers@[k],
                !has_connection(self.ws_connections@, server_id@),
                self.mcp_servers@.len() == old(self).mcp_servers@.len(),
                forall|k: int| 0 <= k < old(self).mcp_servers@.len() ==> (#[trigger] self.mcp_servers@[k]).id == old(self).mcp_servers@[k].id,
                old(self).pending_wf() ==> self.pending_wf(),
                closed@.len() == 0 ==> self.ws_connections == old(self).ws_connections,
                closed@.len() > 0 ==> has_connection(old(self).ws_connections@, server_id@),
            decreases self.ws_connections@.len(),
        {
            match self.connection_of_server(server_id) {
                Some(j) => {
                    assert(has_connection(self.ws_connections@, server_id@));
                    let ch = self.ws_connections[j].channel_id;
                    self.close_connection(j);
                    closed.push(ch);
                },
                None => {
                    break;
                },
            }
        }
        self.mark_disconnected(server_id);
        let ghost before = self.pending_mcp_requests@;
        self.drop_pending_for_server(server_id);
        proof {
            lemma_pending_without_server(before, server_id@);
            let after = self.pending_mcp_requests@;
            if old(self).pending_wf() {
                assert forall|p: int| 0 <= p < after.len() implies has_connection(self.ws_connections@, (#[trigger] after[p]).server_id@) by {
                    let q = choose|q: int| 0 <= q < before.len() && #[trigger] after[p] == before[q];
                    assert(has_connection(self.ws_connections@, before[q].server_id@));
                }
            }
        }
        Ok((cat("Disconnected from MCP server ", name.as_str()), closed))
    }

    /// Disconnects and unregisters server `server_id`. Returns the message and
    /// the channels the caller must close. Needs `write`.
    pub fn remove_mcp_server(&mut self, server_id: &str, auth_key: &str) -> (r: Result<(String, Vec<u32>), SpiderError>)
        ensures
            !old(self).key_permits(auth_key@, "write"@) ==> r == Err::<(String, Vec<u32>), SpiderError>(SpiderError::WriteDenied) && *final(self) == *old(self),
            old(self).key_permits(auth_key@, "write"@) ==> {
                &&& final(self).mcp_servers@ == servers_without(old(self).mcp_servers@, server_id@)
                &&& !server_listed(final(self).mcp_servers@, server_id@)
                &&& !has_pending_for(final(self).pending_mcp_requests@, server_id@) || !server_listed(old(self).mcp_servers@, server_id@)
                &&& server_listed(old(self).mcp_servers@, server_id@) ==> r is Ok && r->Ok_0.0@ == "MCP server "@ + server_id@ + " removed"@
                &&& !server_listed(old(self).mcp_servers@, server_id@) ==> r is Err && r->Err_0 is McpServerNotFound && r->Err_0->McpServerNotFound_0@ == server_id@
            },
            old(self).pending_wf() ==> final(self).pending_wf(),
    {
        if !self.validate_permission(auth_key, "write") {
            return Err(SpiderError::WriteDenied);
        }
        let disconnected = self.disconnect_mcp_server(server_id, auth_key);
        let closed = match disconnected {
            Ok((_, ch)) => ch,
            Err(_) => Vec::new(),
        };
        let ghost mid = *self;
        let ghost orig = self.mcp_servers@;
        proof {
            if server_listed(old(self).mcp_servers@, server_id@) {
                let k = choose|k: int| 0 <= k < old(self).mcp_servers@.len() && #[trigger] old(self).mcp_servers@[k].id@ == server_id@;
                assert(orig[k].id == old(self).mcp_servers@[k].id);
            }
            if server_listed(orig, server_id@) {
                let k = choose|k: int| 0 <= k < orig.len() && #[trigger] orig[k].id@ == server_id@;
                assert(orig[k].id == old(self).mcp_servers@[k].id);
            }
        }
        let initial_len = self.mcp_servers.len();
        let mut i: usize = 0;
        let ghost mut j: int = 0;
        while i < self.mcp_servers.len()
            invariant
                0 <= i <= self.mcp_servers@.len(),
                0 <= j <= orig.len(),
                self.mcp_servers@.take(i as int) == servers_without(orig.take(j), server_id@),
                self.mcp_servers@.skip(i as int) == orig.skip(j),
                self.mcp_servers@.len() - i == orig.len() - j,
                orig == mid.mcp_servers@,
                self.ws_connections == mid.ws_connections,
                self.pending_mcp_requests == mid.pending_mcp_requests,
            decreases self.mcp_servers@.len() - i,
        {
            let ghost before = self.mcp_servers@;
            proof { lemma_filter_step(before, orig, i as int, j); }
            if str_eq(self.mcp_servers[i].id.as_str(), server_id) {
                self.mcp_servers.remove(i);
            } else {
                i = i + 1;
            }
            proof { j = j + 1; }
        }
        assert(orig.take(j) =~= orig);
        assert(self.mcp_servers@.take(i as int) =~= self.mcp_servers@);
        proof {
            lemma_servers_without(orig, server_id@);
            lemma_servers_without_same(orig, old(self).mcp_servers@, server_id@);
        }
        if self.mcp_servers.len() < initial_len {
            Ok((cat3("MCP server ", server_id, " removed"), closed))
        } else {
            Err(SpiderError::McpServerNotFound(copy_str(server_id)))
        }
    }
}

/// What the caller does next to connect a server.
pub enum ConnectStep {
    /// Open a WebSocket to `url` on `channel_id`, then report it with
    /// [`SpiderState::ws_opened`].
    OpenWebSocket { channel_id: u32, url: String, server_name: String },
    /// Probe the Hypergrid registry with these credentials, then report
    /// success with [`SpiderState::hypergrid_probe_passed`].
    ProbeHypergrid { url: String, token: String, client_id: String, node: String },
    /// The server is connected; the message says so.
    Connected(String),
}

/// The WebSocket URL used when a server names none.
pub open spec fn default_ws_url() -> Seq<char> {
    "ws://localhost:10125"@
}

fn make_tool(name: &str, description: &str, parameters: &str, schema: &str) -> (r: Tool)
    ensures
        r.name@ == name@,
        r.description@ == description@,
        r.parameters@ == parameters@,
        r.input_schema_json is Some && r.input_schema_json->0@ == schema@,
{
    Tool {
        name: copy_str(name),
        description: copy_str(description),
        parameters: copy_str(parameters),
        input_schema_json: Some(copy_str(schema)),
    }
}

/// The three tools of a Hypergrid server: `hypergrid_authorize`,
/// `hypergrid_search` and `hypergrid_call`.
pub fn hypergrid_tools() -> (r: Vec<Tool>)
    ensures
        r@.len() == 3,
        r@[0].name@ == "hypergrid_authorize"@,
        r@[1].name@ == "hypergrid_search"@,
        r@[2].name@ == "hypergrid_call"@,
{
    let mut v: Vec<Tool> = Vec::new();
    v.push(make_tool(
        "hypergrid_authorize",
        "Configure Hypergrid connection credentials. Use this when you receive hypergrid auth strings.",
        r#"{"type":"object","properties":{"url":{"type":"string"},"token":{"type":"string"},"client_id":{"type":"string"},"node":{"type":"string"}},"required":["url","token","client_id","node"]}"#,
        r#"{"type":"object","properties":{"url":{"type":"string","description":"The base URL for the Hypergrid API"},"token":{"type":"string","description":"The authentication token"},"client_id":{"type":"string","description":"The unique client ID"},"node":{"type":"string","description":"The Hyperware node name"}},"required":["url","token","client_id","node"]}"#,
    ));
    v.push(make_tool(
        "hypergrid_search",
        "Search the Hypergrid provider registry for available data providers.",
        r#"{"type":"object","properties":{"query":{"type":"string"}},"required":["query"]}"#,
        r#"{"type":"object","properties":{"query":{"type":"string","description":"Search query for providers"}},"required":["query"]}"#,
    ));
    v.push(make_tool(
        "hypergrid_call",
        "Call a Hypergrid provider with arguments to retrieve data.",
        r#"{"type":"object","properties":{"providerId":{"type":"string"},"providerName":{"type":"string"},"callArgs":{"type":"array","items":{"type":"array","items":{"type":"string"}}}},"required":["providerId","providerName","callArgs"]}"#,
        r#"{"type":"object","properties":{"providerId":{"type":"string","description":"The provider ID"},"providerName":{"type":"string","description":"The provider name"},"callArgs":{"type":"array","items":{"type":"array","items":{"type":"string"}},"description":"Arguments as array of [key, value] pairs"}},"required":["providerId","providerName","callArgs"]}"#,
    ));
    v
}

/// The tools found on a server reached by a transport other than WebSocket:
/// `stdio` offers `search` and `calculate`, `http` offers `http_tool`; any
/// other transport is unsupported.
pub fn discover_mcp_tools(transport_type: &str) -> (r: Result<Vec<Tool>, SpiderError>)
    ensures
        transport_type@ == "stdio"@ ==> r is Ok && r->Ok_0@.len() == 2 && r->Ok_0@[0].name@ == "search"@ && r->Ok_0@[1].name@ == "calculate"@,
        transport_type@ == "http"@ ==> r is Ok && r->Ok_0@.len() == 1 && r->Ok_0@[0].name@ == "http_tool"@,
        transport_type@ != "stdio"@ && transport_type@ != "http"@ ==> r is Err && r->Err_0 is UnsupportedTransport
            && r->Err_0->UnsupportedTransport_0@ == transport_type@,
{
    proof { lemma_transport_names_differ(); }
    if str_eq(transport_type, "stdio") {
        let mut v: Vec<Tool> = Vec::new();
        v.push(Tool {
            name: copy_str("search"),
            description: copy_str("Search for information"),
            parameters: copy_str(r#"{"type":"object","properties":{"query":{"type":"string","description":"The search query"}},"required":["query"]}"#),
            input_schema_json: None,
        });
        v.push(Tool {
            name: copy_str("calculate"),
            description: copy_str("Perform mathematical calculations"),
            parameters: copy_str(r#"{"type":"object","properties":{"expression":{"type":"string","description":"The mathematical expression to evaluate"}},"required":["expression"]}"#),
            input_schema_json: None,
        });
        Ok(v)
    } else if str_eq(transport_type, "http") {
        let mut v: Vec<Tool> = Vec::new();
        v.push(Tool {
            name: copy_str("http_tool"),
            description: copy_str("An HTTP-based MCP tool"),
            parameters: copy_str(r#"{"type":"object","properties":{"query":{"type":"string"}}}"#),
            input_schema_json: None,
        });
        Ok(v)
    } else {
        Err(SpiderError::UnsupportedTransport(copy_str(transport_type)))
    }
}

/// Whether credentials are stored for server `id`.
pub open spec fn has_hypergrid(conns: Seq<HypergridConnection>, id: Seq<char>) -> bool {
    exists|k: int| 0 <= k < conns.len() && #[trigger] conns[k].server_id@ == id
}

/// The four transport names are distinct.
pub proof fn lemma_transport_names_differ()
    ensures
        "websocket"@ != "stdio"@,
        "websocket"@ != "http"@,
        "websocket"@ != "hypergrid"@,
        "stdio"@ != "http"@,
        "stdio"@ != "hypergrid"@,
        "http"@ != "hypergrid"@,
{
    reveal_strlit("websocket");
    reveal_strlit("stdio");
    reveal_strlit("http");
    reveal_strlit("hypergrid");
    assert("websocket"@[0] != "stdio"@[0]);
    assert("websocket"@[0] != "http"@[0]);
    assert("websocket"@[0] != "hypergrid"@[0]);
    assert("stdio"@[0] != "http"@[0]);
    assert("stdio"@[0] != "hypergrid"@[0]);
    assert("http"@[1] != "hypergrid"@[1]);
}

/// Whether a transport is a WebSocket (`stdio` servers are reached through a
/// WebSocket wrapper too).
pub open spec fn is_ws_transport(t: Seq<char>) -> bool {
    t == "websocket"@ || t == "stdio"@
}

impl SpiderState {
    /// The first step of connecting server `server_id`. WebSocket servers get
    /// a fresh channel id; Hypergrid servers need all four credentials; other
    /// transports are connected at once with the tools they offer. Needs `write`.
    pub fn connect_mcp_server(&mut self, server_id: &str, auth_key: &str) -> (r: Result<ConnectStep, SpiderError>)
        ensures
            !old(self).key_permits(auth_key@, "write"@) ==> r == Err::<ConnectStep, SpiderError>(SpiderError::WriteDenied) && *final(self) == *old(self),
            old(self).key_permits(auth_key@, "write"@) && !server_listed(old(self).mcp_servers@, server_id@) ==>
                r is Err && r->Err_0 is McpServerNotFound && *final(self) == *old(self),
            forall|i: int| first_server(old(self).mcp_servers@, server_id@, i) && old(self).key_permits(auth_key@, "write"@)
                && is_ws_transport((#[trigger] old(self).mcp_servers@[i]).transport.transport_type@) ==> {
                &&& old(self).next_channel_id < u32::MAX ==> {
                    &&& r is Ok
                    &&& r->Ok_0 is OpenWebSocket
                    &&& r->Ok_0->OpenWebSocket_channel_id == old(self).next_channel_id
                    &&& final(self).next_channel_id == old(self).next_channel_id + 1
                    &&& r->Ok_0->OpenWebSocket_url@ == (match old(self).mcp_servers@[i].transport.url {
                        Some(u) => u@,
                        None => default_ws_url(),
                    })
                    &&& r->Ok_0->OpenWebSocket_server_name@ == old(self).mcp_servers@[i].name@
                }
                &&& old(self).next_channel_id == u32::MAX ==> r == Err::<ConnectStep, SpiderError>(SpiderError::ChannelsExhausted)
            },
            forall|i: int| first_server(old(self).mcp_servers@, server_id@, i) && old(self).key_permits(auth_key@, "write"@)
                && (#[trigger] old(self).mcp_servers@[i]).transport.transport_type@ == "hypergrid"@ ==> {
                let t = old(self).mcp_servers@[i].transport;
                &&& (t.url is Some && t.hypergrid_token is Some && t.hypergrid_client_id is Some && t.hypergrid_node is Some) ==> {
                    &&& r is Ok
                    &&& r->Ok_0 is ProbeHypergrid
                    &&& r->Ok_0->ProbeHypergrid_url@ == t.url->0@
                    &&& r->Ok_0->ProbeHypergrid_token@ == t.hypergrid_token->0@
                    &&& r->Ok_0->ProbeHypergrid_client_id@ == t.hypergrid_client_id->0@
                    &&& r->Ok_0->ProbeHypergrid_node@ == t.hypergrid_node->0@
                }
                &&& !(t.url is Some && t.hypergrid_token is Some && t.hypergrid_client_id is Some && t.hypergrid_node is Some) ==>
                    r is Err && r->Err_0 is MissingParameter
                &&& *final(self) == *old(self)
            },
            forall|i: int| first_server(old(self).mcp_servers@, server_id@, i) && old(self).key_permits(auth_key@, "write"@)
                && (#[trigger] old(self).mcp_servers@[i]).transport.transport_type@ == "http"@ ==> {
                &&& r is Ok && r->Ok_0 is Connected
                &&& final(self).mcp_servers@[i].connected
                &&& final(self).mcp_servers@[i].tools@.len() == 1
            },
            final(self).ws_connections == old(self).ws_connections,
            final(self).pending_mcp_requests == old(self).pending_mcp_requests,
            final(self).spider_api_keys == old(self).spider_api_keys,
            final(self).mcp_servers@.len() == old(self).mcp_servers@.len(),
            forall|k: int| 0 <= k < old(self).mcp_servers@.len() ==> (#[trigger] final(self).mcp_servers@[k]).id == old(self).mcp_servers@[k].id,
    {
        if !self.validate_permission(auth_key, "write") {
            return Err(SpiderError::WriteDenied);
        }
        let i = match self.server_index(server_id) {
            Some(i) => i,
            None => {
                return Err(SpiderError::McpServerNotFound(copy_str(server_id)));
            },
        };
        proof {
            lemma_transport_names_differ();
            assert forall|k: int| first_server(old(self).mcp_servers@, server_id@, k) implies k == i by {
                lemma_first_server_unique(old(self).mcp_servers@, server_id@, i as int, k);
            }
        }
        let kind = copy_str(self.mcp_servers[i].transport.transport_type.as_str());
        if str_eq(kind.as_str(), "websocket") || str_eq(kind.as_str(), "stdio") {
            if self.next_channel_id == u32::MAX {
                return Err(SpiderError::ChannelsExhausted);
            }
            let url = match &self.mcp_servers[i].transport.url {
                Some(u) => copy_str(u.as_str()),
                None => copy_str("ws://localhost:10125"),
            };
            let channel_id = self.next_channel_id;
            self.next_channel_id = channel_id + 1;
            Ok(ConnectStep::OpenWebSocket {
                channel_id,
                url,
                server_name: copy_str(self.mcp_servers[i].name.as_str()),
            })
        } else if str_eq(kind.as_str(), "hypergrid") {
            let t = &self.mcp_servers[i].transport;
            let url = match &t.url {
                Some(u) => copy_str(u.as_str()),
                None => { return Err(SpiderError::MissingParameter(copy_str("url"))); },
            };
            let token = match &t.hypergrid_token {
                Some(u) => copy_str(u.as_str()),
                None => { return Err(SpiderError::MissingParameter(copy_str("token"))); },
            };
            let client_id = match &t.hypergrid_client_id {
                Some(u) => copy_str(u.as_str()),
                None => { return Err(SpiderError::MissingParameter(copy_str("client_id"))); },
            };
            let node = match &t.hypergrid_node {
                Some(u) => copy_str(u.as_str()),
                None => { return Err(SpiderError::MissingParameter(copy_str("node"))); },
            };
            Ok(ConnectStep::ProbeHypergrid { url, token, client_id, node })
        } else {
            let tools = discover_mcp_tools(kind.as_str())?;
            let count = tools.len() as u32;
            let name = copy_str(self.mcp_servers[i].name.as_str());
            self.mcp_servers[i].tools = tools;
            self.mcp_servers[i].connected = true;
            let head = cat3("Connected to MCP server ", name.as_str(), " with ");
            let tail = cat(u32_decimal(count).as_str(), " tools");
            Ok(ConnectStep::Connected(cat(head.as_str(), tail.as_str())))
        }
    }

    /// Records the WebSocket opened on `channel_id` for server `server_id`
    /// and registers its `initialize` request, which it returns for the caller
    /// to send. A connection already recorded on that channel is closed first,
    /// so channel ids stay unique. The server stays disconnected until its
    /// tools arrive.
    pub fn ws_opened(&mut self, server_id: &str, server_name: &str, channel_id: u32) -> (r: Json)
        ensures
            r@ == request_frame("initialize"@, Some(initialize_params()), init_request_id(channel_id)),
            final(self).ws_connections@.last().server_id@ == server_id@,
            final(self).ws_connections@.last().channel_id == channel_id,
            !final(self).ws_connections@.last().initialized,
            forall|c: int| #[trigger] first_on_channel(old(self).ws_connections@, channel_id, c)
                ==> final(self).ws_connections@.drop_last() == old(self).ws_connections@.remove(c),
            (forall|k: int| 0 <= k < old(self).ws_connections@.len() ==> #[trigger] old(self).ws_connections@[k].channel_id != channel_id) ==> {
                &&& final(self).ws_connections@.drop_last() == old(self).ws_connections@
                &&& final(self).pending_mcp_requests@.drop_last() == pending_without_id(old(self).pending_mcp_requests@, init_request_id(channel_id))
            },
            final(self).ws_connections@.len() >= 1,
            final(self).pending_mcp_requests@.last().request_id@ == init_request_id(channel_id),
            final(self).pending_mcp_requests@.last().server_id@ == server_id@,
            final(self).pending_mcp_requests@.last().request_type is Initialize,
            old(self).pending_wf() ==> final(self).pending_wf(),
            forall|k: int| first_server(old(self).mcp_servers@, server_id@, k) ==> !(#[trigger] final(self).mcp_servers@[k]).connected,
            final(self).mcp_servers@.len() == old(self).mcp_servers@.len(),
            final(self).spider_api_keys == old(self).spider_api_keys,
            final(self).next_channel_id == old(self).next_channel_id,
    {
        match self.connection_on_channel(channel_id) {
            Some(j) => {
                proof {
                    assert forall|c: int| #[trigger] first_on_channel(old(self).ws_connections@, channel_id, c) implies c == j by {
                        if c < j {
                            assert(self.ws_connections@[c].channel_id != channel_id);
                        } else if c > j {
                            assert(self.ws_connections@[j as int].channel_id != channel_id);
                        }
                    }
                }
                self.close_connection(j);
                proof {
                    if old(self).pending_wf() {
                        let o = old(self).ws_connections@;
                        assert forall|k: int| 0 <= k < self.ws_connections@.len() implies #[trigger] self.ws_connections@[k].channel_id != channel_id by {
                            let k2 = if k < j { k } else { k + 1 };
                            assert(self.ws_connections@[k] == o[k2]);
                            assert(k2 != j);
                            if k2 < j { assert(o[k2].channel_id != o[j as int].channel_id); }
                            else { assert(o[j as int].channel_id != o[k2].channel_id); }
                        }
                    }
                }
            },
            None => {},
        }
        let ghost pre = *self;
        self.ws_connections.push(WsConnection {
            server_id: copy_str(server_id),
            server_name: copy_str(server_name),
            channel_id,
            tools: Vec::new(),
            initialized: false,
        });
        proof {
            assert(self.ws_connections@.drop_last() =~= pre.ws_connections@);
            if pre.pending_wf() && (forall|k: int| 0 <= k < pre.ws_connections@.len() ==> #[trigger] pre.ws_connections@[k].channel_id != channel_id) {
                let w = self.ws_connections@;
                assert forall|a: int, b: int| 0 <= a < b < w.len() implies (#[trigger] w[a]).channel_id != (#[trigger] w[b]).channel_id by {
                    if b == w.len() - 1 {
                        assert(w[a] == pre.ws_connections@[a]);
                    } else {
                        assert(w[a] == pre.ws_connections@[a] && w[b] == pre.ws_connections@[b]);
                    }
                }
            }
        }
        let frame = initialize_request(channel_id);
        let id = cat("init_", u32_decimal(channel_id).as_str());
        let ghost last_conn = self.ws_connections@.len() - 1;
        assert(self.ws_connections@[last_conn].server_id@ == server_id@);
        proof {
            if pre.pending_wf() {
                let conns = self.ws_connections@;
                assert forall|p: int| 0 <= p < self.pending_mcp_requests@.len() implies
                    has_connection(conns, (#[trigger] self.pending_mcp_requests@[p]).server_id@) by {
                    let q = self.pending_mcp_requests@[p];
                    let c = choose|c: int| 0 <= c < pre.ws_connections@.len() && #[trigger] pre.ws_connections@[c].server_id@ == q.server_id@;
                    assert(conns[c] == pre.ws_connections@[c]);
                }
            }
        }
        self.enrol_pending(PendingMcpRequest {
            request_id: id,
            conversation_id: None,
            server_id: copy_str(server_id),
            request_type: McpRequestType::Initialize,
        });
        match self.server_index(server_id) {
            Some(i) => {
                self.mcp_servers[i].connected = false;
                proof {
                    assert forall|k: int| first_server(old(self).mcp_servers@, server_id@, k) implies !(#[trigger] self.mcp_servers@[k]).connected by {
                        lemma_first_server_unique(old(self).mcp_servers@, server_id@, i as int, k);
                    }
                }
            },
            None => {},
        }
        frame
    }

    /// Records the Hypergrid credentials of server `server_id` after a
    /// successful probe, gives it the Hypergrid tools and marks it connected.
    pub fn hypergrid_probe_passed(&mut self, server_id: &str, url: &str, token: &str, client_id: &str, node: &str) -> (r: String)
        ensures
            forall|k: int| 0 <= k < old(self).mcp_servers@.len() && #[trigger] old(self).mcp_servers@[k].id@ != server_id@
                ==> final(self).mcp_servers@[k] == old(self).mcp_servers@[k],
            exists|k: int| 0 <= k < final(self).hypergrid_connections@.len()
                && (#[trigger] final(self).hypergrid_connections@[k]).server_id@ == server_id@
                && final(self).hypergrid_connections@[k].url@ == url@
                && final(self).hypergrid_connections@[k].token@ == token@
                && final(self).hypergrid_connections@[k].client_id@ == client_id@
                && final(self).hypergrid_connections@[k].node@ == node@,
            forall|k: int| first_server(old(self).mcp_servers@, server_id@, k) ==> {
                &&& (#[trigger] final(self).mcp_servers@[k]).connected
                &&& final(self).mcp_servers@[k].tools@.len() == 3
            },
            final(self).mcp_servers@.len() == old(self).mcp_servers@.len(),
            final(self).ws_connections == old(self).ws_connections,
            final(self).pending_mcp_requests == old(self).pending_mcp_requests,
            final(self).spider_api_keys == old(self).spider_api_keys,
    {
        self.set_hypergrid_connection(server_id, url, token, client_id, node);
        let ghost hc = self.hypergrid_connections@;
        let ghost w = choose|k: int| 0 <= k < hc.len()
                && (#[trigger] hc[k]).server_id@ == server_id@
                && hc[k].url@ == url@
                && hc[k].token@ == token@
                && hc[k].client_id@ == client_id@
                && hc[k].node@ == node@;
        let name = match self.server_index(server_id) {
            Some(i) => {
                self.mcp_servers[i].tools = hypergrid_tools();
                self.mcp_servers[i].connected = true;
                proof {
                    assert forall|k: int| first_server(old(self).mcp_servers@, server_id@, k) implies
                        (#[trigger] self.mcp_servers@[k]).connected && self.mcp_servers@[k].tools@.len() == 3 by {
                        lemma_first_server_unique(old(self).mcp_servers@, server_id@, i as int, k);
                    }
                }
                copy_str(self.mcp_servers[i].name.as_str())
            },
            None => String::new(),
        };
        let head = cat3("Connected to Hypergrid MCP server ", name.as_str(), " (Node: ");
        let mid = cat3(head.as_str(), node, ", Client ID: ");
        assert(self.hypergrid_connections@ == hc);
        assert(self.hypergrid_connections@[w].server_id@ == server_id@);
        cat3(mid.as_str(), client_id, ")")
    }

    /// Stores the Hypergrid credentials of server `server_id`, replacing
    /// earlier ones.
    pub fn set_hypergrid_connection(&mut self, server_id: &str, url: &str, token: &str, client_id: &str, node: &str)
        ensures
            exists|k: int| 0 <= k < final(self).hypergrid_connections@.len()
                && (#[trigger] final(self).hypergrid_connections@[k]).server_id@ == server_id@
                && final(self).hypergrid_connections@[k].url@ == url@
                && final(self).hypergrid_connections@[k].token@ == token@
                && final(self).hypergrid_connections@[k].client_id@ == client_id@
                && final(self).hypergrid_connections@[k].node@ == node@,
            forall|k: int| 0 <= k < final(self).hypergrid_connections@.len() && (#[trigger] final(self).hypergrid_connections@[k]).server_id@ == server_id@
                ==> final(self).hypergrid_connections@[k].token@ == token@,
            forall|k: int| 0 <= k < old(self).hypergrid_connections@.len() ==>
                has_hypergrid(final(self).hypergrid_connections@, (#[trigger] old(self).hypergrid_connections@[k]).server_id@),
            final(self).mcp_servers == old(self).mcp_servers,
            final(self).ws_connections == old(self).ws_connections,
            final(self).pending_mcp_requests == old(self).pending_mcp_requests,
            final(self).spider_api_keys == old(self).spider_api_keys,
            final(self).tool_responses == old(self).tool_responses,
    {
        let mut out: Vec<HypergridConnection> = Vec::new();
        let mut i: usize = 0;
        while i < self.hypergrid_connections.len()
            invariant
                0 <= i <= self.hypergrid_connections@.len(),
                forall|k: int| 0 <= k < out@.len() ==> (#[trigger] out@[k]).server_id@ != server_id@,
                forall|k: int| 0 <= k < i && (#[trigger] self.hypergrid_connections@[k]).server_id@ != server_id@
                    ==> has_hypergrid(out@, self.hypergrid_connections@[k].server_id@),
            decreases self.hypergrid_connections@.len() - i,
        {
            let c = &self.hypergrid_connections[i];
            if !str_eq(c.server_id.as_str(), server_id) {
                let ghost before = out@;
                out.push(HypergridConnection {
                    server_id: copy_str(c.server_id.as_str()),
                    url: copy_str(c.url.as_str()),
                    token: copy_str(c.token.as_str()),
                    client_id: copy_str(c.client_id.as_str()),
                    node: copy_str(c.node.as_str()),
                });
                proof {
                    assert(out@[out@.len() - 1].server_id@ == c.server_id@);
                    assert forall|k: int| 0 <= k <= i && (#[trigger] self.hypergrid_connections@[k]).server_id@ != server_id@
                        implies has_hypergrid(out@, self.hypergrid_connections@[k].server_id@) by {
                        if k < i {
                            let w = choose|w: int| 0 <= w < before.len() && #[trigger] before[w].server_id@ == self.hypergrid_connections@[k].server_id@;
                            assert(out@[w] == before[w]);
                        }
                    }
                }
            }
            i = i + 1;
        }
        let ghost pre = out@;
        let fresh = HypergridConnection {
            server_id: copy_str(server_id),
            url: copy_str(url),
            token: copy_str(token),
            client_id: copy_str(client_id),
            node: copy_str(node),
        };
        out.push(fresh);
        let ghost last = out@.len() - 1;
        let ghost old_conns = self.hypergrid_connections@;
        proof {
            assert forall|k: int| 0 <= k < old_conns.len() implies has_hypergrid(out@, (#[trigger] old_conns[k]).server_id@) by {
                if old_conns[k].server_id@ == server_id@ {
                    assert(out@[last].server_id@ == server_id@);
                } else {
                    assert(has_hypergrid(pre, old_conns[k].server_id@));
                    let w = choose|w: int| 0 <= w < pre.len() && #[trigger] pre[w].server_id@ == old_conns[k].server_id@;
                    assert(out@[w] == pre[w]);
                }
            }
        }
        self.hypergrid_connections = out;
        assert(self.hypergrid_connections@[last].server_id@ == server_id@);
    }
}

/// Whether a pending request has id `id`.
pub open spec fn has_pending_id(pending: Seq<PendingMcpRequest>, id: Seq<char>) -> bool {
    exists|i: int| 0 <= i < pending.len() && #[trigger] pending[i].request_id@ == id
}

/// The response stored for request `id`, if any (the latest one).
pub open spec fn response_for(responses: Seq<(String, Json)>, id: Seq<char>) -> Option<JsonV>
    decreases responses.len(),
{
    if responses.len() == 0 {
        None
    } else if responses.last().0@ == id {
        Some(responses.last().1@)
    } else {
        response_for(responses.drop_last(), id)
    }
}

/// `responses` without those stored for `id`, order kept.
pub open spec fn responses_without(responses: Seq<(String, Json)>, id: Seq<char>) -> Seq<(String, Json)>
    decreases responses.len(),
{
    if responses.len() == 0 {
        responses
    } else if responses.last().0@ == id {
        responses_without(responses.drop_last(), id)
    } else {
        responses_without(responses.drop_last(), id).push(responses.last())
    }
}

pub proof fn lemma_responses_without(responses: Seq<(String, Json)>, id: Seq<char>)
    ensures
        response_for(responses_without(responses, id), id) is None,
        forall|x: Seq<char>| x != id ==> #[trigger] response_for(responses_without(responses, id), x) == response_for(responses, x),
    decreases responses.len(),
{
    if responses.len() > 0 {
        let init = responses.drop_last();
        lemma_responses_without(init, id);
        let f = responses_without(responses, id);
        let g = responses_without(init, id);
        if responses.last().0@ != id {
            assert(f.drop_last() =~= g);
            assert(f.last() == responses.last());
        }
        assert forall|x: Seq<char>| x != id implies #[trigger] response_for(f, x) == response_for(responses, x) by {
            assert(response_for(g, x) == response_for(init, x));
        }
    }
}

/// What a tool call's response stands for: its `result`, else its `error`
/// wrapped as `{"error": ...}`, else an error saying the format is invalid.
pub open spec fn tool_call_outcome(message: JsonV) -> JsonV {
    match member(message, "result"@) {
        Some(r) => r,
        None => match member(message, "error"@) {
            Some(e) => JsonV::Object(seq![("error"@, e)]),
            None => JsonV::Object(seq![("error"@, JsonV::Str("Invalid MCP response format"@))]),
        },
    }
}

/// A tool result handed back to the agentic loop: the response's `content`
/// when it has one, else the response itself.
pub open spec fn tool_call_value(response: JsonV) -> JsonV {
    match member(response, "content"@) {
        Some(c) => c,
        None => response,
    }
}

/// An entry of a `tools/list` result that names a tool: it has string
/// `name` and `description` members.
pub open spec fn listable(item: JsonV) -> bool {
    text_member(item, "name"@) is Some && text_member(item, "description"@) is Some
}

/// The listable entries of a `tools/list` result, order kept.
pub open spec fn listed_items(items: Seq<JsonV>) -> Seq<JsonV>
    decreases items.len(),
{
    if items.len() == 0 {
        items
    } else if listable(items.last()) {
        listed_items(items.drop_last()).push(items.last())
    } else {
        listed_items(items.drop_last())
    }
}

/// `t` is the tool that a `tools/list` entry describes: its `parameters` and
/// `inputSchema` are kept as JSON text.
pub open spec fn tool_of_item(t: Tool, item: JsonV) -> bool {
    &&& t.name@ == text_member(item, "name"@)->0
    &&& t.description@ == text_member(item, "description"@)->0
    &&& t.parameters@ == match member(item, "parameters"@) {
        Some(p) => json_text_of(p),
        None => "{}"@,
    }
    &&& t.input_schema_json is Some == member(item, "inputSchema"@) is Some
    &&& t.input_schema_json is Some ==> t.input_schema_json->0@ == json_text_of(member(item, "inputSchema"@)->0)
}

/// The tools that a `tools/list` result lists.
pub open spec fn tools_listed(tools: Seq<Tool>, items: Seq<JsonV>) -> bool {
    &&& tools.len() == listed_items(items).len()
    &&& forall|i: int| 0 <= i < tools.len() ==> tool_of_item(#[trigger] tools[i], listed_items(items)[i])
}

/// The tools that the entries of a `tools/list` result describe.
pub fn tools_from_listing(items: &Vec<Json>) -> (r: Vec<Tool>)
    ensures
        tools_listed(r@, view_items(items@)),
{
    proof { lemma_view_items(items@); }
    let ghost vs = view_items(items@);
    let mut out: Vec<Tool> = Vec::new();
    let mut i: usize = 0;
    while i < items.len()
        invariant
            0 <= i <= items@.len(),
            vs == view_items(items@),
            vs.len() == items@.len(),
            forall|k: int| 0 <= k < items@.len() ==> #[trigger] vs[k] == items@[k]@,
            tools_listed(out@, vs.take(i as int)),
        decreases items@.len() - i,
    {
        let item = &items[i];
        assert(vs.take(i + 1).drop_last() =~= vs.take(i as int));
        assert(vs.take(i + 1).last() == item@);
        match (item.get_str("name"), item.get_str("description")) {
            (Some(name), Some(description)) => {
                let parameters = match item.get("parameters") {
                    Some(p) => json_text(p),
                    None => copy_str("{}"),
                };
                let input_schema_json = match item.get("inputSchema") {
                    Some(p) => Some(json_text(p)),
                    None => None,
                };
                out.push(Tool { name: copy_str(name), description: copy_str(description), parameters, input_schema_json });
                proof {
                    let l = listed_items(vs.take(i + 1));
                    assert(l == listed_items(vs.take(i as int)).push(item@));
                    assert forall|k: int| 0 <= k < out@.len() implies tool_of_item(#[trigger] out@[k], l[k]) by {
                        if k < out@.len() - 1 {
                            assert(tool_of_item(out@[k], listed_items(vs.take(i as int))[k]));
                        }
                    }
                }
            },
            _ => {
                assert(listed_items(vs.take(i + 1)) == listed_items(vs.take(i as int)));
            },
        }
        i = i + 1;
    }
    assert(vs.take(i as int) =~= vs);
    out
}

/// What the caller does to run a tool call.
pub enum ToolDispatch {
    /// Send `frame` on `channel_id` and wait for the response to `request_id`
    /// ([`SpiderState::take_tool_response`]), giving up after the timeout
    /// ([`SpiderState::abandon_tool_call`]).
    WebSocket { channel_id: u32, request_id: String, frame: Json },
    /// Probe these Hypergrid credentials, then report success with
    /// [`SpiderState::hypergrid_authorized`].
    HypergridAuthorize { url: String, token: String, client_id: String, node: String },
    /// POST `body` to `url` with the `X-Client-ID` and `X-Token` headers and
    /// hand the reply to [`hypergrid_reply`].
    HypergridPost { url: String, token: String, client_id: String, body: Json },
    /// The result is known at once.
    Done(Json),
}

/// The request body of a Hypergrid registry search.
pub open spec fn search_body(query: Seq<char>) -> JsonV {
    JsonV::Object(seq![("request"@, JsonV::Object(seq![("SearchRegistry"@, JsonV::Str(query))]))])
}

/// The request body of a Hypergrid provider call.
pub open spec fn call_body(provider_id: Seq<char>, provider_name: Seq<char>, pairs: Seq<JsonV>) -> JsonV {
    JsonV::Object(seq![("request"@, JsonV::Object(seq![("CallProvider"@, JsonV::Object(seq![
        ("providerId"@, JsonV::Str(provider_id)),
        ("providerName"@, JsonV::Str(provider_name)),
        ("callArgs"@, JsonV::Array(pairs)),
    ]))]))])
}

/// What a Hypergrid reply becomes: an error for status 400 and above, else
/// the body wrapped as text content.
pub open spec fn hypergrid_reply_value(body: Seq<char>) -> JsonV {
    JsonV::Object(seq![("content"@, JsonV::Array(seq![
        JsonV::Object(seq![("type"@, JsonV::Str("text"@)), ("text"@, JsonV::Str(body))]),
    ]))])
}

/// The body of a registry search for `query`; a probe of new credentials
/// searches for `test`.
pub fn search_request_body(query: &str) -> (r: Json)
    ensures
        r@ == search_body(query@),
{
    let mut inner: Vec<(String, Json)> = Vec::new();
    inner.push(entry("SearchRegistry", jstr(query)));
    proof { lemma_view_entries(inner@); }
    let mut top: Vec<(String, Json)> = Vec::new();
    top.push(entry("request", object(inner)));
    proof { lemma_view_entries(top@); }
    assert(view_entries(inner@) =~= seq![("SearchRegistry"@, JsonV::Str(query@))]);
    assert(view_entries(top@) =~= search_body(query@)->Object_0);
    object(top)
}

/// Wraps a text as tool content: `{"content": [{"type": "text", "text": body}]}`.
pub fn text_content(body: &str) -> (r: Json)
    ensures
        r@ == hypergrid_reply_value(body@),
{
    let mut item: Vec<(String, Json)> = Vec::new();
    item.push(entry("type", jstr("text")));
    item.push(entry("text", jstr(body)));
    proof { lemma_view_entries(item@); }
    let item_v = object(item);
    let mut arr: Vec<Json> = Vec::new();
    arr.push(item_v);
    proof { lemma_view_items(arr@); }
    let mut top: Vec<(String, Json)> = Vec::new();
    top.push(entry("content", Json::Array(arr)));
    proof { lemma_view_entries(top@); }
    assert(view_entries(item@) =~= seq![("type"@, JsonV::Str("text"@)), ("text"@, JsonV::Str(body@))]);
    assert(view_items(arr@) =~= seq![item_v@]);
    assert(view_entries(top@) =~= hypergrid_reply_value(body@)->Object_0);
    object(top)
}

/// The result of a Hypergrid call from its HTTP status and body: status 400
/// and above is an error carrying both.
pub fn hypergrid_reply(status: u16, body: &str) -> (r: Result<Json, SpiderError>)
    ensures
        status >= 400 ==> r is Err && r->Err_0 is Transport
            && r->Err_0->Transport_0@ == "Hypergrid API error (status "@ + decimal_of(status as nat) + "): "@ + body@,
        status < 400 ==> r is Ok && r->Ok_0@ == hypergrid_reply_value(body@),
{
    if status >= 400 {
        let head = cat3("Hypergrid API error (status ", u32_decimal(status as u32).as_str(), "): ");
        Err(SpiderError::Transport(cat(head.as_str(), body)))
    } else {
        Ok(text_content(body))
    }
}

/// How long a tool call may wait for its response, in milliseconds.
pub const TOOL_TIMEOUT_MS: u64 = 60000;

/// Whether a tool call that has waited `waited_ms` has timed out.
pub fn tool_call_expired(waited_ms: u64) -> (r: bool)
    ensures
        r == (waited_ms > TOOL_TIMEOUT_MS),
{
    waited_ms > TOOL_TIMEOUT_MS
}

/// Whether a Hypergrid connection probe passed: 200, or 404 for an empty registry.
pub fn hypergrid_probe_ok(status: u16) -> (r: bool)
    ensures
        r == (status == 200 || status == 404),
{
    status == 200 || status == 404
}

fn string_param(params: &Json, name: &str) -> (r: Result<String, SpiderError>)
    ensures
        text_member(params@, name@) is Some ==> r is Ok && r->Ok_0@ == text_member(params@, name@)->0,
        text_member(params@, name@) is None ==> r is Err && r->Err_0 is MissingParameter && r->Err_0->MissingParameter_0@ == name@,
{
    match params.get_str(name) {
        Some(v) => Ok(copy_str(v)),
        None => Err(SpiderError::MissingParameter(copy_str(name))),
    }
}

/// The `[key, value]` pairs among the elements of a `callArgs` array: the
/// elements that are arrays of exactly two strings.
pub open spec fn is_call_pair(item: JsonV) -> bool {
    &&& item is Array
    &&& item->Array_0.len() == 2
    &&& item->Array_0[0] is Str
    &&& item->Array_0[1] is Str
}

pub open spec fn call_pairs(items: Seq<JsonV>) -> Seq<JsonV>
    decreases items.len(),
{
    if items.len() == 0 {
        items
    } else if is_call_pair(items.last()) {
        call_pairs(items.drop_last()).push(items.last())
    } else {
        call_pairs(items.drop_last())
    }
}

fn call_args(items: &Vec<Json>) -> (r: Vec<Json>)
    ensures
        view_items(r@) == call_pairs(view_items(items@)),
{
    proof { lemma_view_items(items@); }
    let ghost vs = view_items(items@);
    let mut out: Vec<Json> = Vec::new();
    let mut i: usize = 0;
    while i < items.len()
        invariant
            0 <= i <= items@.len(),
            vs == view_items(items@),
            vs.len() == items@.len(),
            forall|k: int| 0 <= k < items@.len() ==> #[trigger] vs[k] == items@[k]@,
            view_items(out@) == call_pairs(vs.take(i as int)),
        decreases items@.len() - i,
    {
        assert(vs.take(i + 1).drop_last() =~= vs.take(i as int));
        assert(vs.take(i + 1).last() == items@[i as int]@);
        match items[i].as_array() {
            Some(pair) => {
                proof { lemma_view_items(pair@); }
                if pair.len() == 2 && pair[0].as_str().is_some() && pair[1].as_str().is_some() {
                    let ghost before = out@;
                    out.push(copy_json(&items[i]));
                    assert(out@.drop_last() =~= before);
                    assert(view_items(out@) =~= call_pairs(vs.take(i as int)).push(items@[i as int]@));
                }
            },
            None => {},
        }
        i = i + 1;
    }
    assert(vs.take(i as int) =~= vs);
    out
}

/// `k` is the first pending request with id `id`.
pub open spec fn first_pending(pending: Seq<PendingMcpRequest>, id: Seq<char>, k: int) -> bool {
    &&& 0 <= k < pending.len()
    &&& pending[k].request_id@ == id
    &&& forall|j: int| 0 <= j < k ==> (#[trigger] pending[j]).request_id@ != id
}

pub proof fn lemma_first_pending_unique(pending: Seq<PendingMcpRequest>, id: Seq<char>, a: int, b: int)
    requires
        first_pending(pending, id, a),
        first_pending(pending, id, b),
    ensures
        a == b,
{
    if a < b {
        assert(pending[a].request_id@ != id);
    } else if b < a {
        assert(pending[b].request_id@ != id);
    }
}

/// A `tools/list` request of channel `ch` for server `sid` is pending.
pub open spec fn tools_list_pending(pending: Seq<PendingMcpRequest>, ch: u32, sid: Seq<char>) -> bool {
    exists|q: int| 0 <= q < pending.len() && #[trigger] pending[q].request_id@ == tools_request_id(ch)
        && pending[q].request_type is ToolsList && pending[q].server_id@ == sid
}

/// `pending` without the requests whose id is `id`, order kept.
pub open spec fn pending_without_id(pending: Seq<PendingMcpRequest>, id: Seq<char>) -> Seq<PendingMcpRequest>
    decreases pending.len(),
{
    if pending.len() == 0 {
        pending
    } else if pending.last().request_id@ == id {
        pending_without_id(pending.drop_last(), id)
    } else {
        pending_without_id(pending.drop_last(), id).push(pending.last())
    }
}

pub proof fn lemma_pending_without_id(pending: Seq<PendingMcpRequest>, id: Seq<char>)
    ensures
        !has_pending_id(pending_without_id(pending, id), id),
        forall|i: int| 0 <= i < pending_without_id(pending, id).len() ==>
            exists|k: int| 0 <= k < pending.len() && #[trigger] pending_without_id(pending, id)[i] == pending[k],
    decreases pending.len(),
{
    if pending.len() > 0 {
        let init = pending.drop_last();
        lemma_pending_without_id(init, id);
        let f = pending_without_id(pending, id);
        let g = pending_without_id(init, id);
        if has_pending_id(f, id) {
            let j = choose|j: int| 0 <= j < f.len() && #[trigger] f[j].request_id@ == id;
            assert(j < g.len() ==> g[j].request_id@ == id);
        }
        assert forall|i: int| 0 <= i < f.len() implies
            exists|k: int| 0 <= k < pending.len() && #[trigger] f[i] == pending[k] by {
            if i < g.len() {
                let k = choose|k: int| 0 <= k < init.len() && #[trigger] g[i] == init[k];
                assert(f[i] == pending[k]);
            } else {
                assert(f[i] == pending[pending.len() - 1]);
            }
        }
    }
}

impl SpiderState {
    /// Enrols a pending request, replacing any earlier one with its id.
    fn enrol_pending(&mut self, entry: PendingMcpRequest)
        requires
            has_connection(old(self).ws_connections@, entry.server_id@),
        ensures
            final(self).pending_mcp_requests@ == pending_without_id(old(self).pending_mcp_requests@, entry.request_id@).push(entry),
            old(self).pending_wf() ==> final(self).pending_wf(),
            forall|x: Seq<char>| !has_pending_id(old(self).pending_mcp_requests@, x) && x != entry.request_id@
                ==> !#[trigger] has_pending_id(final(self).pending_mcp_requests@, x),
            final(self).ws_connections == old(self).ws_connections,
            final(self).mcp_servers == old(self).mcp_servers,
            final(self).tool_responses == old(self).tool_responses,
            final(self).spider_api_keys == old(self).spider_api_keys,
            final(self).hypergrid_connections == old(self).hypergrid_connections,
            final(self).next_channel_id == old(self).next_channel_id,
    {
        let _ = self.remove_pending(entry.request_id.as_str());
        let ghost mid = self.pending_mcp_requests@;
        proof { lemma_pending_without_id(old(self).pending_mcp_requests@, entry.request_id@); }
        self.pending_mcp_requests.push(entry);
        proof {
            let ps = self.pending_mcp_requests@;
            let last = ps.len() - 1;
            assert(ps.drop_last() =~= mid);
            assert forall|x: Seq<char>| !has_pending_id(old(self).pending_mcp_requests@, x) && x != entry.request_id@
                implies !#[trigger] has_pending_id(ps, x) by {
                if has_pending_id(ps, x) {
                    let q = choose|q: int| 0 <= q < ps.len() && #[trigger] ps[q].request_id@ == x;
                    assert(q < last);
                    assert(mid[q] == ps[q]);
                    let k = choose|k: int| 0 <= k < old(self).pending_mcp_requests@.len() && #[trigger] mid[q] == old(self).pending_mcp_requests@[k];
                    assert(old(self).pending_mcp_requests@[k].request_id@ == x);
                }
            }
            if old(self).pending_wf() {
                assert forall|i: int, j: int| 0 <= i < j < ps.len() implies (#[trigger] ps[i]).request_id@ != (#[trigger] ps[j]).request_id@ by {
                    if j == last {
                        assert(mid[i] == ps[i]);
                        if mid[i].request_id@ == entry.request_id@ {
                            assert(has_pending_id(mid, entry.request_id@));
                        }
                    } else {
                        assert(mid[i] == ps[i] && mid[j] == ps[j]);
                    }
                }
                assert forall|p: int| 0 <= p < ps.len() implies has_connection(self.ws_connections@, (#[trigger] ps[p]).server_id@) by {
                    if p < last {
                        assert(mid[p] == ps[p]);
                    }
                }
            }
        }
    }

    /// Forgets the pending requests with id `id`; returns the kind of the
    /// first one, if any.
    pub fn remove_pending(&mut self, id: &str) -> (r: Option<McpRequestType>)
        ensures
            final(self).pending_mcp_requests@ == pending_without_id(old(self).pending_mcp_requests@, id@),
            !has_pending_id(final(self).pending_mcp_requests@, id@),
            r is Some <==> has_pending_id(old(self).pending_mcp_requests@, id@),
            r is Some ==> exists|k: int| #[trigger] first_pending(old(self).pending_mcp_requests@, id@, k)
                && old(self).pending_mcp_requests@[k].request_type == r->0,
            old(self).pending_wf() ==> final(self).pending_wf(),
            final(self).ws_connections == old(self).ws_connections,
            final(self).mcp_servers == old(self).mcp_servers,
            final(self).tool_responses == old(self).tool_responses,
            final(self).spider_api_keys == old(self).spider_api_keys,
            final(self).hypergrid_connections == old(self).hypergrid_connections,
            final(self).next_channel_id == old(self).next_channel_id,
    {
        let ghost orig = self.pending_mcp_requests@;
        let mut found: Option<McpRequestType> = None;
        let mut i: usize = 0;
        let ghost mut j: int = 0;
        while i < self.pending_mcp_requests.len()
            invariant
                0 <= i <= self.pending_mcp_requests@.len(),
                0 <= j <= orig.len(),
                self.pending_mcp_requests@.take(i as int) == pending_without_id(orig.take(j), id@),
                self.pending_mcp_requests@.skip(i as int) == orig.skip(j),
                self.pending_mcp_requests@.len() - i == orig.len() - j,
                orig == old(self).pending_mcp_requests@,
                found is Some <==> has_pending_id(orig.take(j), id@),
                found is Some ==> exists|k: int| #[trigger] first_pending(orig, id@, k) && orig[k].request_type == found->0,
                found is None ==> forall|k: int| 0 <= k < j ==> (#[trigger] orig[k]).request_id@ != id@,
                self.ws_connections == old(self).ws_connections,
                self.mcp_servers == old(self).mcp_servers,
                self.tool_responses == old(self).tool_responses,
                self.spider_api_keys == old(self).spider_api_keys,
                self.hypergrid_connections == old(self).hypergrid_connections,
                self.next_channel_id == old(self).next_channel_id,
            decreases self.pending_mcp_requests@.len() - i,
        {
            let ghost before = self.pending_mcp_requests@;
            proof { lemma_filter_step(before, orig, i as int, j); }
            if str_eq(self.pending_mcp_requests[i].request_id.as_str(), id) {
                let p = self.pending_mcp_requests.remove(i);
                if found.is_none() {
                    assert(first_pending(orig, id@, j));
                    found = Some(p.request_type);
                }
                assert(orig.take(j + 1)[j] == orig[j]);
            } else {
                i = i + 1;
                proof {
                    if has_pending_id(orig.take(j + 1), id@) {
                        let k = choose|k: int| 0 <= k < j + 1 && #[trigger] orig.take(j + 1)[k].request_id@ == id@;
                        assert(orig.take(j)[k].request_id@ == id@);
                    }
                }
            }
            proof {
                if has_pending_id(orig.take(j), id@) {
                    let k = choose|k: int| 0 <= k < j && #[trigger] orig.take(j)[k].request_id@ == id@;
                    assert(orig.take(j + 1)[k].request_id@ == id@);
                }
                j = j + 1;
            }
        }
        assert(orig.take(j) =~= orig);
        assert(self.pending_mcp_requests@.take(i as int) =~= self.pending_mcp_requests@);
        proof {
            lemma_pending_without_id(orig, id@);
            if pending_ids_unique(orig) {
                lemma_unique_without_id(orig, id@);
            }
            let after = self.pending_mcp_requests@;
            if old(self).pending_wf() {
                assert forall|p: int| 0 <= p < after.len() implies has_connection(self.ws_connections@, (#[trigger] after[p]).server_id@) by {
                    let q = choose|q: int| 0 <= q < orig.len() && #[trigger] after[p] == orig[q];
                    assert(has_connection(self.ws_connections@, orig[q].server_id@));
                }
            }
        }
        found
    }

    /// Drops the responses stored for request `id`.
    fn drop_responses(&mut self, id: &str)
        ensures
            final(self).tool_responses@ == responses_without(old(self).tool_responses@, id@),
            final(self).pending_mcp_requests == old(self).pending_mcp_requests,
            final(self).ws_connections == old(self).ws_connections,
            final(self).mcp_servers == old(self).mcp_servers,
            final(self).spider_api_keys == old(self).spider_api_keys,
            final(self).hypergrid_connections == old(self).hypergrid_connections,
    {
        let ghost orig = self.tool_responses@;
        let mut i: usize = 0;
        let ghost mut j: int = 0;
        while i < self.tool_responses.len()
            invariant
                0 <= i <= self.tool_responses@.len(),
                0 <= j <= orig.len(),
                self.tool_responses@.take(i as int) == responses_without(orig.take(j), id@),
                self.tool_responses@.skip(i as int) == orig.skip(j),
                self.tool_responses@.len() - i == orig.len() - j,
                orig == old(self).tool_responses@,
                self.pending_mcp_requests == old(self).pending_mcp_requests,
                self.ws_connections == old(self).ws_connections,
                self.mcp_servers == old(self).mcp_servers,
                self.spider_api_keys == old(self).spider_api_keys,
                self.hypergrid_connections == old(self).hypergrid_connections,
            decreases self.tool_responses@.len() - i,
        {
            let ghost before = self.tool_responses@;
            proof { lemma_filter_step(before, orig, i as int, j); }
            if str_eq(self.tool_responses[i].0.as_str(), id) {
                self.tool_responses.remove(i);
            } else {
                i = i + 1;
            }
            proof { j = j + 1; }
        }
        assert(orig.take(j) =~= orig);
        assert(self.tool_responses@.take(i as int) =~= self.tool_responses@);
    }

    /// Stores the response to request `id`, replacing any earlier one.
    fn store_tool_response(&mut self, id: &str, value: Json)
        ensures
            response_for(final(self).tool_responses@, id@) == Some(value@),
            forall|x: Seq<char>| x != id@ ==> #[trigger] response_for(final(self).tool_responses@, x) == response_for(old(self).tool_responses@, x),
            final(self).pending_mcp_requests == old(self).pending_mcp_requests,
            final(self).ws_connections == old(self).ws_connections,
            final(self).mcp_servers == old(self).mcp_servers,
            final(self).spider_api_keys == old(self).spider_api_keys,
            final(self).hypergrid_connections == old(self).hypergrid_connections,
    {
        self.drop_responses(id);
        proof { lemma_responses_without(old(self).tool_responses@, id@); }
        let ghost before = self.tool_responses@;
        self.tool_responses.push((copy_str(id), value));
        assert(self.tool_responses@.drop_last() =~= before);
        assert forall|x: Seq<char>| x != id@ implies #[trigger] response_for(self.tool_responses@, x) == response_for(old(self).tool_responses@, x) by {
            assert(response_for(self.tool_responses@, x) == response_for(before, x));
        }
    }

    /// Consumes the response to tool call `request_id`, if it has arrived:
    /// the response and the pending request are forgotten and the result
    /// handed back (see [`tool_call_value`]).
    pub fn take_tool_response(&mut self, request_id: &str) -> (r: Option<Json>)
        ensures
            response_for(old(self).tool_responses@, request_id@) is None ==> r is None && *final(self) == *old(self),
            response_for(old(self).tool_responses@, request_id@) is Some ==> {
                &&& r is Some
                &&& r->0@ == tool_call_value(response_for(old(self).tool_responses@, request_id@)->0)
                &&& response_for(final(self).tool_responses@, request_id@) is None
                &&& !has_pending_id(final(self).pending_mcp_requests@, request_id@)
            },
            old(self).pending_wf() ==> final(self).pending_wf(),
    {
        let mut k: usize = self.tool_responses.len();
        let ghost rs = self.tool_responses@;
        assert(rs.take(k as int) =~= rs);
        while k > 0
            invariant
                0 <= k <= rs.len(),
                rs == self.tool_responses@,
                *self == *old(self),
                response_for(rs, request_id@) == response_for(rs.take(k as int), request_id@),
            decreases k,
        {
            assert(rs.take(k as int).drop_last() =~= rs.take(k - 1));
            if str_eq(self.tool_responses[k - 1].0.as_str(), request_id) {
                let response = copy_json(&self.tool_responses[k - 1].1);
                self.drop_responses(request_id);
                proof { lemma_responses_without(rs, request_id@); }
                let _ = self.remove_pending(request_id);
                let out = match response.get("content") {
                    Some(c) => copy_json(c),
                    None => response,
                };
                return Some(out);
            }
            k = k - 1;
        }
        assert(rs.take(0) =~= Seq::<(String, Json)>::empty());
        None
    }

    /// Gives up on tool call `request_id` after its timeout: the pending
    /// request is forgotten, so a late response is discarded.
    pub fn abandon_tool_call(&mut self, request_id: &str, tool_name: &str) -> (r: SpiderError)
        ensures
            !has_pending_id(final(self).pending_mcp_requests@, request_id@),
            final(self).pending_mcp_requests@ == pending_without_id(old(self).pending_mcp_requests@, request_id@),
            r is ToolTimeout && r->ToolTimeout_0@ == tool_name@,
            response_for(final(self).tool_responses@, request_id@) is None,
            forall|x: Seq<char>| x != request_id@ ==> #[trigger] response_for(final(self).tool_responses@, x) == response_for(old(self).tool_responses@, x),
            old(self).pending_wf() ==> final(self).pending_wf(),
    {
        let _ = self.remove_pending(request_id);
        let ghost mid = self.tool_responses@;
        self.drop_responses(request_id);
        proof { lemma_responses_without(mid, request_id@); }
        SpiderError::ToolTimeout(copy_str(tool_name))
    }

    /// Sends `tools/list` on connection `j`: registers its pending request and
    /// returns the frame.
    fn request_tools_list(&mut self, j: usize) -> (r: Json)
        requires
            j < old(self).ws_connections@.len(),
        ensures
            r@ == request_frame("tools/list"@, None, tools_request_id(old(self).ws_connections@[j as int].channel_id)),
            final(self).pending_mcp_requests@.drop_last() == pending_without_id(old(self).pending_mcp_requests@, tools_request_id(old(self).ws_connections@[j as int].channel_id)),
            final(self).pending_mcp_requests@.last().request_id@ == tools_request_id(old(self).ws_connections@[j as int].channel_id),
            final(self).pending_mcp_requests@.last().request_type is ToolsList,
            final(self).pending_mcp_requests@.last().server_id@ == old(self).ws_connections@[j as int].server_id@,
            tools_list_pending(final(self).pending_mcp_requests@, old(self).ws_connections@[j as int].channel_id, old(self).ws_connections@[j as int].server_id@),
            forall|id: Seq<char>| !has_pending_id(old(self).pending_mcp_requests@, id) && id != tools_request_id(old(self).ws_connections@[j as int].channel_id)
                ==> !#[trigger] has_pending_id(final(self).pending_mcp_requests@, id),
            forall|ch: u32, sid: Seq<char>| #[trigger] tools_list_pending(old(self).pending_mcp_requests@, ch, sid)
                && tools_request_id(ch) != tools_request_id(old(self).ws_connections@[j as int].channel_id)
                ==> tools_list_pending(final(self).pending_mcp_requests@, ch, sid),
            old(self).pending_wf() ==> final(self).pending_wf(),
            final(self).ws_connections == old(self).ws_connections,
            final(self).mcp_servers == old(self).mcp_servers,
            final(self).tool_responses == old(self).tool_responses,
            final(self).spider_api_keys == old(self).spider_api_keys,
            final(self).hypergrid_connections == old(self).hypergrid_connections,
    {
        let ghost before = self.pending_mcp_requests@;
        let channel_id = self.ws_connections[j].channel_id;
        let id = cat("tools_", u32_decimal(channel_id).as_str());
        let server_id = copy_str(self.ws_connections[j].server_id.as_str());
        assert(self.ws_connections@[j as int].server_id@ == server_id@);
        self.enrol_pending(PendingMcpRequest {
            request_id: id,
            conversation_id: None,
            server_id,
            request_type: McpRequestType::ToolsList,
        });
        proof {
            let ps = self.pending_mcp_requests@;
            let last = ps.len() - 1;
            assert(ps[last].request_id@ == tools_request_id(channel_id));
            lemma_pending_without_id(before, tools_request_id(channel_id));
            assert forall|ch: u32, sid: Seq<char>| #[trigger] tools_list_pending(before, ch, sid) && tools_request_id(ch) != tools_request_id(channel_id)
                implies tools_list_pending(ps, ch, sid) by {
                let q = choose|q: int| 0 <= q < before.len() && #[trigger] before[q].request_id@ == tools_request_id(ch)
                    && before[q].request_type is ToolsList && before[q].server_id@ == sid;
                lemma_pending_kept_by_id(before, tools_request_id(channel_id), q);
                let f = pending_without_id(before, tools_request_id(channel_id));
                let k = choose|k: int| 0 <= k < f.len() && #[trigger] f[k] == before[q];
                assert(ps.drop_last() == f);
                assert(ps[k] == f[k]);
            }
        }
        tools_list_request(channel_id)
    }

    /// Handles a frame from an MCP server on `channel_id` and returns the
    /// frames to send back on that channel. A response consumes its pending
    /// request: `initialize` is followed by `notifications/initialized` and
    /// `tools/list`; `tools/list` replaces the server's tools and marks it
    /// connected; a tool call's outcome is stored for its waiting caller. A
    /// response to no pending request is discarded. `tools/list_changed`
    /// asks for the tools again.
    pub fn handle_mcp_message(&mut self, channel_id: u32, message: &Json) -> (r: Vec<Json>)
        ensures
            old(self).pending_wf() ==> final(self).pending_wf(),
            (forall|k: int| #[trigger] first_pending(old(self).pending_mcp_requests@, text_member(message@, "id"@)->0, k)
                && text_member(message@, "id"@) is Some ==> !(old(self).pending_mcp_requests@[k].request_type is ToolCall))
                ==> final(self).tool_responses == old(self).tool_responses,
            (forall|k: int| #[trigger] first_pending(old(self).pending_mcp_requests@, text_member(message@, "id"@)->0, k)
                && text_member(message@, "id"@) is Some ==> !(old(self).pending_mcp_requests@[k].request_type is ToolsList))
                ==> final(self).mcp_servers == old(self).mcp_servers,
            (forall|k: int| 0 <= k < old(self).ws_connections@.len() ==> #[trigger] old(self).ws_connections@[k].channel_id != channel_id)
                ==> *final(self) == *old(self) && r@.len() == 0,
            (text_member(message@, "id"@) is None || !has_pending_id(old(self).pending_mcp_requests@, text_member(message@, "id"@)->0))
                ==> final(self).tool_responses == old(self).tool_responses,
            forall|k: int| 0 <= k < old(self).pending_mcp_requests@.len()
                && (#[trigger] old(self).pending_mcp_requests@[k]).request_id@ == text_member(message@, "id"@)->0
                && text_member(message@, "id"@) is Some
                && old(self).pending_mcp_requests@[k].request_type is ToolCall
                && old(self).pending_wf()
                && (exists|c: int| 0 <= c < old(self).ws_connections@.len() && old(self).ws_connections@[c].channel_id == channel_id)
                ==> response_for(final(self).tool_responses@, text_member(message@, "id"@)->0) == Some(tool_call_outcome(message@)),
            forall|k: int| #[trigger] first_pending(old(self).pending_mcp_requests@, text_member(message@, "id"@)->0, k)
                && text_member(message@, "id"@) is Some
                && old(self).pending_mcp_requests@[k].request_type is Initialize
                && member(message@, "result"@) is Some
                && (exists|c: int| 0 <= c < old(self).ws_connections@.len() && old(self).ws_connections@[c].channel_id == channel_id)
                ==> {
                    &&& r@.len() >= 2
                    &&& r@[0]@ == notification_frame("notifications/initialized"@)
                    &&& r@[1]@ == request_frame("tools/list"@, None, tools_request_id(channel_id))
                },
            forall|k: int, c: int, i: int| #[trigger] first_pending(old(self).pending_mcp_requests@, text_member(message@, "id"@)->0, k)
                && text_member(message@, "id"@) is Some
                && old(self).pending_mcp_requests@[k].request_type is ToolsList
                && #[trigger] first_on_channel(old(self).ws_connections@, channel_id, c)
                && #[trigger] first_server(old(self).mcp_servers@, old(self).ws_connections@[c].server_id@, i)
                && member(message@, "result"@) is Some
                && member(member(message@, "result"@)->0, "tools"@) is Some
                && member(member(message@, "result"@)->0, "tools"@)->0 is Array
                ==> final(self).mcp_servers@[i].connected
                    && tools_listed(final(self).mcp_servers@[i].tools@, member(member(message@, "result"@)->0, "tools"@)->0->Array_0),
            (exists|c: int| 0 <= c < old(self).ws_connections@.len() && old(self).ws_connections@[c].channel_id == channel_id)
                && text_member(message@, "method"@) is None ==> {
                let id = text_member(message@, "id"@);
                &&& id is None ==> final(self).pending_mcp_requests == old(self).pending_mcp_requests
                &&& id is Some && (forall|k: int| #[trigger] first_pending(old(self).pending_mcp_requests@, id->0, k)
                        ==> !(old(self).pending_mcp_requests@[k].request_type is Initialize))
                    ==> final(self).pending_mcp_requests@ == pending_without_id(old(self).pending_mcp_requests@, id->0)
                &&& id is Some && member(message@, "result"@) is None ==> {
                    &&& final(self).pending_mcp_requests@ == pending_without_id(old(self).pending_mcp_requests@, id->0)
                    &&& final(self).ws_connections == old(self).ws_connections
                    &&& final(self).mcp_servers == old(self).mcp_servers
                }
            },
            forall|c: int| #[trigger] first_on_channel(old(self).ws_connections@, channel_id, c) ==> {
                let sid = old(self).ws_connections@[c].server_id@;
                let id = text_member(message@, "id"@);
                &&& id is Some && id->0 != tools_request_id(channel_id) ==> !has_pending_id(final(self).pending_mcp_requests@, id->0)
                &&& (forall|k: int| #[trigger] first_pending(old(self).pending_mcp_requests@, id->0, k)
                    && id is Some
                    && old(self).pending_mcp_requests@[k].request_type is Initialize
                    && member(message@, "result"@) is Some
                    ==> final(self).ws_connections@[c].initialized && tools_list_pending(final(self).pending_mcp_requests@, channel_id, sid))
                &&& text_member(message@, "method"@) == Some("tools/list_changed"@) ==> {
                    &&& r@.len() >= 1
                    &&& r@.last()@ == request_frame("tools/list"@, None, tools_request_id(channel_id))
                    &&& tools_list_pending(final(self).pending_mcp_requests@, channel_id, sid)
                }
            },
            final(self).spider_api_keys == old(self).spider_api_keys,
    {
        let j = match self.connection_on_channel(channel_id) {
            Some(j) => j,
            None => {
                return Vec::new();
            },
        };
        proof {
            assert forall|c: int| #[trigger] first_on_channel(old(self).ws_connections@, channel_id, c) implies c == j by {
                if c < j {
                    assert(self.ws_connections@[c].channel_id != channel_id);
                } else if c > j {
                    assert(self.ws_connections@[j as int].channel_id != channel_id);
                }
            }
        }
        let ghost sid = self.ws_connections@[j as int].server_id@;
        let mut frames: Vec<Json> = Vec::new();
        match message.get_str("id") {
            Some(id) => {
                let ghost before = self.pending_mcp_requests@;
                let removed = self.remove_pending(id);
                proof {
                    if removed is Some {
                        let k0 = choose|k: int| #[trigger] first_pending(before, id@, k) && before[k].request_type == removed->0;
                        assert forall|k: int| #[trigger] first_pending(before, id@, k) implies before[k].request_type == removed->0 by {
                            lemma_first_pending_unique(before, id@, k, k0);
                        }
                    } else {
                        assert forall|k: int| !#[trigger] first_pending(before, id@, k) by {
                            if first_pending(before, id@, k) {
                                assert(has_pending_id(before, id@));
                            }
                        }
                    }
                }
                match removed {
                    Some(McpRequestType::Initialize) => {
                        if message.get("result").is_some() {
                            self.ws_connections[j].initialized = true;
                            proof {
                                if old(self).pending_wf() {
                                    assert forall|p: int| 0 <= p < self.pending_mcp_requests@.len() implies
                                        has_connection(self.ws_connections@, (#[trigger] self.pending_mcp_requests@[p]).server_id@) by {
                                        let q = self.pending_mcp_requests@[p];
                                        let c = choose|c: int| 0 <= c < self.ws_connections@.len() && #[trigger] old(self).ws_connections@[c].server_id@ == q.server_id@;
                                        assert(self.ws_connections@[c].server_id == old(self).ws_connections@[c].server_id);
                                    }
                                }
                            }
                            frames.push(notification("notifications/initialized"));
                            let list = self.request_tools_list(j);
                            frames.push(list);
                        }
                    },
                    Some(McpRequestType::ToolsList) => {
                        self.take_tools_listing(j, message);
                    },
                    Some(McpRequestType::ToolCall { tool_name: _ }) => {
                        let outcome = tool_call_outcome_of(message);
                        self.store_tool_response(id, outcome);
                    },
                    None => {},
                }
            },
            None => {},
        }
        match message.get_str("method") {
            Some(method) => {
                if str_eq(method, "tools/list_changed") {
                    let list = self.request_tools_list(j);
                    frames.push(list);
                }
            },
            None => {},
        }
        frames
    }

    /// Replaces the tools of connection `j`'s server with those a `tools/list`
    /// response lists, and marks the server connected.
    fn take_tools_listing(&mut self, j: usize, message: &Json)
        requires
            j < old(self).ws_connections@.len(),
        ensures
            member(message@, "result"@) is None ==> *final(self) == *old(self),
            old(self).pending_wf() ==> final(self).pending_wf(),
            final(self).pending_mcp_requests == old(self).pending_mcp_requests,
            final(self).tool_responses == old(self).tool_responses,
            final(self).spider_api_keys == old(self).spider_api_keys,
            final(self).ws_connections@.len() == old(self).ws_connections@.len(),
            forall|c: int| 0 <= c < old(self).ws_connections@.len() ==> (#[trigger] final(self).ws_connections@[c]).server_id == old(self).ws_connections@[c].server_id
                && final(self).ws_connections@[c].channel_id == old(self).ws_connections@[c].channel_id,
            forall|k: int| first_server(old(self).mcp_servers@, old(self).ws_connections@[j as int].server_id@, k)
                && member(message@, "result"@) is Some
                && member(member(message@, "result"@)->0, "tools"@) is Some
                && member(member(message@, "result"@)->0, "tools"@)->0 is Array
                ==> (#[trigger] final(self).mcp_servers@[k]).connected
                    && tools_listed(final(self).mcp_servers@[k].tools@, member(member(message@, "result"@)->0, "tools"@)->0->Array_0),
    {
        let result = match message.get("result") {
            Some(r) => r,
            None => { return; },
        };
        let items = match result.get("tools") {
            Some(t) => match t.as_array() {
                Some(a) => a,
                None => { return; },
            },
            None => { return; },
        };
        let tools = tools_from_listing(items);
        self.ws_connections[j].tools = copy_tools(&tools);
        proof {
            if old(self).pending_wf() {
                assert forall|p: int| 0 <= p < self.pending_mcp_requests@.len() implies
                    has_connection(self.ws_connections@, (#[trigger] self.pending_mcp_requests@[p]).server_id@) by {
                    let q = self.pending_mcp_requests@[p];
                    let c = choose|c: int| 0 <= c < self.ws_connections@.len() && #[trigger] old(self).ws_connections@[c].server_id@ == q.server_id@;
                    assert(self.ws_connections@[c].server_id == old(self).ws_connections@[c].server_id);
                }
            }
        }
        let sid = copy_str(self.ws_connections[j].server_id.as_str());
        match self.server_index(sid.as_str()) {
            Some(i) => {
                self.mcp_servers[i].tools = tools;
                self.mcp_servers[i].connected = true;
                proof {
                    assert forall|k: int| first_server(old(self).mcp_servers@, sid@, k) implies k == i by {
                        lemma_first_server_unique(old(self).mcp_servers@, sid@, i as int, k);
                    }
                }
            },
            None => {},
        }
    }
}

/// The outcome of a tool call response (see [`tool_call_outcome`]).
pub fn tool_call_outcome_of(message: &Json) -> (r: Json)
    ensures
        r@ == tool_call_outcome(message@),
{
    match message.get("result") {
        Some(res) => copy_json(res),
        None => {
            let mut v: Vec<(String, Json)> = Vec::new();
            match message.get("error") {
                Some(e) => {
                    v.push(entry("error", copy_json(e)));
                },
                None => {
                    v.push(entry("error", jstr("Invalid MCP response format")));
                },
            }
            proof { lemma_view_entries(v@); }
            assert(view_entries(v@) =~= tool_call_outcome(message@)->Object_0);
            object(v)
        },
    }
}

/// The request id of a tool call on `channel_id`: `tool_<channel>_<uuid>`.
pub open spec fn tool_request_id(channel_id: u32, uuid: Seq<char>) -> Seq<char> {
    "tool_"@ + decimal_of(channel_id as nat) + "_"@ + uuid
}

/// The parameters of `tools/call`.
pub open spec fn tools_call_params(tool_name: Seq<char>, arguments: JsonV) -> JsonV {
    JsonV::Object(seq![("name"@, JsonV::Str(tool_name)), ("arguments"@, arguments)])
}

/// Whether `server` offers a tool named `tool_name`.
pub open spec fn offers_tool(server: McpServer, tool_name: Seq<char>) -> bool {
    exists|t: int| 0 <= t < server.tools@.len() && #[trigger] server.tools@[t].name@ == tool_name
}

/// The first connected server with id `id`.
pub open spec fn first_connected(servers: Seq<McpServer>, id: Seq<char>, i: int) -> bool {
    &&& 0 <= i < servers.len()
    &&& servers[i].id@ == id
    &&& servers[i].connected
    &&& forall|k: int| 0 <= k < i ==> !(#[trigger] servers[k].id@ == id && servers[k].connected)
}

fn offers(server: &McpServer, tool_name: &str) -> (r: bool)
    ensures
        r == offers_tool(*server, tool_name@),
{
    let mut t: usize = 0;
    while t < server.tools.len()
        invariant
            0 <= t <= server.tools@.len(),
            forall|k: int| 0 <= k < t ==> #[trigger] server.tools@[k].name@ != tool_name@,
        decreases server.tools@.len() - t,
    {
        if str_eq(server.tools[t].name.as_str(), tool_name) {
            return true;
        }
        t = t + 1;
    }
    false
}

/// What starting tool `tn` on server `sid` with arguments `args` does, from
/// state `a` to state `b`, when the request id is built from `u`.
pub open spec fn tool_call_begun(
    a: SpiderState,
    b: SpiderState,
    sid: Seq<char>,
    tn: Seq<char>,
    args: JsonV,
    u: Seq<char>,
    r: Result<ToolDispatch, SpiderError>,
) -> bool {
    &&& (a.pending_wf() ==> b.pending_wf())
    &&& (b.ws_connections == a.ws_connections)
    &&& (b.mcp_servers == a.mcp_servers)
    &&& (b.tool_responses == a.tool_responses)
    &&& (b.spider_api_keys == a.spider_api_keys)
    &&& ((forall|k: int| 0 <= k < a.mcp_servers@.len() ==> !(#[trigger] a.mcp_servers@[k].id@ == sid && a.mcp_servers@[k].connected))
                    ==> r is Err && r->Err_0 is ServerUnavailable && b == a)
    &&& (forall|i: int| #[trigger] first_connected(a.mcp_servers@, sid, i) ==> {
                    let srv = a.mcp_servers@[i];
                    &&& !offers_tool(srv, tn) ==> r is Err && r->Err_0 is ToolNotOnServer && b == a
                    &&& offers_tool(srv, tn) && is_ws_transport(srv.transport.transport_type@) ==> {
                        &&& !has_connection(a.ws_connections@, sid) ==> r is Err && r->Err_0 is NoWebSocket && b == a
                        &&& has_connection(a.ws_connections@, sid) ==> {
                            &&& r is Ok && r->Ok_0 is WebSocket
                            &&& r->Ok_0->WebSocket_request_id@ == tool_request_id(r->Ok_0->WebSocket_channel_id, u)
                            &&& r->Ok_0->WebSocket_frame@ == request_frame("tools/call"@, Some(tools_call_params(tn, args)), r->Ok_0->WebSocket_request_id@)
                            &&& exists|c: int| 0 <= c < a.ws_connections@.len() && a.ws_connections@[c].server_id@ == sid
                                && #[trigger] a.ws_connections@[c].channel_id == r->Ok_0->WebSocket_channel_id
                            &&& b.pending_mcp_requests@.drop_last() == pending_without_id(a.pending_mcp_requests@, r->Ok_0->WebSocket_request_id@)
                            &&& b.pending_mcp_requests@.last().request_id@ == r->Ok_0->WebSocket_request_id@
                            &&& b.pending_mcp_requests@.last().server_id@ == sid
                            &&& b.pending_mcp_requests@.last().request_type is ToolCall
                        }
                    }
                    &&& offers_tool(srv, tn) && srv.transport.transport_type@ == "hypergrid"@ ==> {
                        &&& tn == "hypergrid_search"@ ==> {
                            &&& (forall|k: int| 0 <= k < a.hypergrid_connections@.len() ==> (#[trigger] a.hypergrid_connections@[k]).server_id@ != sid)
                                ==> r == Err::<ToolDispatch, SpiderError>(SpiderError::HypergridNotConfigured)
                            &&& r is Ok ==> r->Ok_0 is HypergridPost && r->Ok_0->HypergridPost_body@ == search_body(text_member(args, "query"@)->0)
                            &&& (exists|k: int| 0 <= k < a.hypergrid_connections@.len() && (#[trigger] a.hypergrid_connections@[k]).server_id@ == sid)
                                && text_member(args, "query"@) is Some ==> r is Ok
                        }
                        &&& tn == "hypergrid_call"@ ==> {
                            &&& (forall|k: int| 0 <= k < a.hypergrid_connections@.len() ==> (#[trigger] a.hypergrid_connections@[k]).server_id@ != sid)
                                ==> r == Err::<ToolDispatch, SpiderError>(SpiderError::HypergridNotConfigured)
                            &&& r is Ok ==> r->Ok_0 is HypergridPost && r->Ok_0->HypergridPost_body@ == call_body(
                                text_member(args, "providerId"@)->0,
                                text_member(args, "providerName"@)->0,
                                call_pairs(member(args, "callArgs"@)->0->Array_0))
                            &&& (exists|k: int| 0 <= k < a.hypergrid_connections@.len() && (#[trigger] a.hypergrid_connections@[k]).server_id@ == sid)
                                && text_member(args, "providerId"@) is Some && text_member(args, "providerName"@) is Some
                                && member(args, "callArgs"@) is Some && member(args, "callArgs"@)->0 is Array ==> r is Ok
                        }
                        &&& tn == "hypergrid_authorize"@ ==> {
                            &&& (text_member(args, "url"@) is Some && text_member(args, "token"@) is Some
                                && text_member(args, "client_id"@) is Some && text_member(args, "node"@) is Some) <==> r is Ok
                            &&& r is Ok ==> r->Ok_0 is HypergridAuthorize
                                && r->Ok_0->HypergridAuthorize_url@ == text_member(args, "url"@)->0
                                && r->Ok_0->HypergridAuthorize_token@ == text_member(args, "token"@)->0
                                && r->Ok_0->HypergridAuthorize_client_id@ == text_member(args, "client_id"@)->0
                                && r->Ok_0->HypergridAuthorize_node@ == text_member(args, "node"@)->0
                        }
                        &&& tn != "hypergrid_search"@ && tn != "hypergrid_authorize"@ && tn != "hypergrid_call"@
                            ==> r is Err && r->Err_0 is UnknownHypergridTool
                        &&& b == a
                    }
                    &&& offers_tool(srv, tn) && srv.transport.transport_type@ == "http"@ ==> r is Ok && r->Ok_0 is Done && b == a
                })
    &&& (r is Ok && r->Ok_0 is HypergridPost ==> exists|k: int| 0 <= k < a.hypergrid_connections@.len()
                    && (#[trigger] a.hypergrid_connections@[k]).server_id@ == sid
                    && r->Ok_0->HypergridPost_url@ == a.hypergrid_connections@[k].url@
                    && r->Ok_0->HypergridPost_token@ == a.hypergrid_connections@[k].token@
                    && r->Ok_0->HypergridPost_client_id@ == a.hypergrid_connections@[k].client_id@)
}

impl SpiderState {
    fn connected_server_index(&self, id: &str) -> (r: Option<usize>)
        ensures
            r is Some ==> first_connected(self.mcp_servers@, id@, r->0 as int),
            r is None ==> forall|k: int| 0 <= k < self.mcp_servers@.len() ==> !(#[trigger] self.mcp_servers@[k].id@ == id@ && self.mcp_servers@[k].connected),
    {
        let mut i: usize = 0;
        while i < self.mcp_servers.len()
            invariant
                0 <= i <= self.mcp_servers@.len(),
                forall|k: int| 0 <= k < i ==> !(#[trigger] self.mcp_servers@[k].id@ == id@ && self.mcp_servers@[k].connected),
            decreases self.mcp_servers@.len() - i,
        {
            if self.mcp_servers[i].connected && str_eq(self.mcp_servers[i].id.as_str(), id) {
                return Some(i);
            }
            i = i + 1;
        }
        None
    }

    fn hypergrid_index(&self, server_id: &str) -> (r: Option<usize>)
        ensures
            r is Some ==> r->0 < self.hypergrid_connections@.len() && self.hypergrid_connections@[r->0 as int].server_id@ == server_id@,
            r is None ==> forall|k: int| 0 <= k < self.hypergrid_connections@.len() ==> (#[trigger] self.hypergrid_connections@[k]).server_id@ != server_id@,
    {
        let mut i: usize = 0;
        while i < self.hypergrid_connections.len()
            invariant
                0 <= i <= self.hypergrid_connections@.len(),
                forall|k: int| 0 <= k < i ==> (#[trigger] self.hypergrid_connections@[k]).server_id@ != server_id@,
            decreases self.hypergrid_connections@.len() - i,
        {
            if str_eq(self.hypergrid_connections[i].server_id.as_str(), server_id) {
                return Some(i);
            }
            i = i + 1;
        }
        None
    }

    /// Starts tool `tool_name` on server `server_id` with `arguments`. The
    /// server must be connected and offer the tool. WebSocket servers get a
    /// `tools/call` request with id `tool_<channel>_<uuid>`, registered as
    /// pending; Hypergrid tools turn into a credential probe or a registry
    /// request; `http` servers answer at once.
    pub fn begin_tool_call_with(
        &mut self,
        server_id: &str,
        tool_name: &str,
        arguments: &Json,
        conversation_id: Option<String>,
        uuid: &str,
    ) -> (r: Result<ToolDispatch, SpiderError>)
        ensures
            old(self).pending_wf() ==> final(self).pending_wf(),
            final(self).ws_connections == old(self).ws_connections,
            final(self).mcp_servers == old(self).mcp_servers,
            final(self).tool_responses == old(self).tool_responses,
            final(self).spider_api_keys == old(self).spider_api_keys,
            (forall|k: int| 0 <= k < old(self).mcp_servers@.len() ==> !(#[trigger] old(self).mcp_servers@[k].id@ == server_id@ && old(self).mcp_servers@[k].connected))
                    ==> r is Err && r->Err_0 is ServerUnavailable && *final(self) == *old(self),
            forall|i: int| #[trigger] first_connected(old(self).mcp_servers@, server_id@, i) ==> {
                    let srv = old(self).mcp_servers@[i];
                    &&& !offers_tool(srv, tool_name@) ==> r is Err && r->Err_0 is ToolNotOnServer && *final(self) == *old(self)
                    &&& offers_tool(srv, tool_name@) && is_ws_transport(srv.transport.transport_type@) ==> {
                        &&& !has_connection(old(self).ws_connections@, server_id@) ==> r is Err && r->Err_0 is NoWebSocket && *final(self) == *old(self)
                        &&& has_connection(old(self).ws_connections@, server_id@) ==> {
                            &&& r is Ok && r->Ok_0 is WebSocket
                            &&& r->Ok_0->WebSocket_request_id@ == tool_request_id(r->Ok_0->WebSocket_channel_id, uuid@)
                            &&& r->Ok_0->WebSocket_frame@ == request_frame("tools/call"@, Some(tools_call_params(tool_name@, arguments@)), r->Ok_0->WebSocket_request_id@)
                            &&& exists|c: int| 0 <= c < old(self).ws_connections@.len() && old(self).ws_connections@[c].server_id@ == server_id@
                                && #[trigger] old(self).ws_connections@[c].channel_id == r->Ok_0->WebSocket_channel_id
                            &&& final(self).pending_mcp_requests@.drop_last() == pending_without_id(old(self).pending_mcp_requests@, r->Ok_0->WebSocket_request_id@)
                            &&& final(self).pending_mcp_requests@.last().request_id@ == r->Ok_0->WebSocket_request_id@
                            &&& final(self).pending_mcp_requests@.last().server_id@ == server_id@
                            &&& final(self).pending_mcp_requests@.last().request_type is ToolCall
                        }
                    }
                    &&& offers_tool(srv, tool_name@) && srv.transport.transport_type@ == "hypergrid"@ ==> {
                        &&& tool_name@ == "hypergrid_search"@ ==> {
                            &&& (forall|k: int| 0 <= k < old(self).hypergrid_connections@.len() ==> (#[trigger] old(self).hypergrid_connections@[k]).server_id@ != server_id@)
                                ==> r == Err::<ToolDispatch, SpiderError>(SpiderError::HypergridNotConfigured)
                            &&& r is Ok ==> r->Ok_0 is HypergridPost && r->Ok_0->HypergridPost_body@ == search_body(text_member(arguments@, "query"@)->0)
                            &&& (exists|k: int| 0 <= k < old(self).hypergrid_connections@.len() && (#[trigger] old(self).hypergrid_connections@[k]).server_id@ == server_id@)
                                && text_member(arguments@, "query"@) is Some ==> r is Ok
                        }
                        &&& tool_name@ == "hypergrid_call"@ ==> {
                            &&& (forall|k: int| 0 <= k < old(self).hypergrid_connections@.len() ==> (#[trigger] old(self).hypergrid_connections@[k]).server_id@ != server_id@)
                                ==> r == Err::<ToolDispatch, SpiderError>(SpiderError::HypergridNotConfigured)
                            &&& r is Ok ==> r->Ok_0 is HypergridPost && r->Ok_0->HypergridPost_body@ == call_body(
                                text_member(arguments@, "providerId"@)->0,
                                text_member(arguments@, "providerName"@)->0,
                                call_pairs(member(arguments@, "callArgs"@)->0->Array_0))
                            &&& (exists|k: int| 0 <= k < old(self).hypergrid_connections@.len() && (#[trigger] old(self).hypergrid_connections@[k]).server_id@ == server_id@)
                                && text_member(arguments@, "providerId"@) is Some && text_member(arguments@, "providerName"@) is Some
                                && member(arguments@, "callArgs"@) is Some && member(arguments@, "callArgs"@)->0 is Array ==> r is Ok
                        }
                        &&& tool_name@ == "hypergrid_authorize"@ ==> {
                            &&& (text_member(arguments@, "url"@) is Some && text_member(arguments@, "token"@) is Some
                                && text_member(arguments@, "client_id"@) is Some && text_member(arguments@, "node"@) is Some) <==> r is Ok
                            &&& r is Ok ==> r->Ok_0 is HypergridAuthorize
                                && r->Ok_0->HypergridAuthorize_url@ == text_member(arguments@, "url"@)->0
                                && r->Ok_0->HypergridAuthorize_token@ == text_member(arguments@, "token"@)->0
                                && r->Ok_0->HypergridAuthorize_client_id@ == text_member(arguments@, "client_id"@)->0
                                && r->Ok_0->HypergridAuthorize_node@ == text_member(arguments@, "node"@)->0
                        }
                        &&& tool_name@ != "hypergrid_search"@ && tool_name@ != "hypergrid_authorize"@ && tool_name@ != "hypergrid_call"@
                            ==> r is Err && r->Err_0 is UnknownHypergridTool
                        &&& *final(self) == *old(self)
                    }
                    &&& offers_tool(srv, tool_name@) && srv.transport.transport_type@ == "http"@ ==> r is Ok && r->Ok_0 is Done && *final(self) == *old(self)
                },
            r is Ok && r->Ok_0 is HypergridPost ==> exists|k: int| 0 <= k < old(self).hypergrid_connections@.len()
                    && (#[trigger] old(self).hypergrid_connections@[k]).server_id@ == server_id@
                    && r->Ok_0->HypergridPost_url@ == old(self).hypergrid_connections@[k].url@
                    && r->Ok_0->HypergridPost_token@ == old(self).hypergrid_connections@[k].token@
                    && r->Ok_0->HypergridPost_client_id@ == old(self).hypergrid_connections@[k].client_id@,

    {
        let i = match self.connected_server_index(server_id) {
            Some(i) => i,
            None => {
                return Err(SpiderError::ServerUnavailable(copy_str(server_id)));
            },
        };
        proof {
            lemma_transport_names_differ();
            assert forall|k: int| first_connected(old(self).mcp_servers@, server_id@, k) implies k == i by {
                if k < i {
                    assert(!(self.mcp_servers@[k].id@ == server_id@ && self.mcp_servers@[k].connected));
                } else if k > i {
                    assert(!(self.mcp_servers@[i as int].id@ == server_id@ && self.mcp_servers@[i as int].connected));
                }
            }
            reveal_strlit("hypergrid_search");
            reveal_strlit("hypergrid_authorize");
            reveal_strlit("hypergrid_call");
            assert("hypergrid_search"@[10] != "hypergrid_authorize"@[10]);
            assert("hypergrid_search"@[10] != "hypergrid_call"@[10]);
            assert("hypergrid_call"@[10] != "hypergrid_authorize"@[10]);
        }
        if !offers(&self.mcp_servers[i], tool_name) {
            return Err(SpiderError::ToolNotOnServer(copy_str(tool_name), copy_str(server_id)));
        }
        let kind = copy_str(self.mcp_servers[i].transport.transport_type.as_str());
        if str_eq(kind.as_str(), "hypergrid") {
            if str_eq(tool_name, "hypergrid_authorize") {
                let url = string_param(arguments, "url")?;
                let token = string_param(arguments, "token")?;
                let client_id = string_param(arguments, "client_id")?;
                let node = string_param(arguments, "node")?;
                Ok(ToolDispatch::HypergridAuthorize { url, token, client_id, node })
            } else if str_eq(tool_name, "hypergrid_search") {
                let h = match self.hypergrid_index(server_id) {
                    Some(h) => h,
                    None => { return Err(SpiderError::HypergridNotConfigured); },
                };
                let query = string_param(arguments, "query")?;
                let body = search_request_body(query.as_str());
                let c = &self.hypergrid_connections[h];
                let post = ToolDispatch::HypergridPost {
                    url: copy_str(c.url.as_str()),
                    token: copy_str(c.token.as_str()),
                    client_id: copy_str(c.client_id.as_str()),
                    body,
                };
                assert(old(self).hypergrid_connections@[h as int].server_id@ == server_id@);
                Ok(post)
            } else if str_eq(tool_name, "hypergrid_call") {
                let h = match self.hypergrid_index(server_id) {
                    Some(h) => h,
                    None => { return Err(SpiderError::HypergridNotConfigured); },
                };
                let provider_id = string_param(arguments, "providerId")?;
                let provider_name = string_param(arguments, "providerName")?;
                let pairs = match arguments.get("callArgs") {
                    Some(a) => match a.as_array() {
                        Some(items) => call_args(items),
                        None => { return Err(SpiderError::MissingParameter(copy_str("callArgs"))); },
                    },
                    None => { return Err(SpiderError::MissingParameter(copy_str("callArgs"))); },
                };
                let ghost pv = view_items(pairs@);
                let mut call: Vec<(String, Json)> = Vec::new();
                call.push(entry("providerId", jstr(provider_id.as_str())));
                call.push(entry("providerName", jstr(provider_name.as_str())));
                call.push(entry("callArgs", Json::Array(pairs)));
                proof { lemma_view_entries(call@); }
                let call_obj = object(call);
                let mut inner: Vec<(String, Json)> = Vec::new();
                inner.push(entry("CallProvider", call_obj));
                proof { lemma_view_entries(inner@); }
                let inner_obj = object(inner);
                let mut top: Vec<(String, Json)> = Vec::new();
                top.push(entry("request", inner_obj));
                proof { lemma_view_entries(top@); }
                assert(view_entries(call@) =~= seq![
                    ("providerId"@, JsonV::Str(provider_id@)),
                    ("providerName"@, JsonV::Str(provider_name@)),
                    ("callArgs"@, JsonV::Array(pv)),
                ]);
                assert(view_entries(inner@) =~= seq![("CallProvider"@, call_obj@)]);
                assert(view_entries(top@) =~= call_body(provider_id@, provider_name@, pv)->Object_0);
                let c = &self.hypergrid_connections[h];
                let post = ToolDispatch::HypergridPost {
                    url: copy_str(c.url.as_str()),
                    token: copy_str(c.token.as_str()),
                    client_id: copy_str(c.client_id.as_str()),
                    body: object(top),
                };
                assert(old(self).hypergrid_connections@[h as int].server_id@ == server_id@);
                Ok(post)
            } else {
                Err(SpiderError::UnknownHypergridTool(copy_str(tool_name)))
            }
        } else if str_eq(kind.as_str(), "websocket") || str_eq(kind.as_str(), "stdio") {
            let j = match self.connection_of_server(server_id) {
                Some(j) => j,
                None => { return Err(SpiderError::NoWebSocket(copy_str(server_id))); },
            };
            let channel_id = self.ws_connections[j].channel_id;
            let head = cat3("tool_", u32_decimal(channel_id).as_str(), "_");
            let request_id = cat(head.as_str(), uuid);
            let mut params: Vec<(String, Json)> = Vec::new();
            params.push(entry("name", jstr(tool_name)));
            params.push(entry("arguments", copy_json(arguments)));
            proof { lemma_view_entries(params@); }
            assert(view_entries(params@) =~= tools_call_params(tool_name@, arguments@)->Object_0);
            let frame = request("tools/call", Some(object(params)), request_id.as_str());
            assert(self.ws_connections@[j as int].server_id@ == server_id@);
            self.enrol_pending(PendingMcpRequest {
                request_id: copy_str(request_id.as_str()),
                conversation_id,
                server_id: copy_str(server_id),
                request_type: McpRequestType::ToolCall { tool_name: copy_str(tool_name) },
            });
            Ok(ToolDispatch::WebSocket { channel_id, request_id, frame })
        } else if str_eq(kind.as_str(), "http") {
            let head = cat3("HTTP execution of ", tool_name, " with params: ");
            let text = cat(head.as_str(), json_text(arguments).as_str());
            let mut v: Vec<(String, Json)> = Vec::new();
            v.push(entry("result", Json::Str(text)));
            v.push(entry("success", Json::Bool(true)));
            Ok(ToolDispatch::Done(object(v)))
        } else {
            Err(SpiderError::UnsupportedTransport(kind))
        }
    }

    /// Starts a tool call with a fresh random request id (see
    /// [`SpiderState::begin_tool_call_with`]).
    pub fn begin_tool_call(
        &mut self,
        server_id: &str,
        tool_name: &str,
        arguments: &Json,
        conversation_id: Option<String>,
    ) -> (r: Result<ToolDispatch, SpiderError>)
        ensures
            exists|u: Seq<char>| is_hyphenated_uuid(u) && #[trigger] tool_call_begun(*old(self), *final(self), server_id@, tool_name@, arguments@, u, r),

    {
        let uuid = new_uuid();
        let r = self.begin_tool_call_with(server_id, tool_name, arguments, conversation_id, uuid.as_str());
        assert(is_hyphenated_uuid(uuid@) && tool_call_begun(*old(self), *self, server_id@, tool_name@, arguments@, uuid@, r));
        r
    }

    /// Records Hypergrid credentials that passed their probe: the connection
    /// and the server's transport are updated. Returns the tool result.
    pub fn hypergrid_authorized(&mut self, server_id: &str, url: &str, token: &str, client_id: &str, node: &str) -> (r: Json)
        ensures
            forall|k: int| 0 <= k < old(self).mcp_servers@.len() && #[trigger] old(self).mcp_servers@[k].id@ != server_id@
                ==> final(self).mcp_servers@[k] == old(self).mcp_servers@[k],
            exists|k: int| 0 <= k < final(self).hypergrid_connections@.len()
                && (#[trigger] final(self).hypergrid_connections@[k]).server_id@ == server_id@
                && final(self).hypergrid_connections@[k].token@ == token@,
            forall|k: int| first_server(old(self).mcp_servers@, server_id@, k) ==> {
                &&& (#[trigger] final(self).mcp_servers@[k]).transport.url is Some
                &&& final(self).mcp_servers@[k].transport.url->0@ == url@
                &&& final(self).mcp_servers@[k].transport.hypergrid_token is Some
                &&& final(self).mcp_servers@[k].transport.hypergrid_token->0@ == token@
            },
            final(self).ws_connections == old(self).ws_connections,
            final(self).pending_mcp_requests == old(self).pending_mcp_requests,
            final(self).mcp_servers@.len() == old(self).mcp_servers@.len(),
    {
        self.set_hypergrid_connection(server_id, url, token, client_id, node);
        let ghost hc = self.hypergrid_connections@;
        let ghost w = choose|k: int| 0 <= k < hc.len()
                && (#[trigger] hc[k]).server_id@ == server_id@
                && hc[k].url@ == url@
                && hc[k].token@ == token@
                && hc[k].client_id@ == client_id@
                && hc[k].node@ == node@;
        match self.server_index(server_id) {
            Some(i) => {
                self.mcp_servers[i].transport.url = Some(copy_str(url));
                self.mcp_servers[i].transport.hypergrid_token = Some(copy_str(token));
                self.mcp_servers[i].transport.hypergrid_client_id = Some(copy_str(client_id));
                self.mcp_servers[i].transport.hypergrid_node = Some(copy_str(node));
                proof {
                    assert forall|k: int| first_server(old(self).mcp_servers@, server_id@, k) implies k == i by {
                        lemma_first_server_unique(old(self).mcp_servers@, server_id@, i as int, k);
                    }
                }
            },
            None => {},
        }
        assert(self.hypergrid_connections@[w].server_id@ == server_id@);
        let head = cat3("Successfully authorized! Hypergrid is now configured with:\n- Node: ", node, "\n- Client ID: ");
        let mid = cat3(head.as_str(), client_id, "\n- URL: ");
        let text = cat(mid.as_str(), url);
        text_content(text.as_str())
    }
}

} // verus!
