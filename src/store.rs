//! The conversation store, configuration, and the state set up at startup:
//! the default Hypergrid server, the GUI's admin key, reconnection with
//! backoff and the trial key.

use vstd::prelude::*;

use crate::agent::{copy_message, same_messages};
use crate::auth::{is_admin_gui_key};
use crate::ids::{is_hyphenated_uuid, new_uuid, unix_now};
use crate::keys::{encrypt_key, encrypted_form};
use crate::mcp::{has_hypergrid, hypergrid_tools};
use crate::text::{cat, cat3, contains_text_of, occurs_in, copy_str, copy_strings, remove_char, str_eq, strings_contain, without_char};
use crate::types::{ApiKey, Conversation, ConversationMetadata, McpServer, SpiderApiKey, SpiderError, SpiderState, TransportConfig};

verus! {

broadcast use {vstd::std_specs::vec::group_vec_axioms, vstd::seq::group_seq_axioms};

/// Whether a conversation is listed for the client filter.
pub open spec fn listed_for(c: Conversation, client: Option<Seq<char>>) -> bool {
    match client {
        Some(name) => c.metadata.client@ == name,
        None => true,
    }
}

/// The conversations that match the filter, in insertion order.
pub open spec fn matching(convs: Seq<(String, Conversation)>, client: Option<Seq<char>>) -> Seq<Conversation>
    decreases convs.len(),
{
    if convs.len() == 0 {
        Seq::empty()
    } else if listed_for(convs.last().1, client) {
        matching(convs.drop_last(), client).push(convs.last().1)
    } else {
        matching(convs.drop_last(), client)
    }
}

/// The page of `items` that starts at `offset` and holds at most `limit` items.
pub open spec fn page<A>(items: Seq<A>, offset: nat, limit: nat) -> Seq<A> {
    if offset >= items.len() {
        Seq::empty()
    } else if offset + limit >= items.len() {
        items.skip(offset as int)
    } else {
        items.subrange(offset as int, (offset + limit) as int)
    }
}

pub open spec fn same_conversation(a: Conversation, b: Conversation) -> bool {
    &&& a.id@ == b.id@
    &&& same_messages(a.messages@, b.messages@)
    &&& a.metadata.client@ == b.metadata.client@
    &&& a.metadata.start_time@ == b.metadata.start_time@
    &&& a.metadata.from_stt == b.metadata.from_stt
    &&& a.llm_provider@ == b.llm_provider@
}

pub fn copy_conversation(c: &Conversation) -> (r: Conversation)
    ensures
        same_conversation(r, *c),
{
    let mut messages: Vec<crate::types::Message> = Vec::new();
    let mut i: usize = 0;
    while i < c.messages.len()
        invariant
            0 <= i <= c.messages@.len(),
            messages@.len() == i,
            forall|k: int| 0 <= k < i ==> crate::agent::same_message(#[trigger] messages@[k], c.messages@[k]),
        decreases c.messages@.len() - i,
    {
        messages.push(copy_message(&c.messages[i]));
        i = i + 1;
    }
    Conversation {
        id: copy_str(c.id.as_str()),
        messages,
        metadata: ConversationMetadata {
            start_time: copy_str(c.metadata.start_time.as_str()),
            client: copy_str(c.metadata.client.as_str()),
            from_stt: c.metadata.from_stt,
        },
        llm_provider: copy_str(c.llm_provider.as_str()),
        mcp_servers: copy_strings(&c.mcp_servers),
    }
}

/// The file a conversation snapshot is written to: `<stamp>-<id>.json`,
/// where the stamp is the time as `YYYYMMDD-HHMMSS`.
pub fn snapshot_file_name(stamp: &str, conversation_id: &str) -> (r: String)
    ensures
        r@ == stamp@ + "-"@ + conversation_id@ + ".json"@,
{
    let head = cat3(stamp, "-", conversation_id);
    cat(head.as_str(), ".json")
}

/// Whether a stored snapshot file belongs to conversation `conversation_id`:
/// its name contains the id.
pub fn names_snapshot_of(file_name: &str, conversation_id: &str) -> (r: bool)
    ensures
        r == occurs_in(conversation_id@, file_name@),
{
    contains_text_of(file_name, conversation_id)
}

/// How many times a persisted server is tried at startup.
pub const RECONNECT_ATTEMPTS: u32 = 3;

/// The reconnection schedule of one server at startup: up to three
/// attempts, waiting 1 s after the first failure and twice as long after each
/// further one, never more than 10 s.
pub struct Reconnect {
    pub attempt: u32,
    pub delay_ms: u64,
}

impl Reconnect {
    pub fn new() -> (r: Reconnect)
        ensures
            r.attempt == 1,
            r.delay_ms == 1000,
    {
        Reconnect { attempt: 1, delay_ms: 1000 }
    }

    /// After a failed attempt: the wait before the next one, or `None` when
    /// the attempts are used up.
    pub fn after_failure(&mut self) -> (r: Option<u64>)
        requires
            old(self).delay_ms <= 10000,
        ensures
            old(self).attempt >= RECONNECT_ATTEMPTS ==> r is None && *final(self) == *old(self),
            old(self).attempt < RECONNECT_ATTEMPTS ==> {
                &&& r == Some(old(self).delay_ms)
                &&& final(self).attempt == old(self).attempt + 1
                &&& final(self).delay_ms == if 2 * old(self).delay_ms <= 10000 { 2 * old(self).delay_ms } else { 10000 }
            },
            final(self).delay_ms <= 10000,
    {
        if self.attempt >= RECONNECT_ATTEMPTS {
            return None;
        }
        let wait = self.delay_ms;
        self.attempt = self.attempt + 1;
        self.delay_ms = if 2 * wait <= 10000 { 2 * wait } else { 10000 };
        Some(wait)
    }
}

/// `k` is a freshly minted GUI admin key with string `key`: named
/// `Admin GUI Key`, with permissions `chat`, `read`, `write`, `admin` in that
/// order, created at `now`.
pub open spec fn is_gui_key_minted(k: SpiderApiKey, key: Seq<char>, now: u64) -> bool {
    &&& k.key@ == key
    &&& k.name@ == "Admin GUI Key"@
    &&& k.permissions@.len() == 4
    &&& k.permissions@[0]@ == "chat"@
    &&& k.permissions@[1]@ == "read"@
    &&& k.permissions@[2]@ == "write"@
    &&& k.permissions@[3]@ == "admin"@
    &&& k.created_at == now
}

/// A Hypergrid server with all four credentials.
pub open spec fn configured_hypergrid(s: McpServer) -> bool {
    &&& s.transport.transport_type@ == "hypergrid"@
    &&& s.transport.url is Some
    &&& s.transport.hypergrid_token is Some
    &&& s.transport.hypergrid_client_id is Some
    &&& s.transport.hypergrid_node is Some
}

/// The notice shown while the trial key is in use.
pub struct TrialNotification {
    pub show: bool,
    pub title: String,
    pub message: String,
    pub allow_dismiss: bool,
    pub allow_do_not_show_again: bool,
}

impl SpiderState {
    /// A page of the stored conversations, optionally of one client, in
    /// insertion order: `offset` defaults to 0 and `limit` to 50. Needs `read`.
    pub fn list_conversations(&self, limit: Option<u32>, offset: Option<u32>, client: Option<&str>, auth_key: &str)
        -> (r: Result<Vec<Conversation>, SpiderError>)
        ensures
            !self.key_permits(auth_key@, "read"@) ==> r == Err::<Vec<Conversation>, SpiderError>(SpiderError::ReadDenied),
            self.key_permits(auth_key@, "read"@) ==> {
                let wanted = page(
                    matching(self.active_conversations@, match client { Some(c) => Some(c@), None => None }),
                    match offset { Some(o) => o as nat, None => 0 },
                    match limit { Some(l) => l as nat, None => 50 },
                );
                &&& r is Ok
                &&& r->Ok_0@.len() == wanted.len()
                &&& forall|i: int| 0 <= i < wanted.len() ==> same_conversation(#[trigger] r->Ok_0@[i], wanted[i])
            },
    {
        if !self.validate_permission(auth_key, "read") {
            return Err(SpiderError::ReadDenied);
        }
        let ghost filter = match client { Some(c) => Some(c@), None => None::<Seq<char>> };
        let skip: u64 = match offset { Some(o) => o as u64, None => 0 };
        let take: u64 = match limit { Some(l) => l as u64, None => 50 };
        let mut out: Vec<Conversation> = Vec::new();
        let mut seen: u64 = 0;
        let mut i: usize = 0;
        let ghost cs = self.active_conversations@;
        assert(cs.take(0) =~= Seq::<(String, Conversation)>::empty());
        while i < self.active_conversations.len()
            invariant
                0 <= i <= cs.len(),
                cs == self.active_conversations@,
                filter == match client { Some(c) => Some(c@), None => None::<Seq<char>> },
                skip as nat == match offset { Some(o) => o as nat, None => 0 },
                take as nat == match limit { Some(l) => l as nat, None => 50 },
                self.key_permits(auth_key@, "read"@),
                seen as nat == matching(cs.take(i as int), filter).len(),
                seen <= i,
                out@.len() == page(matching(cs.take(i as int), filter), skip as nat, take as nat).len(),
                forall|k: int| 0 <= k < out@.len() ==> same_conversation(#[trigger] out@[k], matching(cs.take(i as int), filter)[skip + k]),
            decreases cs.len() - i,
        {
            assert(cs.take(i + 1).drop_last() =~= cs.take(i as int));
            let c = &self.active_conversations[i].1;
            let wanted = match client {
                Some(name) => str_eq(c.metadata.client.as_str(), name),
                None => true,
            };
            let ghost m_prev = matching(cs.take(i as int), filter);
            assert(cs.take(i + 1).last() == cs[i as int]);
            assert(*c == cs[i as int].1);
            if wanted {
                assert(matching(cs.take(i + 1), filter) == m_prev.push(*c));
                if seen >= skip && seen - skip < take {
                    out.push(copy_conversation(c));
                }
                seen = seen + 1;
            } else {
                assert(matching(cs.take(i + 1), filter) == m_prev);
            }
            i = i + 1;
        }
        assert(cs.take(i as int) =~= cs);
        Ok(out)
    }

    /// The stored conversation `conversation_id`, or `None` when it is not in
    /// memory (the caller then looks in durable storage). Needs `read`.
    pub fn get_conversation(&self, conversation_id: &str, auth_key: &str) -> (r: Result<Option<Conversation>, SpiderError>)
        ensures
            !self.key_permits(auth_key@, "read"@) ==> r == Err::<Option<Conversation>, SpiderError>(SpiderError::ReadDenied),
            self.key_permits(auth_key@, "read"@) ==> {
                &&& r is Ok
                &&& r->Ok_0 is None <==> forall|i: int| 0 <= i < self.active_conversations@.len() ==> (#[trigger] self.active_conversations@[i]).0@ != conversation_id@
                &&& r->Ok_0 is Some ==> exists|i: int| 0 <= i < self.active_conversations@.len()
                    && (#[trigger] self.active_conversations@[i]).0@ == conversation_id@
                    && same_conversation(r->Ok_0->0, self.active_conversations@[i].1)
            },
    {
        if !self.validate_permission(auth_key, "read") {
            return Err(SpiderError::ReadDenied);
        }
        let mut i: usize = 0;
        while i < self.active_conversations.len()
            invariant
                0 <= i <= self.active_conversations@.len(),
                self.key_permits(auth_key@, "read"@),
                forall|k: int| 0 <= k < i ==> (#[trigger] self.active_conversations@[k]).0@ != conversation_id@,
            decreases self.active_conversations@.len() - i,
        {
            if str_eq(self.active_conversations[i].0.as_str(), conversation_id) {
                return Ok(Some(copy_conversation(&self.active_conversations[i].1)));
            }
            i = i + 1;
        }
        Ok(None)
    }

    /// The configuration: default provider, token limit and temperature (in
    /// thousandths). Needs `read`.
    pub fn get_config(&self, auth_key: &str) -> (r: Result<(String, u32, u32), SpiderError>)
        ensures
            !self.key_permits(auth_key@, "read"@) ==> r == Err::<(String, u32, u32), SpiderError>(SpiderError::ReadDenied),
            self.key_permits(auth_key@, "read"@) ==> r is Ok && r->Ok_0.0@ == self.default_llm_provider@
                && r->Ok_0.1 == self.max_tokens && r->Ok_0.2 == self.temperature_permille,
    {
        if !self.validate_permission(auth_key, "read") {
            return Err(SpiderError::ReadDenied);
        }
        Ok((copy_str(self.default_llm_provider.as_str()), self.max_tokens, self.temperature_permille))
    }

    /// Updates the settings that are given. Needs `write`.
    pub fn update_config(&mut self, provider: Option<&str>, max_tokens: Option<u32>, temperature_permille: Option<u32>, auth_key: &str)
        -> (r: Result<String, SpiderError>)
        ensures
            old(self).pending_wf() ==> final(self).pending_wf(),
            !old(self).key_permits(auth_key@, "write"@) ==> r == Err::<String, SpiderError>(SpiderError::WriteDenied) && *final(self) == *old(self),
            old(self).key_permits(auth_key@, "write"@) ==> {
                &&& r is Ok && r->Ok_0@ == "Configuration updated"@
                &&& final(self).default_llm_provider@ == match provider { Some(p) => p@, None => old(self).default_llm_provider@ }
                &&& final(self).max_tokens == match max_tokens { Some(m) => m, None => old(self).max_tokens }
                &&& final(self).temperature_permille == match temperature_permille { Some(t) => t, None => old(self).temperature_permille }
                &&& final(self).spider_api_keys == old(self).spider_api_keys
            },
    {
        if !self.validate_permission(auth_key, "write") {
            return Err(SpiderError::WriteDenied);
        }
        match provider {
            Some(p) => { self.default_llm_provider = copy_str(p); },
            None => {},
        }
        match max_tokens {
            Some(m) => { self.max_tokens = m; },
            None => {},
        }
        match temperature_permille {
            Some(t) => { self.temperature_permille = t; },
            None => {},
        }
        Ok(copy_str("Configuration updated"))
    }

    /// The index of the GUI's admin key.
    fn admin_gui_index(&self) -> (r: Option<usize>)
        ensures
            r is Some ==> r->0 < self.spider_api_keys@.len() && is_admin_gui_key(self.spider_api_keys@[r->0 as int]),
            r is None ==> forall|i: int| 0 <= i < self.spider_api_keys@.len() ==> !is_admin_gui_key(#[trigger] self.spider_api_keys@[i]),
    {
        proof { reveal_strlit("Admin GUI Key"); }
        let mut i: usize = 0;
        while i < self.spider_api_keys.len()
            invariant
                0 <= i <= self.spider_api_keys@.len(),
                forall|k: int| 0 <= k < i ==> !is_admin_gui_key(#[trigger] self.spider_api_keys@[k]),
            decreases self.spider_api_keys@.len() - i,
        {
            let k = &self.spider_api_keys[i];
            if str_eq(k.name.as_str(), "Admin GUI Key") && strings_contain(&k.permissions, "admin") {
                return Some(i);
            }
            i = i + 1;
        }
        None
    }

    /// The key string of the GUI's admin key.
    pub fn get_admin_key(&self) -> (r: Result<String, SpiderError>)
        ensures
            r is Ok ==> exists|i: int| 0 <= i < self.spider_api_keys@.len() && is_admin_gui_key(#[trigger] self.spider_api_keys@[i])
                && self.spider_api_keys@[i].key@ == r->Ok_0@,
            r is Err ==> r->Err_0 is NoAdminGuiKey
                && forall|i: int| 0 <= i < self.spider_api_keys@.len() ==> !is_admin_gui_key(#[trigger] self.spider_api_keys@[i]),
    {
        match self.admin_gui_index() {
            Some(i) => Ok(copy_str(self.spider_api_keys[i].key.as_str())),
            None => Err(SpiderError::NoAdminGuiKey),
        }
    }

    /// Makes sure the GUI's admin key exists: when there is none, one named
    /// `Admin GUI Key` with permissions `chat`, `read`, `write` and `admin` is
    /// minted as `sp_admin_gui_key_<24 hex digits of uuid>` (96 random-derived
    /// bits). An existing key is kept.
    /// Returns its key string.
    pub fn ensure_admin_gui_key_with(&mut self, uuid: &str, now: u64) -> (r: String)
        requires
            is_hyphenated_uuid(uuid@),
        ensures
            old(self).pending_wf() ==> final(self).pending_wf(),
            exists|i: int| 0 <= i < final(self).spider_api_keys@.len() && is_admin_gui_key(#[trigger] final(self).spider_api_keys@[i])
                && final(self).spider_api_keys@[i].key@ == r@,
            (exists|i: int| 0 <= i < old(self).spider_api_keys@.len() && is_admin_gui_key(#[trigger] old(self).spider_api_keys@[i]))
                ==> *final(self) == *old(self),
            (forall|i: int| 0 <= i < old(self).spider_api_keys@.len() ==> !is_admin_gui_key(#[trigger] old(self).spider_api_keys@[i])) ==> {
                &&& final(self).spider_api_keys@.len() == old(self).spider_api_keys@.len() + 1
                &&& final(self).spider_api_keys@.drop_last() == old(self).spider_api_keys@
                &&& r@ == "sp_admin_gui_key_"@ + without_char(uuid@, '-').take(24)
                &&& is_gui_key_minted(final(self).spider_api_keys@.last(), r@, now)
            },
    {
        match self.admin_gui_index() {
            Some(i) => {
                return copy_str(self.spider_api_keys[i].key.as_str());
            },
            None => {},
        }
        let hex = remove_char(uuid, '-');
        proof { lemma_hex_len(uuid@); }
        let suffix = hex.as_str().substring_char(0, 24);
        let key = cat("sp_admin_gui_key_", suffix);
        let mut permissions: Vec<String> = Vec::new();
        permissions.push(copy_str("chat"));
        permissions.push(copy_str("read"));
        permissions.push(copy_str("write"));
        permissions.push(copy_str("admin"));
        assert(permissions@[3]@ == "admin"@);
        let entry = SpiderApiKey {
            key: copy_str(key.as_str()),
            name: copy_str("Admin GUI Key"),
            permissions,
            created_at: now,
        };
        self.spider_api_keys.push(entry);
        let ghost last = self.spider_api_keys@.len() - 1;
        assert(is_admin_gui_key(self.spider_api_keys@[last]));
        proof { reveal_strlit("Admin GUI Key"); }
        assert(is_gui_key_minted(self.spider_api_keys@[last], key@, now));
        key
    }

    /// [`SpiderState::ensure_admin_gui_key_with`] with a fresh random UUID.
    pub fn ensure_admin_gui_key(&mut self) -> (r: String)
        ensures
            (exists|i: int| 0 <= i < old(self).spider_api_keys@.len() && is_admin_gui_key(#[trigger] old(self).spider_api_keys@[i]))
                ==> *final(self) == *old(self),
            (forall|i: int| 0 <= i < old(self).spider_api_keys@.len() ==> !is_admin_gui_key(#[trigger] old(self).spider_api_keys@[i])) ==> {
                &&& final(self).spider_api_keys@.len() == old(self).spider_api_keys@.len() + 1
                &&& final(self).spider_api_keys@.drop_last() == old(self).spider_api_keys@
                &&& exists|u: Seq<char>| is_hyphenated_uuid(u) && r@ == "sp_admin_gui_key_"@ + #[trigger] without_char(u, '-').take(24)
                &&& exists|t: u64| #[trigger] is_gui_key_minted(final(self).spider_api_keys@.last(), r@, t)
            },
            old(self).pending_wf() ==> final(self).pending_wf(),
            exists|i: int| 0 <= i < final(self).spider_api_keys@.len() && is_admin_gui_key(#[trigger] final(self).spider_api_keys@[i])
                && final(self).spider_api_keys@[i].key@ == r@,
    {
        let uuid = new_uuid();
        let now = unix_now();
        let r = self.ensure_admin_gui_key_with(uuid.as_str(), now);
        proof {
            if forall|i: int| 0 <= i < old(self).spider_api_keys@.len() ==> !is_admin_gui_key(#[trigger] old(self).spider_api_keys@[i]) {
                assert(is_hyphenated_uuid(uuid@) && r@ == "sp_admin_gui_key_"@ + without_char(uuid@, '-').take(24)
                    && is_gui_key_minted(self.spider_api_keys@.last(), r@, now));
            }
        }
        r
    }

    /// The settings a fresh start begins with: Anthropic, 4096 tokens,
    /// temperature 1.0, channel ids from 1000.
    pub fn set_startup_defaults(&mut self)
        ensures
            old(self).pending_wf() ==> final(self).pending_wf(),
            final(self).default_llm_provider@ == "anthropic"@,
            final(self).max_tokens == 4096,
            final(self).temperature_permille == 1000,
            final(self).next_channel_id == 1000,
            final(self).spider_api_keys == old(self).spider_api_keys,
            final(self).mcp_servers == old(self).mcp_servers,
            final(self).api_keys == old(self).api_keys,
    {
        self.default_llm_provider = copy_str("anthropic");
        self.max_tokens = 4096;
        self.temperature_permille = 1000;
        self.next_channel_id = 1000;
    }

    /// Makes sure a Hypergrid server exists: when none does, the built-in
    /// one is added, connected and unconfigured; otherwise the credentials of
    /// every fully configured Hypergrid server are restored. Returns whether
    /// the built-in server was added.
    pub fn ensure_hypergrid_server(&mut self) -> (r: bool)
        ensures
            r <==> forall|i: int| 0 <= i < old(self).mcp_servers@.len() ==> (#[trigger] old(self).mcp_servers@[i]).transport.transport_type@ != "hypergrid"@,
            r ==> {
                &&& final(self).mcp_servers@.len() == old(self).mcp_servers@.len() + 1
                &&& final(self).mcp_servers@.drop_last() == old(self).mcp_servers@
                &&& final(self).mcp_servers@.last().id@ == "hypergrid_default"@
                &&& final(self).mcp_servers@.last().transport.transport_type@ == "hypergrid"@
                &&& final(self).mcp_servers@.last().connected
                &&& final(self).mcp_servers@.last().tools@.len() == 3
            },
            !r ==> final(self).mcp_servers == old(self).mcp_servers,
            !r ==> forall|i: int| 0 <= i < old(self).mcp_servers@.len() && #[trigger] configured_hypergrid(old(self).mcp_servers@[i])
                ==> has_hypergrid(final(self).hypergrid_connections@, old(self).mcp_servers@[i].id@),
            final(self).spider_api_keys == old(self).spider_api_keys,
            final(self).pending_mcp_requests == old(self).pending_mcp_requests,
            final(self).ws_connections == old(self).ws_connections,
    {
        let mut found = false;
        let mut i: usize = 0;
        while i < self.mcp_servers.len()
            invariant
                0 <= i <= self.mcp_servers@.len(),
                found <==> exists|k: int| 0 <= k < i && (#[trigger] self.mcp_servers@[k]).transport.transport_type@ == "hypergrid"@,
                forall|k: int| 0 <= k < i && #[trigger] configured_hypergrid(self.mcp_servers@[k])
                    ==> has_hypergrid(self.hypergrid_connections@, self.mcp_servers@[k].id@),
                self.mcp_servers == old(self).mcp_servers,
                self.spider_api_keys == old(self).spider_api_keys,
                self.pending_mcp_requests == old(self).pending_mcp_requests,
                self.ws_connections == old(self).ws_connections,
            decreases self.mcp_servers@.len() - i,
        {
            if str_eq(self.mcp_servers[i].transport.transport_type.as_str(), "hypergrid") {
                found = true;
                let t = &self.mcp_servers[i].transport;
                match (&t.url, &t.hypergrid_token, &t.hypergrid_client_id, &t.hypergrid_node) {
                    (Some(url), Some(token), Some(client_id), Some(node)) => {
                        let sid = copy_str(self.mcp_servers[i].id.as_str());
                        let (u, tk, c, n) = (copy_str(url.as_str()), copy_str(token.as_str()), copy_str(client_id.as_str()), copy_str(node.as_str()));
                        let ghost before = self.hypergrid_connections@;
                        self.set_hypergrid_connection(sid.as_str(), u.as_str(), tk.as_str(), c.as_str(), n.as_str());
                        proof {
                            assert forall|k: int| 0 <= k <= i && #[trigger] configured_hypergrid(self.mcp_servers@[k])
                                implies has_hypergrid(self.hypergrid_connections@, self.mcp_servers@[k].id@) by {
                                if k < i {
                                    let w = choose|w: int| 0 <= w < before.len() && #[trigger] before[w].server_id@ == self.mcp_servers@[k].id@;
                                    assert(has_hypergrid(self.hypergrid_connections@, before[w].server_id@));
                                }
                            }
                        }
                    },
                    _ => {},
                }
            }
            i = i + 1;
        }
        if found {
            return false;
        }
        self.mcp_servers.push(McpServer {
            id: copy_str("hypergrid_default"),
            name: copy_str("Hypergrid"),
            transport: TransportConfig {
                transport_type: copy_str("hypergrid"),
                command: None,
                args: None,
                url: Some(copy_str("http://localhost:8080/operator:hypergrid:ware.hypr/shim/mcp")),
                hypergrid_token: None,
                hypergrid_client_id: None,
                hypergrid_node: None,
            },
            tools: hypergrid_tools(),
            connected: true,
        });
        true
    }

    /// The ids of every registered server, which startup tries to reconnect.
    pub fn reconnect_targets(&self) -> (r: Vec<String>)
        ensures
            r@.len() == self.mcp_servers@.len(),
            forall|i: int| 0 <= i < r@.len() ==> (#[trigger] r@[i])@ == self.mcp_servers@[i].id@,
    {
        let mut out: Vec<String> = Vec::new();
        let mut i: usize = 0;
        while i < self.mcp_servers.len()
            invariant
                0 <= i <= self.mcp_servers@.len(),
                out@.len() == i,
                forall|k: int| 0 <= k < i ==> (#[trigger] out@[k])@ == self.mcp_servers@[k].id@,
            decreases self.mcp_servers@.len() - i,
        {
            out.push(copy_str(self.mcp_servers[i].id.as_str()));
            i = i + 1;
        }
        out
    }

    /// Installs a trial key from the dispenser under `anthropic` when no
    /// provider key is stored, and raises the notice. Returns whether it did.
    pub fn install_trial_key(&mut self, key: &str, now: u64) -> (r: bool)
        ensures
            old(self).pending_wf() ==> final(self).pending_wf(),
            r == (old(self).api_keys@.len() == 0),
            r ==> {
                &&& final(self).api_keys@.len() == 1
                &&& final(self).api_keys@[0].0@ == "anthropic"@
                &&& final(self).api_keys@[0].1.provider@ == "anthropic"@
                &&& final(self).api_keys@[0].1.key@ == encrypted_form(key@)
                &&& final(self).api_keys@[0].1.created_at == now
                &&& final(self).api_keys@[0].1.last_used is None
                &&& final(self).show_trial_key_notification
            },
            !r ==> *final(self) == *old(self),
    {
        if self.api_keys.len() != 0 {
            return false;
        }
        self.api_keys.push((copy_str("anthropic"), ApiKey {
            provider: copy_str("anthropic"),
            key: encrypt_key(key),
            created_at: now,
            last_used: None,
        }));
        self.show_trial_key_notification = true;
        true
    }

    pub fn get_trial_notification(&self) -> (r: TrialNotification)
        ensures
            r.show == self.show_trial_key_notification,
            r.allow_dismiss,
            r.allow_do_not_show_again,
    {
        TrialNotification {
            show: self.show_trial_key_notification,
            title: copy_str("Trial API Key Active"),
            message: copy_str("Spider is using a limited trial API key from the Anthropic API Key Manager. This key has usage limitations and may stop working unexpectedly. Please add your own API key in Settings for uninterrupted service."),
            allow_dismiss: true,
            allow_do_not_show_again: true,
        }
    }

    pub fn dismiss_trial_notification(&mut self, permanent: bool) -> (r: String)
        ensures
            old(self).pending_wf() ==> final(self).pending_wf(),
            !final(self).show_trial_key_notification,
            permanent ==> r@ == "Trial notification permanently dismissed"@,
            !permanent ==> r@ == "Trial notification dismissed"@,
            final(self).api_keys == old(self).api_keys,
            final(self).spider_api_keys == old(self).spider_api_keys,
    {
        self.show_trial_key_notification = false;
        if permanent {
            copy_str("Trial notification permanently dismissed")
        } else {
            copy_str("Trial notification dismissed")
        }
    }
}

proof fn lemma_hex_len(u: Seq<char>)
    requires
        is_hyphenated_uuid(u),
    ensures
        without_char(u, '-').len() == 32,
{
    lemma_without_count(u, '-', 36);
    assert(u.take(36) =~= u);
}

proof fn lemma_without_count(u: Seq<char>, c: char, n: int)
    requires
        is_hyphenated_uuid(u),
        c == '-',
        0 <= n <= 36,
    ensures
        without_char(u.take(n), c).len() == n - (if n > 23 { 4int } else if n > 18 { 3int } else if n > 13 { 2int } else if n > 8 { 1int } else { 0int }),
    decreases n,
{
    if n > 0 {
        lemma_without_count(u, c, n - 1);
        assert(u.take(n).drop_last() =~= u.take(n - 1));
        assert(u.take(n).last() == u[n - 1]);
        if n - 1 == 8 || n - 1 == 13 || n - 1 == 18 || n - 1 == 23 {
            assert(u[n - 1] == '-');
        } else {
            assert(is_lower_hex_char(u[n - 1]));
        }
    }
}

spec fn is_lower_hex_char(c: char) -> bool {
    crate::ids::is_lower_hex(c) && c != '-'
}

} // verus!
