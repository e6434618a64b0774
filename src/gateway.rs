//! The chat-client side of the WebSocket gateway: authentication of a
//! channel, permission re-checks, cancellation flags and the frames sent back.

use vstd::prelude::*;

use crate::agent::ChatResponse;
use crate::text::{cat3, copy_str, u32_decimal, decimal_of};
use crate::types::{ChatClient, Message, SpiderState};

verus! {

broadcast use {vstd::std_specs::vec::group_vec_axioms, vstd::seq::group_seq_axioms};

/// A frame sent to a chat client.
#[derive(Debug)]
pub enum ServerFrame {
    AuthSuccess { message: String },
    AuthError { error: String },
    Status { status: String, detail: Option<String> },
    Stream { iteration: u32, message: String, tool_calls: Option<String> },
    Message { turn: Message },
    ChatComplete { payload: ChatResponse },
    Error { error: String },
    Pong,
}

/// What the gateway answers to an `auth` frame.
pub struct AuthReply {
    pub frame: ServerFrame,
    /// The caller closes the channel after sending the frame.
    pub close: bool,
}

/// Whether a chat client is registered on `channel_id`.
pub open spec fn client_on(clients: Seq<ChatClient>, channel_id: u32) -> bool {
    exists|i: int| 0 <= i < clients.len() && #[trigger] clients[i].channel_id == channel_id
}

/// The cancellation flag of `channel_id`, if a chat runs there.
pub open spec fn flag_of(flags: Seq<(u32, bool)>, channel_id: u32) -> Option<bool>
    decreases flags.len(),
{
    if flags.len() == 0 {
        None
    } else if flags.last().0 == channel_id {
        Some(flags.last().1)
    } else {
        flag_of(flags.drop_last(), channel_id)
    }
}

/// The stream frame that opens iteration `n`.
pub fn iteration_frame(n: u32) -> (r: ServerFrame)
    ensures
        r is Stream,
        r->Stream_iteration == n,
        r->Stream_message@ == "Processing iteration "@ + decimal_of(n as nat) + "..."@,
        r->Stream_tool_calls is None,
{
    ServerFrame::Stream {
        iteration: n,
        message: cat3("Processing iteration ", u32_decimal(n).as_str(), "..."),
        tool_calls: None,
    }
}

/// The stream frame sent before the tool calls of iteration `n` run.
pub fn tool_calls_frame(n: u32, tool_calls: &str) -> (r: ServerFrame)
    ensures
        r is Stream,
        r->Stream_iteration == n,
        r->Stream_message@ == "Executing tool calls..."@,
        r->Stream_tool_calls is Some && r->Stream_tool_calls->0@ == tool_calls@,
{
    ServerFrame::Stream {
        iteration: n,
        message: copy_str("Executing tool calls..."),
        tool_calls: Some(copy_str(tool_calls)),
    }
}

fn status_frame(status: &str, message: Option<&str>) -> (r: ServerFrame)
    ensures
        r is Status,
        r->Status_status@ == status@,
        r->Status_detail is Some == message is Some,
        message is Some ==> r->Status_detail->0@ == message->0@,
{
    ServerFrame::Status {
        status: copy_str(status),
        detail: match message {
            Some(m) => Some(copy_str(m)),
            None => None,
        },
    }
}

impl SpiderState {
    /// Handles an `auth` frame on `channel_id`: a valid key with `write`
    /// registers the client; any other key is refused and the channel closed.
    pub fn authenticate_client(&mut self, channel_id: u32, api_key: &str, now: u64) -> (r: AuthReply)
        ensures
            old(self).key_is_valid(api_key@) && old(self).key_permits(api_key@, "write"@) ==> {
                &&& !r.close
                &&& r.frame is AuthSuccess
                &&& client_on(final(self).chat_clients@, channel_id)
                &&& final(self).chat_clients@.last().api_key@ == api_key@
            },
            !(old(self).key_is_valid(api_key@) && old(self).key_permits(api_key@, "write"@)) ==> {
                &&& r.close
                &&& r.frame is AuthError
                &&& !old(self).key_is_valid(api_key@) ==> r.frame->AuthError_error@ == "Invalid API key"@
                &&& old(self).key_is_valid(api_key@) ==> r.frame->AuthError_error@ == "API key lacks write permission required for chat"@
                &&& final(self).chat_clients == old(self).chat_clients
            },
            final(self).spider_api_keys == old(self).spider_api_keys,
            final(self).pending_mcp_requests == old(self).pending_mcp_requests,
            final(self).ws_connections == old(self).ws_connections,
    {
        let valid = self.validate_spider_key(api_key);
        if valid && self.validate_permission(api_key, "write") {
            self.remove_client(channel_id);
            self.chat_clients.push(ChatClient {
                channel_id,
                api_key: copy_str(api_key),
                conversation_id: None,
                connected_at: now,
            });
            let ghost last = self.chat_clients@.len() - 1;
            assert(self.chat_clients@[last].channel_id == channel_id);
            AuthReply { frame: ServerFrame::AuthSuccess { message: copy_str("Authenticated successfully") }, close: false }
        } else {
            let error = if !valid {
                copy_str("Invalid API key")
            } else {
                copy_str("API key lacks write permission required for chat")
            };
            AuthReply { frame: ServerFrame::AuthError { error }, close: true }
        }
    }

    /// Forgets the chat client on `channel_id` (its socket closed).
    pub fn remove_client(&mut self, channel_id: u32)
        ensures
            !client_on(final(self).chat_clients@, channel_id),
            forall|q: int| 0 <= q < old(self).chat_clients@.len() && old(self).chat_clients@[q].channel_id != channel_id
                ==> exists|m: int| 0 <= m < final(self).chat_clients@.len() && #[trigger] final(self).chat_clients@[m] == old(self).chat_clients@[q],
            final(self).spider_api_keys == old(self).spider_api_keys,
            final(self).pending_mcp_requests == old(self).pending_mcp_requests,
            final(self).ws_connections == old(self).ws_connections,
            final(self).active_chat_cancellation == old(self).active_chat_cancellation,
    {
        let mut i: usize = 0;
        while i < self.chat_clients.len()
            invariant
                0 <= i <= self.chat_clients@.len(),
                forall|k: int| 0 <= k < i ==> (#[trigger] self.chat_clients@[k]).channel_id != channel_id,
                forall|q: int| 0 <= q < old(self).chat_clients@.len() && old(self).chat_clients@[q].channel_id != channel_id
                    ==> exists|m: int| 0 <= m < self.chat_clients@.len() && #[trigger] self.chat_clients@[m] == old(self).chat_clients@[q],
                self.spider_api_keys == old(self).spider_api_keys,
                self.pending_mcp_requests == old(self).pending_mcp_requests,
                self.ws_connections == old(self).ws_connections,
                self.active_chat_cancellation == old(self).active_chat_cancellation,
            decreases self.chat_clients@.len() - i,
        {
            if self.chat_clients[i].channel_id == channel_id {
                let ghost before = self.chat_clients@;
                self.chat_clients.remove(i);
                assert forall|k: int| 0 <= k < i implies (#[trigger] self.chat_clients@[k]).channel_id != channel_id by {
                    assert(self.chat_clients@[k] == before[k]);
                }
                assert forall|q: int| 0 <= q < old(self).chat_clients@.len() && old(self).chat_clients@[q].channel_id != channel_id
                    implies exists|m: int| 0 <= m < self.chat_clients@.len() && #[trigger] self.chat_clients@[m] == old(self).chat_clients@[q] by {
                    let m = choose|m: int| 0 <= m < before.len() && #[trigger] before[m] == old(self).chat_clients@[q];
                    if m < i {
                        assert(self.chat_clients@[m] == before[m]);
                    } else {
                        assert(m != i);
                        assert(self.chat_clients@[m - 1] == before[m]);
                    }
                }
            } else {
                i = i + 1;
            }
        }
    }
}

/// The key of the client on `channel_id`, if one is registered.
pub open spec fn client_key(clients: Seq<ChatClient>, channel_id: u32) -> Option<Seq<char>>
    decreases clients.len(),
{
    if clients.len() == 0 {
        None
    } else if clients.last().channel_id == channel_id {
        Some(clients.last().api_key@)
    } else {
        client_key(clients.drop_last(), channel_id)
    }
}

impl SpiderState {
    /// The key a `chat` frame on `channel_id` runs under. The channel must be
    /// authenticated and its key must still grant `write`; otherwise the error
    /// frame to send.
    pub fn chat_key(&self, channel_id: u32) -> (r: Result<String, ServerFrame>)
        ensures
            client_key(self.chat_clients@, channel_id) is None ==> r is Err && r->Err_0 is Error
                && r->Err_0->Error_error@ == "Not authenticated. Please send auth message first."@,
            client_key(self.chat_clients@, channel_id) is Some && !self.key_permits(client_key(self.chat_clients@, channel_id)->0, "write"@)
                ==> r is Err && r->Err_0 is Error && r->Err_0->Error_error@ == "API key lacks write permission required for chat"@,
            client_key(self.chat_clients@, channel_id) is Some && self.key_permits(client_key(self.chat_clients@, channel_id)->0, "write"@)
                ==> r is Ok && r->Ok_0@ == client_key(self.chat_clients@, channel_id)->0,
    {
        let ghost cs = self.chat_clients@;
        let mut k: usize = self.chat_clients.len();
        assert(cs.take(k as int) =~= cs);
        while k > 0
            invariant
                0 <= k <= cs.len(),
                cs == self.chat_clients@,
                client_key(cs, channel_id) == client_key(cs.take(k as int), channel_id),
            decreases k,
        {
            assert(cs.take(k as int).drop_last() =~= cs.take(k - 1));
            if self.chat_clients[k - 1].channel_id == channel_id {
                let key = self.chat_clients[k - 1].api_key.as_str();
                if !self.validate_permission(key, "write") {
                    return Err(ServerFrame::Error { error: copy_str("API key lacks write permission required for chat") });
                }
                return Ok(copy_str(key));
            }
            k = k - 1;
        }
        Err(ServerFrame::Error { error: copy_str("Not authenticated. Please send auth message first.") })
    }

    /// The index of the last flag entry of `channel_id`.
    fn flag_index(&self, channel_id: u32) -> (r: Option<usize>)
        ensures
            r is Some ==> last_flag(self.active_chat_cancellation@, channel_id, r->0 as int),
            r is None ==> forall|k: int| 0 <= k < self.active_chat_cancellation@.len() ==> (#[trigger] self.active_chat_cancellation@[k]).0 != channel_id,
    {
        let mut k: usize = self.active_chat_cancellation.len();
        while k > 0
            invariant
                0 <= k <= self.active_chat_cancellation@.len(),
                forall|j: int| k <= j < self.active_chat_cancellation@.len() ==> (#[trigger] self.active_chat_cancellation@[j]).0 != channel_id,
            decreases k,
        {
            if self.active_chat_cancellation[k - 1].0 == channel_id {
                return Some(k - 1);
            }
            k = k - 1;
        }
        None
    }

    /// Sets the flag of `channel_id` in place, or adds it when there is none.
    fn set_flag(&mut self, channel_id: u32, value: bool)
        ensures
            flag_of(final(self).active_chat_cancellation@, channel_id) == Some(value),
            forall|c: u32| c != channel_id ==> #[trigger] flag_of(final(self).active_chat_cancellation@, c) == flag_of(old(self).active_chat_cancellation@, c),
            flag_of(old(self).active_chat_cancellation@, channel_id) is Some
                ==> final(self).active_chat_cancellation@.len() == old(self).active_chat_cancellation@.len(),
            flag_of(old(self).active_chat_cancellation@, channel_id) is None
                ==> final(self).active_chat_cancellation@.len() == old(self).active_chat_cancellation@.len() + 1,
            final(self).pending_mcp_requests == old(self).pending_mcp_requests,
            final(self).ws_connections == old(self).ws_connections,
            final(self).spider_api_keys == old(self).spider_api_keys,
    {
        let ghost before = self.active_chat_cancellation@;
        match self.flag_index(channel_id) {
            Some(k) => {
                self.active_chat_cancellation.set(k, (channel_id, value));
                proof { lemma_set_flag(before, channel_id, value, k as int); }
            },
            None => {
                proof { lemma_no_flag(before, channel_id); }
                self.active_chat_cancellation.push((channel_id, value));
                assert(self.active_chat_cancellation@.drop_last() =~= before);
            },
        }
    }

    /// Registers a cleared cancellation flag for a chat starting on
    /// `channel_id`, replacing any earlier one; returns the `processing` status
    /// frame.
    pub fn begin_streaming(&mut self, channel_id: u32) -> (r: ServerFrame)
        ensures
            flag_of(final(self).active_chat_cancellation@, channel_id) == Some(false),
            forall|c: u32| c != channel_id ==> #[trigger] flag_of(final(self).active_chat_cancellation@, c) == flag_of(old(self).active_chat_cancellation@, c),
            flag_of(old(self).active_chat_cancellation@, channel_id) is Some
                ==> final(self).active_chat_cancellation@.len() == old(self).active_chat_cancellation@.len(),
            r is Status && r->Status_status@ == "processing"@,
            final(self).pending_mcp_requests == old(self).pending_mcp_requests,
            final(self).ws_connections == old(self).ws_connections,
            final(self).spider_api_keys == old(self).spider_api_keys,
    {
        self.set_flag(channel_id, false);
        status_frame("processing", Some("Starting chat processing..."))
    }

    /// Handles a `cancel` frame: sets, in place, the flag of the chat running
    /// on `channel_id` and returns the `cancelled` status frame, or nothing
    /// when no chat runs there.
    pub fn cancel_chat(&mut self, channel_id: u32) -> (r: Option<ServerFrame>)
        ensures
            flag_of(old(self).active_chat_cancellation@, channel_id) is None ==> r is None && *final(self) == *old(self),
            flag_of(old(self).active_chat_cancellation@, channel_id) is Some ==> {
                &&& flag_of(final(self).active_chat_cancellation@, channel_id) == Some(true)
                &&& final(self).active_chat_cancellation@.len() == old(self).active_chat_cancellation@.len()
                &&& r is Some && r->0 is Status && r->0->Status_status@ == "cancelled"@
            },
            forall|c: u32| c != channel_id ==> #[trigger] flag_of(final(self).active_chat_cancellation@, c) == flag_of(old(self).active_chat_cancellation@, c),
            final(self).pending_mcp_requests == old(self).pending_mcp_requests,
            final(self).ws_connections == old(self).ws_connections,
    {
        if self.is_cancelled(channel_id).is_none() {
            return None;
        }
        self.set_flag(channel_id, true);
        Some(status_frame("cancelled", Some("Request cancelled")))
    }

    /// The cancellation flag of the chat on `channel_id`, if one runs there.
    pub fn is_cancelled(&self, channel_id: u32) -> (r: Option<bool>)
        ensures
            r == flag_of(self.active_chat_cancellation@, channel_id),
    {
        let ghost fs = self.active_chat_cancellation@;
        let mut k: usize = self.active_chat_cancellation.len();
        assert(fs.take(k as int) =~= fs);
        while k > 0
            invariant
                0 <= k <= fs.len(),
                fs == self.active_chat_cancellation@,
                flag_of(fs, channel_id) == flag_of(fs.take(k as int), channel_id),
            decreases k,
        {
            assert(fs.take(k as int).drop_last() =~= fs.take(k - 1));
            if self.active_chat_cancellation[k - 1].0 == channel_id {
                return Some(self.active_chat_cancellation[k - 1].1);
            }
            k = k - 1;
        }
        None
    }

    /// Removes the cancellation flag of `channel_id` when its chat ends;
    /// returns the `complete` status frame.
    pub fn end_streaming(&mut self, channel_id: u32) -> (r: ServerFrame)
        ensures
            flag_of(final(self).active_chat_cancellation@, channel_id) is None,
            r is Status && r->Status_status@ == "complete"@,
            final(self).pending_mcp_requests == old(self).pending_mcp_requests,
            final(self).ws_connections == old(self).ws_connections,
    {
        let mut i: usize = 0;
        while i < self.active_chat_cancellation.len()
            invariant
                0 <= i <= self.active_chat_cancellation@.len(),
                forall|k: int| 0 <= k < i ==> (#[trigger] self.active_chat_cancellation@[k]).0 != channel_id,
                self.pending_mcp_requests == old(self).pending_mcp_requests,
                self.ws_connections == old(self).ws_connections,
            decreases self.active_chat_cancellation@.len() - i,
        {
            if self.active_chat_cancellation[i].0 == channel_id {
                let ghost before = self.active_chat_cancellation@;
                self.active_chat_cancellation.remove(i);
                assert forall|k: int| 0 <= k < i implies (#[trigger] self.active_chat_cancellation@[k]).0 != channel_id by {
                    assert(self.active_chat_cancellation@[k] == before[k]);
                }
            } else {
                i = i + 1;
            }
        }
        proof { lemma_no_flag(self.active_chat_cancellation@, channel_id); }
        status_frame("complete", None)
    }
}

/// `k` is the last flag entry of `channel_id`.
pub open spec fn last_flag(flags: Seq<(u32, bool)>, channel_id: u32, k: int) -> bool {
    &&& 0 <= k < flags.len()
    &&& flags[k].0 == channel_id
    &&& forall|j: int| k < j < flags.len() ==> (#[trigger] flags[j]).0 != channel_id
}

proof fn lemma_set_flag(flags: Seq<(u32, bool)>, channel_id: u32, value: bool, k: int)
    requires
        last_flag(flags, channel_id, k),
    ensures
        flag_of(flags.update(k, (channel_id, value)), channel_id) == Some(value),
        forall|c: u32| c != channel_id ==> #[trigger] flag_of(flags.update(k, (channel_id, value)), c) == flag_of(flags, c),
        flag_of(flags, channel_id) is Some,
    decreases flags.len(),
{
    let g = flags.update(k, (channel_id, value));
    if k == flags.len() - 1 {
        assert(g.drop_last() =~= flags.drop_last());
        assert(g.last() == (channel_id, value));
        assert(flags.last().0 == channel_id);
    } else {
        let init = flags.drop_last();
        assert forall|j: int| k < j < init.len() implies (#[trigger] init[j]).0 != channel_id by {
            assert(init[j] == flags[j]);
        }
        lemma_set_flag(init, channel_id, value, k);
        assert(g.drop_last() =~= init.update(k, (channel_id, value)));
        assert(flags[flags.len() - 1].0 != channel_id);
        assert(g.last() == flags.last());
    }
    assert forall|c: u32| c != channel_id implies #[trigger] flag_of(g, c) == flag_of(flags, c) by {
        if k == flags.len() - 1 {
            assert(flag_of(g, c) == flag_of(g.drop_last(), c));
            assert(flag_of(flags, c) == flag_of(flags.drop_last(), c));
        } else {
            let init = flags.drop_last();
            assert(flag_of(init.update(k, (channel_id, value)), c) == flag_of(init, c));
        }
    }
}

proof fn lemma_no_flag(flags: Seq<(u32, bool)>, channel_id: u32)
    requires
        forall|k: int| 0 <= k < flags.len() ==> (#[trigger] flags[k]).0 != channel_id,
    ensures
        flag_of(flags, channel_id) is None,
    decreases flags.len(),
{
    if flags.len() > 0 {
        let init = flags.drop_last();
        assert forall|k: int| 0 <= k < init.len() implies (#[trigger] init[k]).0 != channel_id by {
            assert(init[k] == flags[k]);
        }
        lemma_no_flag(init, channel_id);
        assert(flags[flags.len() - 1].0 != channel_id);
    }
}

} // verus!
