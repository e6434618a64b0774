//! JSON-RPC 2.0 frames of the MCP protocol.

use vstd::prelude::*;

use crate::json::{opt_view, entry, jstr, lemma_view_entries, object, view_entries, Json, JsonV};
use crate::text::{cat, decimal_of, u32_decimal};

verus! {

broadcast use {vstd::std_specs::vec::group_vec_axioms, vstd::seq::group_seq_axioms};

pub open spec fn str_v(s: &str) -> JsonV {
    JsonV::Str(s@)
}

/// A request frame: `jsonrpc`, `method`, `params` when given, and `id`.
pub open spec fn request_frame(method: Seq<char>, params: Option<JsonV>, id: Seq<char>) -> JsonV {
    JsonV::Object(
        seq![("jsonrpc"@, str_v("2.0")), ("method"@, JsonV::Str(method))]
        + match params { Some(p) => seq![("params"@, p)], None => Seq::empty() }
        + seq![("id"@, JsonV::Str(id))]
    )
}

/// A notification frame: `jsonrpc` and `method`.
pub open spec fn notification_frame(method: Seq<char>) -> JsonV {
    JsonV::Object(seq![("jsonrpc"@, str_v("2.0")), ("method"@, JsonV::Str(method))])
}

/// The parameters of `initialize`.
pub open spec fn initialize_params() -> JsonV {
    JsonV::Object(seq![
        ("protocolVersion"@, str_v("2024-11-05")),
        ("clientInfo"@, JsonV::Object(seq![("name"@, str_v("spider")), ("version"@, str_v("1.0.0"))])),
        ("capabilities"@, JsonV::Object(Seq::empty())),
    ])
}

/// The id of the `initialize` request on a channel: `init_<channel>`.
pub open spec fn init_request_id(channel_id: u32) -> Seq<char> {
    "init_"@ + decimal_of(channel_id as nat)
}

/// The id of the `tools/list` request on a channel: `tools_<channel>`.
pub open spec fn tools_request_id(channel_id: u32) -> Seq<char> {
    "tools_"@ + decimal_of(channel_id as nat)
}

pub fn request(method: &str, params: Option<Json>, id: &str) -> (r: Json)
    ensures
        r@ == request_frame(method@, opt_view(params), id@),
{
    let ghost pv = opt_view(params);
    let mut v: Vec<(String, Json)> = Vec::new();
    v.push(entry("jsonrpc", jstr("2.0")));
    v.push(entry("method", jstr(method)));
    match params {
        Some(p) => {
            v.push(entry("params", p));
        },
        None => {},
    }
    v.push(entry("id", jstr(id)));
    proof { lemma_view_entries(v@); }
    let r = object(v);
    assert(view_entries(v@) =~= request_frame(method@, pv, id@)->Object_0);
    r
}

pub fn notification(method: &str) -> (r: Json)
    ensures
        r@ == notification_frame(method@),
{
    let mut v: Vec<(String, Json)> = Vec::new();
    v.push(entry("jsonrpc", jstr("2.0")));
    v.push(entry("method", jstr(method)));
    proof { lemma_view_entries(v@); }
    assert(view_entries(v@) =~= notification_frame(method@)->Object_0);
    object(v)
}

fn init_params() -> (r: Json)
    ensures
        r@ == initialize_params(),
{
    let mut info: Vec<(String, Json)> = Vec::new();
    info.push(entry("name", jstr("spider")));
    info.push(entry("version", jstr("1.0.0")));
    proof { lemma_view_entries(info@); }
    let info_obj = object(info);
    let empty: Vec<(String, Json)> = Vec::new();
    proof { lemma_view_entries(empty@); }
    let caps = object(empty);
    let mut v: Vec<(String, Json)> = Vec::new();
    v.push(entry("protocolVersion", jstr("2024-11-05")));
    v.push(entry("clientInfo", info_obj));
    v.push(entry("capabilities", caps));
    proof { lemma_view_entries(v@); }
    assert(view_entries(info@) =~= seq![("name"@, str_v("spider")), ("version"@, str_v("1.0.0"))]);
    assert(view_entries(empty@) =~= Seq::<(Seq<char>, JsonV)>::empty());
    assert(view_entries(v@) =~= initialize_params()->Object_0);
    object(v)
}

/// The `initialize` request for a new connection on `channel_id`.
pub fn initialize_request(channel_id: u32) -> (r: Json)
    ensures
        r@ == request_frame("initialize"@, Some(initialize_params()), init_request_id(channel_id)),
{
    let id = cat("init_", u32_decimal(channel_id).as_str());
    request("initialize", Some(init_params()), id.as_str())
}

/// The `tools/list` request on `channel_id`.
pub fn tools_list_request(channel_id: u32) -> (r: Json)
    ensures
        r@ == request_frame("tools/list"@, None, tools_request_id(channel_id)),
{
    let id = cat("tools_", u32_decimal(channel_id).as_str());
    request("tools/list", None, id.as_str())
}

} // verus!
