//! The server side of the OAuth proxy: the request bodies sent to the
//! provider's token endpoint and the tokens read from its reply.

use vstd::prelude::*;

use crate::json::{entry, jstr, lemma_view_entries, member, object, text_member, view_entries, Json, JsonV};
use crate::text::copy_str;

verus! {

broadcast use {vstd::std_specs::vec::group_vec_axioms, vstd::seq::group_seq_axioms};

/// The OAuth client id of the console application.
pub const OAUTH_CLIENT_ID: &'static str = "9d1c250a-e61b-44d9-88ed-5944d1962f5e";

/// The redirect URI registered for the console application.
pub const OAUTH_REDIRECT_URI: &'static str = "https://console.anthropic.com/oauth/code/callback";

/// The token endpoint.
pub const OAUTH_TOKEN_URL: &'static str = "https://console.anthropic.com/v1/oauth/token";

/// The text before the first `#` of `s`, or all of it.
pub open spec fn before_hash(s: Seq<char>) -> Seq<char>
    decreases s.len(),
{
    if s.len() == 0 {
        s
    } else if s[0] == '#' {
        Seq::empty()
    } else {
        seq![s[0]] + before_hash(s.drop_first())
    }
}

/// The text after the first `#` of `s`, or nothing when there is none.
pub open spec fn after_hash(s: Seq<char>) -> Option<Seq<char>>
    decreases s.len(),
{
    if s.len() == 0 {
        None
    } else if s[0] == '#' {
        Some(s.drop_first())
    } else {
        after_hash(s.drop_first())
    }
}

/// The two fields of an authorization code `code#state`: the code, and the
/// state up to any further `#` (empty when absent).
pub open spec fn code_and_state(s: Seq<char>) -> (Seq<char>, Seq<char>) {
    (before_hash(s), match after_hash(s) {
        Some(rest) => before_hash(rest),
        None => Seq::empty(),
    })
}

proof fn lemma_hash_split(s: Seq<char>, i: int)
    requires
        0 <= i <= s.len(),
        forall|k: int| 0 <= k < i ==> s[k] != '#',
    ensures
        i < s.len() && s[i] == '#' ==> before_hash(s) == s.take(i) && after_hash(s) == Some(s.skip(i + 1)),
        i == s.len() ==> before_hash(s) == s && after_hash(s) is None,
    decreases i,
{
    if i > 0 {
        let t = s.drop_first();
        assert forall|k: int| 0 <= k < i - 1 implies t[k] != '#' by {
            assert(t[k] == s[k + 1]);
        }
        lemma_hash_split(t, i - 1);
        assert(s[0] != '#');
        if i < s.len() && s[i] == '#' {
            assert(t[i - 1] == '#');
            assert(seq![s[0]] + t.take(i - 1) =~= s.take(i));
            assert(t.skip(i) =~= s.skip(i + 1));
        }
        if i == s.len() {
            assert(seq![s[0]] + t =~= s);
        }
    } else {
        if s.len() > 0 && s[0] == '#' {
            assert(s.take(0) =~= Seq::<char>::empty());
            assert(s.drop_first() =~= s.skip(1));
        }
    }
}

/// Splits `s` at its first `#`.
fn split_hash(s: &str) -> (r: (String, Option<String>))
    ensures
        r.0@ == before_hash(s@),
        r.1 is Some == after_hash(s@) is Some,
        r.1 is Some ==> r.1->0@ == after_hash(s@)->0,
{
    let n = s.unicode_len();
    let mut i: usize = 0;
    while i < n
        invariant
            n == s@.len(),
            0 <= i <= n,
            forall|k: int| 0 <= k < i ==> s@[k] != '#',
        decreases n - i,
    {
        if s.get_char(i) == '#' {
            proof { lemma_hash_split(s@, i as int); }
            let head = s.substring_char(0, i);
            let tail = s.substring_char(i + 1, n);
            assert(tail@ =~= s@.skip(i + 1));
            return (copy_str(head), Some(copy_str(tail)));
        }
        i = i + 1;
    }
    proof { lemma_hash_split(s@, i as int); }
    (copy_str(s), None)
}

/// The body that exchanges an authorization code for tokens.
pub open spec fn exchange_body_value(code: Seq<char>, verifier: Seq<char>) -> JsonV {
    JsonV::Object(seq![
        ("code"@, JsonV::Str(code_and_state(code).0)),
        ("state"@, JsonV::Str(code_and_state(code).1)),
        ("grant_type"@, JsonV::Str("authorization_code"@)),
        ("client_id"@, JsonV::Str(OAUTH_CLIENT_ID@)),
        ("redirect_uri"@, JsonV::Str(OAUTH_REDIRECT_URI@)),
        ("code_verifier"@, JsonV::Str(verifier)),
    ])
}

/// The body of an authorization-code exchange; `code` is `code#state`.
pub fn exchange_body(code: &str, verifier: &str) -> (r: Json)
    ensures
        r@ == exchange_body_value(code@, verifier@),
{
    let (c, rest) = split_hash(code);
    let state = match rest {
        Some(t) => split_hash(t.as_str()).0,
        None => String::new(),
    };
    let mut v: Vec<(String, Json)> = Vec::new();
    v.push(entry("code", Json::Str(c)));
    v.push(entry("state", Json::Str(state)));
    v.push(entry("grant_type", jstr("authorization_code")));
    v.push(entry("client_id", jstr(OAUTH_CLIENT_ID)));
    v.push(entry("redirect_uri", jstr(OAUTH_REDIRECT_URI)));
    v.push(entry("code_verifier", jstr(verifier)));
    proof { lemma_view_entries(v@); }
    assert(view_entries(v@) =~= exchange_body_value(code@, verifier@)->Object_0);
    object(v)
}

/// The body that refreshes tokens.
pub open spec fn refresh_body_value(refresh_token: Seq<char>) -> JsonV {
    JsonV::Object(seq![
        ("grant_type"@, JsonV::Str("refresh_token"@)),
        ("refresh_token"@, JsonV::Str(refresh_token)),
        ("client_id"@, JsonV::Str(OAUTH_CLIENT_ID@)),
    ])
}

pub fn refresh_body(refresh_token: &str) -> (r: Json)
    ensures
        r@ == refresh_body_value(refresh_token@),
{
    let mut v: Vec<(String, Json)> = Vec::new();
    v.push(entry("grant_type", jstr("refresh_token")));
    v.push(entry("refresh_token", jstr(refresh_token)));
    v.push(entry("client_id", jstr(OAUTH_CLIENT_ID)));
    proof { lemma_view_entries(v@); }
    assert(view_entries(v@) =~= refresh_body_value(refresh_token@)->Object_0);
    object(v)
}

/// Whether the token endpoint accepted the request (a 2xx status).
pub fn oauth_status_ok(status: u16) -> (r: bool)
    ensures
        r == (200 <= status && status < 300),
{
    200 <= status && status < 300
}

/// Tokens handed back to the browser.
pub struct OAuthTokens {
    pub access: String,
    pub refresh: String,
    pub expires: u64,
}

/// A text member, or the empty text.
pub open spec fn text_or_empty(j: JsonV, key: Seq<char>) -> Seq<char> {
    match text_member(j, key) {
        Some(t) => t,
        None => Seq::empty(),
    }
}

/// The lifetime a token reply states: `expires_in` when it is a
/// non-negative integer that fits in 64 bits, else an hour.
pub open spec fn lifetime(j: JsonV) -> int {
    match member(j, "expires_in"@) {
        Some(JsonV::Int(n)) => if 0 <= n <= u64::MAX { n } else { 3600 },
        _ => 3600,
    }
}

/// The tokens of a token endpoint reply received at `now`: the expiry is
/// `now` plus the lifetime, saturating at `u64::MAX`.
pub fn oauth_tokens(reply: &Json, now: u64) -> (r: OAuthTokens)
    ensures
        r.access@ == text_or_empty(reply@, "access_token"@),
        r.refresh@ == text_or_empty(reply@, "refresh_token"@),
        r.expires == if now + lifetime(reply@) <= u64::MAX { now + lifetime(reply@) } else { u64::MAX as int },
{
    let access = match reply.get_str("access_token") {
        Some(t) => copy_str(t),
        None => String::new(),
    };
    let refresh = match reply.get_str("refresh_token") {
        Some(t) => copy_str(t),
        None => String::new(),
    };
    let life: u64 = match reply.get("expires_in") {
        Some(Json::Int(n)) => if 0 <= *n && *n <= u64::MAX as i128 { *n as u64 } else { 3600 },
        _ => 3600,
    };
    let expires = if life > u64::MAX - now { u64::MAX } else { now + life };
    OAuthTokens { access, refresh, expires }
}

} // verus!
