use vstd::prelude::*;
use vstd::utf8::*;
use base64::Engine;

use crate::text::{cat, copy_str, has_prefix, is_ascii_digit};

verus! {

broadcast use vstd::std_specs::vec::group_vec_axioms;

// ---------------------------------------------------------------------------
// OAuth token recognition
// ---------------------------------------------------------------------------

/// The number of `-` among the first `k` characters of `s`.
pub open spec fn hyphens_before(s: Seq<char>, k: int) -> nat
    decreases k,
{
    if k <= 0 || k > s.len() {
        0
    } else {
        hyphens_before(s, k - 1) + if s[k - 1] == '-' { 1nat } else { 0nat }
    }
}

/// Position `p` starts the third hyphen-separated field of `s`.
pub open spec fn third_field_starts_at(s: Seq<char>, p: int) -> bool {
    0 < p <= s.len() && s[p - 1] == '-' && hyphens_before(s, p) == 2
}

/// The third hyphen-separated field of `s`, starting at `p`, is `oat` and
/// two ASCII digits.
pub open spec fn oauth_marker_at(s: Seq<char>, p: int) -> bool {
    &&& third_field_starts_at(s, p)
    &&& p + 5 <= s.len()
    &&& s[p] == 'o'
    &&& s[p + 1] == 'a'
    &&& s[p + 2] == 't'
    &&& is_ascii_digit(s[p + 3])
    &&& is_ascii_digit(s[p + 4])
    &&& (p + 5 == s.len() || s[p + 5] == '-')
}

/// A key is an OAuth token when its third hyphen-separated field is `oat`
/// followed by exactly two ASCII digits (as in `sk-ant-oat01-...`).
pub open spec fn is_oauth_key(s: Seq<char>) -> bool {
    exists|p: int| oauth_marker_at(s, p)
}

proof fn lemma_hyphens_monotone(s: Seq<char>, a: int, b: int)
    requires
        0 <= a <= b <= s.len(),
    ensures
        hyphens_before(s, a) <= hyphens_before(s, b),
    decreases b - a,
{
    if a < b {
        lemma_hyphens_monotone(s, a, b - 1);
    }
}

/// Whether `key` is an OAuth token (see [`is_oauth_key`]).
pub fn is_oauth_token(key: &str) -> (r: bool)
    ensures
        r == is_oauth_key(key@),
{
    let ghost s = key@;
    let n = key.unicode_len();
    let mut count: usize = 0;
    let mut i: usize = 0;
    let mut start: usize = 0;
    let mut found = false;
    while i < n && !found
        invariant
            n == s.len(),
            s == key@,
            0 <= i <= n,
            !found ==> count == hyphens_before(s, i as int),
            !found ==> count <= 1,
            !found ==> forall|q: int| 0 < q <= i ==> hyphens_before(s, q) <= 1,
            found ==> third_field_starts_at(s, start as int),
            found ==> start <= n,
            found ==> forall|q: int| 0 < q < start ==> hyphens_before(s, q) <= 1,
        decreases n - i + (if found { 0int } else { 1int }),
    {
        let c = key.get_char(i);
        if c == '-' {
            if count == 1 {
                found = true;
                start = i + 1;
            } else {
                count = count + 1;
                i = i + 1;
            }
        } else {
            i = i + 1;
        }
    }
    if !found {
        assert forall|p: int| !oauth_marker_at(s, p) by {
            if 0 < p <= s.len() {
                assert(hyphens_before(s, p) <= 1);
            }
        }
        return false;
    }
    assert forall|p: int| #![auto] third_field_starts_at(s, p) implies p == start by {
        if p < start {
            assert(hyphens_before(s, p) <= 1);
        } else if p > start {
            lemma_hyphens_monotone(s, start as int, p - 1);
        }
    }
    if n < 5 || start > n - 5 {
        return false;
    }
    let c0 = key.get_char(start);
    let c1 = key.get_char(start + 1);
    let c2 = key.get_char(start + 2);
    let c3 = key.get_char(start + 3);
    let c4 = key.get_char(start + 4);
    let ends = start + 5 == n || key.get_char(start + 5) == '-';
    let r = c0 == 'o' && c1 == 'a' && c2 == 't' && '0' <= c3 && c3 <= '9' && '0' <= c4 && c4 <= '9' && ends;
    assert(r ==> oauth_marker_at(s, start as int));
    r
}

// ---------------------------------------------------------------------------
// At-rest obfuscation envelope
// ---------------------------------------------------------------------------

/// The standard base64 encoding (with padding) of `b`.
pub uninterp spec fn base64_of(b: Seq<u8>) -> Seq<char>;

/// What standard base64 decoding gives for `s`, or `None` when `s` is not valid base64.
pub uninterp spec fn base64_decoded(s: Seq<char>) -> Option<Seq<u8>>;

/// Relies on `base64::engine::general_purpose::STANDARD.encode`: the padded
/// standard alphabet, which the same engine decodes back to the input bytes.
#[verifier::external_body]
fn base64_encode(b: &[u8]) -> (r: String)
    ensures
        r@ == base64_of(b@),
        base64_decoded(r@) == Some(b@),
{
    base64::engine::general_purpose::STANDARD.encode(b)
}

/// Relies on `base64::engine::general_purpose::STANDARD.decode`: `Err` on
/// input that is not valid padded standard base64.
#[verifier::external_body]
fn base64_decode(s: &str) -> (r: Option<Vec<u8>>)
    ensures
        r is Some == base64_decoded(s@) is Some,
        r is Some ==> r->0@ == base64_decoded(s@)->0,
{
    base64::engine::general_purpose::STANDARD.decode(s).ok()
}

/// Relies on `String::from_utf8`: `Ok` exactly for valid UTF-8, holding the
/// decoded characters.
#[verifier::external_body]
fn string_from_utf8(b: Vec<u8>) -> (r: Option<String>)
    ensures
        r is Some == valid_utf8(b@),
        r is Some ==> r->0@ == decode_utf8(b@),
{
    String::from_utf8(b).ok()
}

/// The marker that begins every obfuscated key.
pub open spec fn envelope_prefix() -> Seq<char> {
    seq!['e', 'n', 'c', 'r', 'y', 'p', 't', 'e', 'd', ':']
}

/// The at-rest form of a key: `encrypted:` followed by the base64 of its UTF-8 bytes.
pub open spec fn encrypted_form(key: Seq<char>) -> Seq<char> {
    envelope_prefix() + base64_of(encode_utf8(key))
}

/// The key that an at-rest form stands for. A string without the marker is
/// taken as a plain key; a marked one whose payload does not decode to UTF-8
/// stands for the empty key.
pub open spec fn decrypted_form(s: Seq<char>) -> Seq<char> {
    if envelope_prefix().is_prefix_of(s) {
        match base64_decoded(s.skip(10)) {
            Some(b) => if valid_utf8(b) { decode_utf8(b) } else { Seq::empty() },
            None => Seq::empty(),
        }
    } else {
        s
    }
}

/// Wraps a key in the obfuscation envelope. Decrypting the result gives the key back.
pub fn encrypt_key(key: &str) -> (r: String)
    ensures
        r@ == encrypted_form(key@),
        decrypted_form(r@) == key@,
{
    let bytes = key.as_bytes();
    let encoded = base64_encode(bytes);
    let out = cat("encrypted:", encoded.as_str());
    proof {
        reveal_strlit("encrypted:");
        assert("encrypted:"@ =~= envelope_prefix());
        assert(envelope_prefix().is_prefix_of(out@));
        assert(out@.skip(10) =~= encoded@);
        encode_utf8_valid_utf8(key@);
        encode_utf8_decode_utf8(key@);
    }
    out
}

/// Opens the obfuscation envelope (see [`decrypted_form`]).
pub fn decrypt_key(encrypted_key: &str) -> (r: String)
    ensures
        r@ == decrypted_form(encrypted_key@),
{
    proof {
        reveal_strlit("encrypted:");
        assert("encrypted:"@ =~= envelope_prefix());
    }
    if has_prefix(encrypted_key, "encrypted:") {
        let n = encrypted_key.unicode_len();
        let payload = encrypted_key.substring_char(10, n);
        assert(payload@ =~= encrypted_key@.skip(10));
        match base64_decode(payload) {
            Some(bytes) => match string_from_utf8(bytes) {
                Some(s) => s,
                None => String::new(),
            },
            None => String::new(),
        }
    } else {
        copy_str(encrypted_key)
    }
}

/// What a key listing shows of a stored key: its first 20 characters and
/// `...` when it is longer than 20, else `***`.
pub open spec fn preview_of(s: Seq<char>) -> Seq<char> {
    if s.len() > 20 {
        s.take(20) + seq!['.', '.', '.']
    } else {
        seq!['*', '*', '*']
    }
}

/// The preview of a stored (obfuscated) key. The envelope is ASCII, so its
/// first 20 characters are its first 20 bytes.
pub fn preview_key(encrypted_key: &str) -> (r: String)
    ensures
        r@ == preview_of(encrypted_key@),
{
    proof {
        reveal_strlit("...");
        reveal_strlit("***");
    }
    let n = encrypted_key.unicode_len();
    if n > 20 {
        let head = encrypted_key.substring_char(0, 20);
        let r = cat(head, "...");
        assert(r@ =~= preview_of(encrypted_key@));
        r
    } else {
        let r = copy_str("***");
        assert(r@ =~= preview_of(encrypted_key@));
        r
    }
}

} // verus!
