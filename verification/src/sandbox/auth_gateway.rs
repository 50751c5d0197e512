//! Auth gateway — a reverse proxy on the host that receives agents'
//! requests from the sandbox, swaps the dummy API key for the real
//! credential (API key or OAuth token), and forwards upstream. This module
//! holds its decisions: where a request goes, which headers carry the
//! credential, which headers are forwarded, and the JWT handling.
use vstd::prelude::*;
use vstd::string::StringSliceAdditionalSpecFns;
use vstd::utf8::encode_utf8;

use crate::codec::{base64_url_nopad, base64_url_nopad_decode, base64_url_nopad_decoded, base64_url_nopad_encode};
use crate::json::{
    json_as_string, json_bytes_parse, json_get, json_member_at, json_parse, json_quoted, json_string_at,
    json_string_literal,
};
use crate::text::opt_view;
use crate::text::str_eq;
use crate::text::{
    append_range, append_str, chars_of, has_prefix, replace_first, replace_first_text, slices_of,
    split_on, split_ranges, starts_with, string_from_chars,
};

verus! {

/// Where a request for `path_and_query` goes. API keys go to the
/// configured base as-is; OAuth goes to `chatgpt.com/backend-api/codex`,
/// dropping a leading `/v1/codex` or else `/v1`.
pub open spec fn upstream_url_text(is_oauth: bool, upstream_base: Seq<char>, pq: Seq<char>) -> Seq<char> {
    if is_oauth {
        let path = if has_prefix(pq, "/v1/codex"@) {
            pq.skip("/v1/codex"@.len() as int)
        } else if has_prefix(pq, "/v1"@) {
            pq.skip("/v1"@.len() as int)
        } else {
            pq
        };
        "https://chatgpt.com/backend-api/codex"@ + path
    } else {
        upstream_base + pq
    }
}

pub fn upstream_url(is_oauth: bool, upstream_base: &str, path_and_query: &str) -> (r: String)
    ensures
        r@ == upstream_url_text(is_oauth, upstream_base@, path_and_query@),
{
    let mut out: Vec<char> = Vec::new();
    if is_oauth {
        let pq = chars_of(path_and_query);
        let codex = chars_of("/v1/codex");
        let v1 = chars_of("/v1");
        let skip = if starts_with(&pq, &codex) {
            codex.len()
        } else if starts_with(&pq, &v1) {
            v1.len()
        } else {
            0
        };
        append_str(&mut out, "https://chatgpt.com/backend-api/codex");
        append_range(&mut out, &pq, skip, pq.len());
        proof {
            assert(pq@.subrange(skip as int, pq@.len() as int) =~= pq@.skip(skip as int));
        }
    } else {
        append_str(&mut out, upstream_base);
        append_str(&mut out, path_and_query);
    }
    string_from_chars(&out)
}

/// `url` with its first `https://` made `wss://`, like
/// `str::replacen(.., 1)`.
pub open spec fn websocket_url_text(url: Seq<char>) -> Seq<char> {
    replace_first_text(url, "https://"@, "wss://"@)
}

pub fn websocket_url(url: &str) -> (r: String)
    ensures
        r@ == websocket_url_text(url@),
{
    let u = chars_of(url);
    let pat = chars_of("https://");
    let rep = chars_of("wss://");
    let out = replace_first(&u, &pat, &rep);
    string_from_chars(&out)
}

pub open spec fn header_view(h: Seq<(String, String)>) -> Seq<(Seq<char>, Seq<char>)> {
    h.map_values(|p: (String, String)| (p.0@, p.1@))
}

/// The headers that carry the credential: a bearer token, and for OAuth
/// the account id (when known) and the Responses API headers.
pub open spec fn auth_header_list(credential: Seq<char>, is_oauth: bool, account_id: Option<Seq<char>>) -> Seq<(Seq<char>, Seq<char>)> {
    seq![("Authorization"@, "Bearer "@ + credential)] + if is_oauth {
        (match account_id {
            Some(a) => seq![("chatgpt-account-id"@, a)],
            None => Seq::empty(),
        }) + seq![("OpenAI-Beta"@, "responses=experimental"@), ("originator"@, "codex_cli_rs"@)]
    } else {
        Seq::empty()
    }
}

/// The headers hold exactly one entry named `name`, and its value is `v`.
pub open spec fn has_header(hs: Seq<(Seq<char>, Seq<char>)>, name: Seq<char>, v: Seq<char>) -> bool {
    exists|i: int|
        0 <= i < hs.len() && #[trigger] hs[i] == (name, v) && forall|j: int| 0 <= j < hs.len() && j != i ==> hs[j].0 != name
}

/// The headers hold no entry named `name`.
pub open spec fn lacks_header(hs: Seq<(Seq<char>, Seq<char>)>, name: Seq<char>) -> bool {
    forall|j: int| 0 <= j < hs.len() ==> hs[j].0 != name
}

/// What the credential headers say, header by header: `Authorization`
/// carries the credential as a bearer token; for OAuth,
/// `chatgpt-account-id` carries the account id passed in (and is absent
/// without one), and the Responses API headers are set; an API key gets
/// the `Authorization` header alone.
pub proof fn law_auth_headers_by_name(credential: Seq<char>, is_oauth: bool, account_id: Option<Seq<char>>)
    ensures
        has_header(auth_header_list(credential, is_oauth, account_id), "Authorization"@, "Bearer "@ + credential),
        (is_oauth && account_id is Some) ==> has_header(
            auth_header_list(credential, is_oauth, account_id),
            "chatgpt-account-id"@,
            account_id->0,
        ),
        (!is_oauth || account_id is None) ==> lacks_header(
            auth_header_list(credential, is_oauth, account_id),
            "chatgpt-account-id"@,
        ),
        is_oauth ==> has_header(
            auth_header_list(credential, is_oauth, account_id),
            "OpenAI-Beta"@,
            "responses=experimental"@,
        ),
        is_oauth ==> has_header(auth_header_list(credential, is_oauth, account_id), "originator"@, "codex_cli_rs"@),
        !is_oauth ==> auth_header_list(credential, is_oauth, account_id).len() == 1,
{
    reveal_strlit("Authorization");
    reveal_strlit("chatgpt-account-id");
    reveal_strlit("OpenAI-Beta");
    reveal_strlit("originator");
    let hs = auth_header_list(credential, is_oauth, account_id);
    let auth = "Authorization"@;
    let acct = "chatgpt-account-id"@;
    let beta = "OpenAI-Beta"@;
    let orig = "originator"@;
    assert(auth != acct && auth != beta && auth != orig && acct != beta && acct != orig && beta != orig) by {
        assert(auth.len() != acct.len());
        assert(auth.len() != beta.len());
        assert(auth[0] != orig[0]);
        assert(acct.len() != beta.len());
        assert(acct.len() != orig.len());
        assert(beta.len() != orig.len());
    }
    assert(hs[0] == (auth, "Bearer "@ + credential));
    if is_oauth {
        if account_id is Some {
            assert(hs.len() == 4);
            assert(hs[1] == (acct, account_id->0));
            assert(hs[2] == (beta, "responses=experimental"@));
            assert(hs[3] == (orig, "codex_cli_rs"@));
            assert(has_header(hs, acct, account_id->0));
            assert(has_header(hs, beta, "responses=experimental"@));
            assert(has_header(hs, orig, "codex_cli_rs"@));
        } else {
            assert(hs.len() == 3);
            assert(hs[1] == (beta, "responses=experimental"@));
            assert(hs[2] == (orig, "codex_cli_rs"@));
            assert(has_header(hs, beta, "responses=experimental"@));
            assert(has_header(hs, orig, "codex_cli_rs"@));
        }
    } else {
        assert(hs.len() == 1);
    }
    assert(has_header(hs, auth, "Bearer "@ + credential));
}

fn header(name: &str, value: &str) -> (r: (String, String))
    ensures
        r.0@ == name@,
        r.1@ == value@,
{
    let mut n: Vec<char> = Vec::new();
    append_str(&mut n, name);
    let mut v: Vec<char> = Vec::new();
    append_str(&mut v, value);
    (string_from_chars(&n), string_from_chars(&v))
}

/// The headers to set on an upstream request, in order.
pub fn auth_headers(credential: &str, is_oauth: bool, account_id: Option<&str>) -> (r: Vec<(String, String)>)
    ensures
        header_view(r@) == auth_header_list(
            credential@,
            is_oauth,
            match account_id {
                Some(a) => Some(a@),
                None => None,
            },
        ),
        has_header(header_view(r@), "Authorization"@, "Bearer "@ + credential@),
        match account_id {
            Some(a) if is_oauth => has_header(header_view(r@), "chatgpt-account-id"@, a@),
            _ => lacks_header(header_view(r@), "chatgpt-account-id"@),
        },
{
    let mut bearer: Vec<char> = Vec::new();
    append_str(&mut bearer, "Bearer ");
    append_str(&mut bearer, credential);
    let b = string_from_chars(&bearer);
    let mut r: Vec<(String, String)> = Vec::new();
    r.push(header("Authorization", b.as_str()));
    if is_oauth {
        if let Some(a) = account_id {
            r.push(header("chatgpt-account-id", a));
        }
        r.push(header("OpenAI-Beta", "responses=experimental"));
        r.push(header("originator", "codex_cli_rs"));
    }
    proof {
        assert(header_view(r@) =~= auth_header_list(
            credential@,
            is_oauth,
            match account_id {
                Some(a) => Some(a@),
                None => None,
            },
        ));
        law_auth_headers_by_name(
            credential@,
            is_oauth,
            match account_id {
                Some(a) => Some(a@),
                None => None,
            },
        );
    }
    r
}

/// A request header is copied upstream unless it is `authorization` or
/// `host` (header names arrive lower-case).
pub fn is_forwarded_header(name: &str) -> (r: bool)
    ensures
        r == (name@ != "authorization"@ && name@ != "host"@),
{
    !str_eq(name, "authorization") && !str_eq(name, "host")
}

/// ASCII lower-casing of one character.
pub open spec fn ascii_lower(c: char) -> char {
    if 'A' <= c <= 'Z' {
        ((c as u32) + 32) as char
    } else {
        c
    }
}

/// Equality up to ASCII case, like `str::eq_ignore_ascii_case`.
pub open spec fn eq_ignore_ascii_case(a: Seq<char>, b: Seq<char>) -> bool {
    a.len() == b.len() && forall|i: int| 0 <= i < a.len() ==> ascii_lower(#[trigger] a[i]) == ascii_lower(b[i])
}

fn to_ascii_lower(c: char) -> (r: char)
    ensures
        r == ascii_lower(c),
{
    if 'A' <= c && c <= 'Z' {
        let u = (c as u32) + 32;
        proof {
            assert(u <= 0x7f);
        }
        char_from_ascii(u)
    } else {
        c
    }
}

/// The character of an ASCII code point.
fn char_from_ascii(u: u32) -> (c: char)
    requires
        u <= 0x7f,
    ensures
        c == u as char,
{
    (u as u8) as char
}

/// Equality of two strings up to ASCII case.
pub fn str_eq_ignore_ascii_case(a: &str, b: &str) -> (r: bool)
    ensures
        r == eq_ignore_ascii_case(a@, b@),
{
    let x = chars_of(a);
    let y = chars_of(b);
    if x.len() != y.len() {
        return false;
    }
    let mut i: usize = 0;
    while i < x.len()
        invariant
            0 <= i <= x@.len(),
            x@ == a@,
            y@ == b@,
            x@.len() == y@.len(),
            forall|j: int| 0 <= j < i ==> ascii_lower(#[trigger] x@[j]) == ascii_lower(y@[j]),
        decreases x@.len() - i,
    {
        if to_ascii_lower(x[i]) != to_ascii_lower(y[i]) {
            assert(ascii_lower(x@[i as int]) != ascii_lower(y@[i as int]));
            return false;
        }
        i += 1;
    }
    true
}

/// The `Upgrade` header asks for a WebSocket.
pub fn is_websocket_upgrade(upgrade: Option<&str>) -> (r: bool)
    ensures
        r == match upgrade {
            Some(v) => eq_ignore_ascii_case(v@, "websocket"@),
            None => false,
        },
{
    match upgrade {
        None => false,
        Some(v) => str_eq_ignore_ascii_case(v, "websocket"),
    }
}

/// The `Sec-WebSocket-Accept` value for a `Sec-WebSocket-Key`, per
/// RFC 6455: base64 of the SHA-1 of the key and the protocol's GUID.
pub uninterp spec fn ws_accept_key(request_key: Seq<u8>) -> Seq<char>;

/// Computes `Sec-WebSocket-Accept` with
/// `tungstenite::handshake::derive_accept_key`.
///
/// Trusted: the result is the named value of the key's bytes.
#[verifier::external_body]
fn compute_ws_accept(key: &str) -> (r: String)
    ensures
        r@ == ws_accept_key(key.spec_bytes()),
{
    tungstenite::handshake::derive_accept_key(key.as_bytes())
}

/// The headers of the `101 Switching Protocols` reply to a client's
/// WebSocket upgrade, given its `Sec-WebSocket-Key` (`None` when it sent
/// none, which counts as the empty key).
pub open spec fn switching_reply_headers(client_key: Option<Seq<char>>) -> Seq<(Seq<char>, Seq<char>)> {
    let key = match client_key {
        Some(k) => k,
        None => Seq::empty(),
    };
    seq![
        ("Upgrade"@, "websocket"@),
        ("Connection"@, "Upgrade"@),
        ("Sec-WebSocket-Accept"@, ws_accept_key(encode_utf8(key))),
    ]
}

/// Headers of the reply that accepts a client's WebSocket upgrade.
pub fn switching_protocols_headers(client_key: Option<&str>) -> (r: Vec<(String, String)>)
    ensures
        header_view(r@) == switching_reply_headers(match client_key {
            Some(k) => Some(k@),
            None => None,
        }),
{
    let key = match client_key {
        Some(k) => k,
        None => "",
    };
    proof {
        reveal_strlit("");
    }
    let accept = compute_ws_accept(key);
    let mut r: Vec<(String, String)> = Vec::new();
    r.push((String::from_str("Upgrade"), String::from_str("websocket")));
    r.push((String::from_str("Connection"), String::from_str("Upgrade")));
    r.push((String::from_str("Sec-WebSocket-Accept"), accept));
    proof {
        assert(header_view(r@) =~= switching_reply_headers(match client_key {
            Some(k) => Some(k@),
            None => None,
        }));
    }
    r
}

/// Status of the reply when proxying fails.
pub const BAD_GATEWAY: u16 = 502;

/// The reply to a request whose proxying failed with `error`: 502 and a
/// text naming the path (WebSocket or HTTP) that failed.
pub fn gateway_error_reply(websocket: bool, error: &str) -> (r: (u16, String))
    ensures
        r.0 == BAD_GATEWAY,
        r.1@ == if websocket {
            "auth gateway ws error: "@ + error@
        } else {
            "auth gateway error: "@ + error@
        },
{
    let mut out: Vec<char> = Vec::new();
    if websocket {
        append_str(&mut out, "auth gateway ws error: ");
    } else {
        append_str(&mut out, "auth gateway error: ");
    }
    append_str(&mut out, error);
    (BAD_GATEWAY, string_from_chars(&out))
}

/// Whether the vault's answer for a secret's auth method means OAuth. A
/// failed lookup (`None`) counts as an API key.
pub fn is_oauth_method(method: Option<&str>) -> (r: bool)
    ensures
        r == (method matches Some(m) && m@ == "oauth"@),
{
    match method {
        Some(m) => str_eq(m, "oauth"),
        None => false,
    }
}

/// Where a request goes and with which credential.
pub struct ResolvedUpstream {
    pub url: String,
    pub credential: String,
    pub is_oauth: bool,
    pub account_id: Option<String>,
}

/// The message when the vault holds no value for the secret.
pub open spec fn secret_missing_text() -> Seq<char> {
    "auth gateway: secret not found in vault"@
}

/// Resolves a request from what the vault answered: the secret's value
/// (`None` when the vault has none, which is an error) and, for OAuth, the
/// stored id token whose `chatgpt_account_id` claim names the account.
pub fn resolve_upstream(
    is_oauth: bool,
    secret: Option<String>,
    id_token: Option<&str>,
    upstream_base: &str,
    path_and_query: &str,
) -> (r: Result<ResolvedUpstream, String>)
    ensures
        secret is None <==> r is Err,
        r matches Err(e) ==> e@ == secret_missing_text(),
        r matches Ok(u) ==> {
            &&& u.url@ == upstream_url_text(is_oauth, upstream_base@, path_and_query@)
            &&& u.credential@ == secret->0@
            &&& u.is_oauth == is_oauth
            &&& opt_view(u.account_id) == match id_token {
                Some(t) if is_oauth => jwt_claim(t@, "chatgpt_account_id"@),
                _ => None,
            }
        },
{
    let credential = match secret {
        Some(c) => c,
        None => {
            let mut out: Vec<char> = Vec::new();
            append_str(&mut out, "auth gateway: secret not found in vault");
            return Err(string_from_chars(&out));
        },
    };
    let account_id = if is_oauth {
        match id_token {
            Some(jwt) => extract_jwt_claim(jwt, "chatgpt_account_id"),
            None => None,
        }
    } else {
        None
    };
    let url = upstream_url(is_oauth, upstream_base, path_and_query);
    Ok(ResolvedUpstream { url, credential, is_oauth, account_id })
}

/// The second `.`-separated segment of a JWT (its payload).
pub fn jwt_payload_segment(jwt: &str) -> (r: Option<String>)
    ensures
        match r {
            Some(p) => split_on(jwt@, '.').len() >= 2 && p@ == split_on(jwt@, '.')[1],
            None => split_on(jwt@, '.').len() < 2,
        },
{
    let chars = chars_of(jwt);
    let ranges = split_ranges(&chars, '.');
    if ranges.len() < 2 {
        return None;
    }
    let (from, to) = ranges[1];
    let mut out: Vec<char> = Vec::new();
    append_range(&mut out, &chars, from, to);
    proof {
        assert(slices_of(chars@, ranges@)[1] == chars@.subrange(from as int, to as int));
    }
    Some(string_from_chars(&out))
}

/// The member of a JWT payload that holds the OpenAI claims.
pub open spec fn auth_claims_key() -> Seq<char> {
    "https://api.openai.com/auth"@
}

/// Claim `claim` of the `https://api.openai.com/auth` object in a JWT's
/// payload: the payload is the second `.`-separated segment, in URL-safe
/// unpadded base64, of JSON; the claim must be a string.
pub open spec fn jwt_claim(jwt: Seq<char>, claim: Seq<char>) -> Option<Seq<char>> {
    let segs = split_on(jwt, '.');
    if segs.len() < 2 {
        None
    } else {
        match base64_url_nopad_decoded(segs[1]) {
            None => None,
            Some(bytes) => {
                let top = Seq::<Seq<char>>::empty();
                if !json_bytes_parse(bytes) || !json_member_at(bytes, top, auth_claims_key()) {
                    None
                } else if !json_member_at(bytes, top.push(auth_claims_key()), claim) {
                    None
                } else {
                    json_string_at(bytes, top.push(auth_claims_key()).push(claim))
                }
            },
        }
    }
}

/// Extract a single claim from the `https://api.openai.com/auth` object in
/// a JWT's payload.
pub fn extract_jwt_claim(jwt: &str, claim: &str) -> (r: Option<String>)
    ensures
        opt_view(r) == jwt_claim(jwt@, claim@),
{
    let payload = jwt_payload_segment(jwt)?;
    let bytes = base64_url_nopad_decode(payload.as_str())?;
    let json = match json_parse(bytes.as_slice()) {
        Ok(j) => j,
        Err(_) => return None,
    };
    let auth = json_get(&json, "https://api.openai.com/auth")?;
    let value = json_get(&auth, claim)?;
    json_as_string(&value)
}

/// The JSON payload of the stub token: the account id under
/// `https://api.openai.com/auth`.
pub open spec fn stub_payload(quoted_account_id: Seq<char>) -> Seq<char> {
    "{\"https://api.openai.com/auth\":{\"chatgpt_account_id\":"@ + quoted_account_id + "}}"@
}

/// The stub token for an account id: an unsigned JWT (`alg: none`) whose
/// payload holds only the account id claim.
pub open spec fn stub_token(account_id: Seq<char>) -> Seq<char> {
    base64_url_nopad(encode_utf8("{\"alg\":\"none\",\"typ\":\"JWT\"}"@)) + "."@
        + base64_url_nopad(encode_utf8(stub_payload(json_quoted(account_id)))) + "."@
}

/// A minimal unsigned JWT holding only the account id claim, so clients
/// that parse the API key as a JWT can read the account id without seeing
/// the real credential.
pub fn stub_jwt(account_id: &str) -> (r: String)
    ensures
        r@ == stub_token(account_id@),
{
    let quoted = match json_string_literal(account_id) {
        Some(q) => q,
        None => String::new(),
    };
    let header = base64_url_nopad_encode("{\"alg\":\"none\",\"typ\":\"JWT\"}".as_bytes());
    let mut payload: Vec<char> = Vec::new();
    append_str(&mut payload, "{\"https://api.openai.com/auth\":{\"chatgpt_account_id\":");
    append_str(&mut payload, quoted.as_str());
    append_str(&mut payload, "}}");
    let payload_text = string_from_chars(&payload);
    let body = base64_url_nopad_encode(payload_text.as_str().as_bytes());
    let mut out: Vec<char> = Vec::new();
    append_str(&mut out, header.as_str());
    append_str(&mut out, ".");
    append_str(&mut out, body.as_str());
    append_str(&mut out, ".");
    string_from_chars(&out)
}

/// The stub token for the OAuth id token stored for a secret: `None` when
/// there is no id token, or its payload has no `chatgpt_account_id` claim;
/// else the stub token of that claim.
pub fn build_stub_jwt(id_token: Option<&str>) -> (r: Option<String>)
    ensures
        opt_view(r) == match id_token {
            None => None,
            Some(t) => match jwt_claim(t@, "chatgpt_account_id"@) {
                Some(a) => Some(stub_token(a)),
                None => None,
            },
        },
{
    let token = match id_token {
        Some(t) => t,
        None => return None,
    };
    match extract_jwt_claim(token, "chatgpt_account_id") {
        Some(account) => {
            let t = stub_jwt(account.as_str());
            Some(t)
        },
        None => None,
    }
}

} // verus!
