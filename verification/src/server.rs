//! Decisions of the web server: sessions, limits, health and headers.

use vstd::prelude::*;

use crate::audit;
use crate::audit::event;
use crate::errors::ApiError;
use crate::text;

verus! {

// ---------------------------------------------------------------------------
// Owner tokens
// ---------------------------------------------------------------------------

/// The character of a sextet in the URL-safe base64 alphabet.
pub open spec fn url_char(v: int) -> char {
    if v < 26 {
        (65 + v) as char
    } else if v < 52 {
        (71 + v) as char
    } else if v < 62 {
        (v - 4) as char
    } else if v == 62 {
        '-'
    } else {
        '_'
    }
}

/// Bytes in URL-safe base64 without padding.
pub open spec fn url_text(b: Seq<u8>) -> Seq<char>
    decreases b.len(),
{
    if b.len() == 0 {
        Seq::empty()
    } else if b.len() == 1 {
        seq![url_char(b[0] as int / 4), url_char((b[0] as int % 4) * 16)]
    } else if b.len() == 2 {
        seq![
            url_char(b[0] as int / 4),
            url_char((b[0] as int % 4) * 16 + b[1] as int / 16),
            url_char((b[1] as int % 16) * 4),
        ]
    } else {
        seq![
            url_char(b[0] as int / 4),
            url_char((b[0] as int % 4) * 16 + b[1] as int / 16),
            url_char((b[1] as int % 16) * 4 + b[2] as int / 64),
            url_char(b[2] as int % 64),
        ] + url_text(b.skip(3))
    }
}

fn push_url_char(s: &mut String, v: u8)
    requires
        v < 64,
    ensures
        final(s)@ == old(s)@.push(url_char(v as int)),
{
    if v < 26 {
        s.push((65 + v) as char);
    } else if v < 52 {
        s.push((71 + v) as char);
    } else if v < 62 {
        s.push((v - 4) as char);
    } else if v == 62 {
        s.push('-');
    } else {
        s.push('_');
    }
}

pub fn base64_url_encode(bytes: &Vec<u8>) -> (r: String)
    ensures
        r@ == url_text(bytes@),
{
    let mut s = String::new();
    let mut i: usize = 0;
    let ghost goal = url_text(bytes@);
    proof {
        assert(bytes@.skip(0) =~= bytes@);
        assert(s@ + url_text(bytes@.skip(0)) =~= goal);
    }
    while bytes.len() - i >= 3
        invariant
            i <= bytes.len(),
            s@ + url_text(bytes@.skip(i as int)) == goal,
        decreases bytes.len() - i,
    {
        let ghost before = s@;
        let ghost rest = bytes@.skip(i as int);
        let a: u8 = bytes[i];
        let b: u8 = bytes[i + 1];
        let c: u8 = bytes[i + 2];
        push_url_char(&mut s, a / 4);
        push_url_char(&mut s, (a % 4) * 16 + b / 16);
        push_url_char(&mut s, (b % 16) * 4 + c / 64);
        push_url_char(&mut s, c % 64);
        proof {
            assert(rest[0] == a && rest[1] == b && rest[2] == c);
            assert(rest.skip(3) =~= bytes@.skip(i + 3));
            assert(s@ + url_text(bytes@.skip(i + 3)) =~= before + url_text(rest));
        }
        i += 3;
    }
    let ghost before = s@;
    let ghost rest = bytes@.skip(i as int);
    if bytes.len() - i == 1 {
        let a: u8 = bytes[i];
        push_url_char(&mut s, a / 4);
        push_url_char(&mut s, (a % 4) * 16);
        proof {
            assert(rest[0] == a);
            assert(s@ =~= before + url_text(rest));
        }
    } else if bytes.len() - i == 2 {
        let a: u8 = bytes[i];
        let b: u8 = bytes[i + 1];
        push_url_char(&mut s, a / 4);
        push_url_char(&mut s, (a % 4) * 16 + b / 16);
        push_url_char(&mut s, (b % 16) * 4);
        proof {
            assert(rest[0] == a && rest[1] == b);
            assert(s@ =~= before + url_text(rest));
        }
    } else {
        proof {
            assert(rest.len() == 0);
            assert(s@ =~= before + url_text(rest));
        }
    }
    s
}

/// The sextet of a character of the alphabet.
pub open spec fn url_value(c: char) -> int {
    if 'A' <= c <= 'Z' {
        c as int - 65
    } else if 'a' <= c <= 'z' {
        c as int - 71
    } else if '0' <= c <= '9' {
        c as int + 4
    } else if c == '-' {
        62
    } else {
        63
    }
}

/// The bytes that a text in URL-safe base64 stands for.
pub open spec fn url_bytes(t: Seq<char>) -> Seq<u8>
    decreases t.len(),
{
    if t.len() < 2 {
        Seq::empty()
    } else {
        let a = (url_value(t[0]) * 4 + url_value(t[1]) / 16) as u8;
        if t.len() == 2 {
            seq![a]
        } else {
            let b = ((url_value(t[1]) % 16) * 16 + url_value(t[2]) / 4) as u8;
            if t.len() == 3 {
                seq![a, b]
            } else {
                seq![a, b, ((url_value(t[2]) % 4) * 64 + url_value(t[3])) as u8] + url_bytes(
                    t.skip(4),
                )
            }
        }
    }
}

/// A token text stands for its bytes alone: encoding loses nothing.
pub proof fn law_token_text_keeps_the_bytes(b: Seq<u8>)
    ensures
        url_bytes(url_text(b)) == b,
    decreases b.len(),
{
    let t = url_text(b);
    assert(forall|v: int| 0 <= v < 64 ==> url_value(#[trigger] url_char(v)) == v);
    if b.len() == 1 {
        assert(url_bytes(t) =~= b);
    } else if b.len() == 2 {
        assert(url_bytes(t) =~= b);
    } else if b.len() >= 3 {
        law_token_text_keeps_the_bytes(b.skip(3));
        assert(t.skip(4) =~= url_text(b.skip(3)));
        assert(url_bytes(t) =~= b);
    }
}

/// Calls `getrandom::getrandom` on 32 bytes. Nothing is promised of the bytes but
/// their number; `None` where the system has no random source.
#[verifier::external_body]
fn random_token_bytes() -> (r: Option<Vec<u8>>)
    ensures
        r matches Some(v) ==> v@.len() == 32,
{
    let mut buf = vec![0u8; 32];
    getrandom::getrandom(&mut buf).ok()?;
    Some(buf)
}

/// A fresh owner token: 32 random bytes as text. None where the system has no
/// random source.
pub fn mint_owner_token() -> (r: Option<String>)
    ensures
        r matches Some(t) ==> exists|b: Seq<u8>| b.len() == 32 && t@ == #[trigger] url_text(b),
{
    owner_token_of(random_token_bytes())
}

/// The owner token for what the random source gave: the bytes as text, and none
/// where it gave nothing.
pub fn owner_token_of(bytes: Option<Vec<u8>>) -> (r: Option<String>)
    ensures
        match bytes {
            Some(b) => r matches Some(t) && t@ == url_text(b@),
            None => r is None,
        },
{
    match bytes {
        Some(b) => Some(base64_url_encode(&b)),
        None => None,
    }
}

// ---------------------------------------------------------------------------
// Sessions
// ---------------------------------------------------------------------------

/// What a session request does to the owner cookie.
#[derive(Clone, Copy, Debug, PartialEq, Eq, Structural)]
pub enum BootstrapPlan {
    /// Keep the token and renew the cookie.
    Renew,
    /// Drop a broken cookie and set a fresh token.
    Replace,
    /// Set a fresh token.
    Mint,
}

/// What a session request does, given whether there is a cookie and whether its
/// token is valid.
pub fn session_bootstrap(cookie_valid: Option<bool>) -> (r: BootstrapPlan)
    ensures
        r == (match cookie_valid {
            Some(b) => if b {
                BootstrapPlan::Renew
            } else {
                BootstrapPlan::Replace
            },
            None => BootstrapPlan::Mint,
        }),
{
    match cookie_valid {
        Some(true) => BootstrapPlan::Renew,
        Some(false) => BootstrapPlan::Replace,
        None => BootstrapPlan::Mint,
    }
}

/// The audit line of a fresh token.
pub fn bootstrap_line() -> (r: String)
    ensures
        r@ == "[AUDIT] "@ + "session.bootstrap"@ + audit::field_text("minted"@, "true"@),
{
    let line = event("session.bootstrap").field("minted", "true").emit();
    proof {
        let f = audit::field_text("minted"@, "true"@);
        assert(Seq::<char>::empty() + f =~= f);
    }
    line
}

/// Whether a logout has a token to revoke.
pub fn session_clear(cookie_valid: Option<bool>) -> (r: bool)
    ensures
        r == (cookie_valid == Some(true)),
{
    match cookie_valid {
        Some(b) => b,
        None => false,
    }
}

/// The audit lines of a logout, given what became of the revocation where one
/// was due. A failed revocation fails the logout.
pub fn logout_lines(revoked: Option<Result<(), String>>) -> (r: Result<Vec<String>, ApiError>)
    ensures
        match revoked {
            Some(Err(_)) => r matches Err(ApiError::Internal(m)) && m@ == "Failed to revoke session"@,
            Some(Ok(_)) => r matches Ok(v) && v@.len() == 2 && v@[0]@ == "[AUDIT] "@
                + "token.revoked"@ + audit::field_text("reason"@, "logout"@) && v@[1]@ == "[AUDIT] "@
                + "session.cleared"@,
            None => r matches Ok(v) && v@.len() == 1 && v@[0]@ == "[AUDIT] "@ + "session.cleared"@,
        },
{
    let mut v: Vec<String> = Vec::new();
    match revoked {
        Some(Err(_)) => {
            return Err(ApiError::Internal(String::from_str("Failed to revoke session")));
        },
        Some(Ok(_)) => {
            v.push(event("token.revoked").field("reason", "logout").emit());
            proof {
                let f = audit::field_text("reason"@, "logout"@);
                assert(Seq::<char>::empty() + f =~= f);
            }
        },
        None => {},
    }
    let ghost before = v@;
    v.push(event("session.cleared").emit());
    proof {
        let head = "[AUDIT] "@ + "session.cleared"@;
        assert(head + Seq::<char>::empty() =~= head);
    }
    Ok(v)
}

// ---------------------------------------------------------------------------
// Limits
// ---------------------------------------------------------------------------

/// What a token bucket is asked for: its key, and the two numbers that size it,
/// how much it holds and how fast it fills again. The limiter that keeps the
/// buckets gives the second its unit.
#[derive(Debug)]
pub struct RateCheck {
    pub key: String,
    pub capacity: u32,
    pub refill: u32,
}

fn keyed(prefix: &str, id: &str, capacity: u32, refill: u32) -> (r: RateCheck)
    ensures
        r.key@ == prefix@ + id@,
        r.capacity == capacity,
        r.refill == refill,
{
    let mut key = String::from_str(prefix);
    key.append(id);
    RateCheck { key, capacity, refill }
}

/// The limit of health checks.
pub fn health_limit(client_ip: &str) -> (r: RateCheck)
    ensures
        r.key@ == "health:"@ + client_ip@,
        r.capacity == 12,
        r.refill == 60,
{
    keyed("health:", client_ip, 12, 60)
}

/// The limit of session requests.
pub fn bootstrap_limit(client_ip: &str) -> (r: RateCheck)
    ensures
        r.key@ == "bootstrap:ip:"@ + client_ip@,
        r.capacity == 5,
        r.refill == 5,
{
    keyed("bootstrap:ip:", client_ip, 5, 5)
}

/// The limits of imports: by owner first, then by client.
pub fn process_limits(owner_token: &str, client_ip: &str) -> (r: (RateCheck, RateCheck))
    ensures
        r.0.key@ == "process:owner:"@ + owner_token@,
        r.0.capacity == 3,
        r.0.refill == 3,
        r.1.key@ == "process:ip:"@ + client_ip@,
        r.1.capacity == 5,
        r.1.refill == 5,
{
    (keyed("process:owner:", owner_token, 3, 3), keyed("process:ip:", client_ip, 5, 5))
}

// ---------------------------------------------------------------------------
// Health
// ---------------------------------------------------------------------------

#[derive(Clone, Copy, Debug, PartialEq, Eq, Structural)]
pub struct HealthResponse {
    pub database: bool,
    pub caches: bool,
    pub e621: bool,
}

/// The answer to a health check and its status: 429 with nothing claimed where
/// the limit is exceeded, 200 where all is well, 503 otherwise. The caches are
/// loaded by the check itself.
pub fn healthcheck(limited: bool, database: bool, e621: bool) -> (r: (u16, HealthResponse))
    ensures
        r == (if limited {
            (429u16, HealthResponse { database: false, caches: false, e621: false })
        } else {
            (
                if database && e621 {
                    200u16
                } else {
                    503u16
                },
                HealthResponse { database, caches: true, e621 },
            )
        }),
{
    if limited {
        return (429, HealthResponse { database: false, caches: false, e621: false });
    }
    let status: u16 = if database && e621 {
        200
    } else {
        503
    };
    (status, HealthResponse { database, caches: true, e621 })
}

// ---------------------------------------------------------------------------
// Catchers
// ---------------------------------------------------------------------------

pub fn catch_404() -> (r: ApiError)
    ensures
        r matches ApiError::NotFound(m) && m@ == "Resource not found"@,
{
    ApiError::NotFound(String::from_str("Resource not found"))
}

pub fn catch_422() -> (r: ApiError)
    ensures
        r matches ApiError::BadRequest(m) && m@ == "Unprocessable request body"@,
{
    ApiError::BadRequest(String::from_str("Unprocessable request body"))
}

pub fn catch_500() -> (r: ApiError)
    ensures
        r matches ApiError::Internal(m) && m@ == "Internal server error"@,
{
    ApiError::Internal(String::from_str("Internal server error"))
}

// ---------------------------------------------------------------------------
// Content security
// ---------------------------------------------------------------------------

/// The host of a URL, as `url::Url::parse` and `Url::host_str` give it: none
/// where the text is no URL or the URL has no host.
pub uninterp spec fn url_host(url: Seq<char>) -> Option<Seq<char>>;

pub open spec fn host_view(r: Option<String>) -> Option<Seq<char>> {
    match r {
        Some(h) => Some(h@),
        None => None,
    }
}

/// Calls `url::Url::parse` and, on the URL, `host_str`. The result is the host,
/// if there is one.
#[verifier::external_body]
fn host_of(url: &str) -> (r: Option<String>)
    ensures
        host_view(r) == url_host(url@),
{
    url::Url::parse(url).ok()?.host_str().map(|h| h.to_string())
}

/// The policy that lets media come from the hosts below one host.
pub open spec fn csp_text(host: Seq<char>) -> Seq<char> {
    "default-src 'self'; script-src 'self' 'wasm-unsafe-eval' 'unsafe-inline'; style-src 'self' 'unsafe-inline'; font-src 'self'; img-src 'self' data: "@
        + "https://*."@ + host + "; media-src "@ + "https://*."@ + host
        + "; connect-src 'self'; frame-ancestors 'none'; base-uri 'self'; form-action 'self'"@
}

/// The content security policy for media from a host; none for an empty host.
pub fn csp_for_host(host: &str) -> (r: Option<String>)
    ensures
        match r {
            Some(p) => host@.len() > 0 && p@ == csp_text(host@),
            None => host@.len() == 0,
        },
{
    if host.is_empty() {
        return None;
    }
    let mut s = String::from_str(
        "default-src 'self'; script-src 'self' 'wasm-unsafe-eval' 'unsafe-inline'; style-src 'self' 'unsafe-inline'; font-src 'self'; img-src 'self' data: ",
    );
    s.append("https://*.");
    s.append(host);
    s.append("; media-src ");
    s.append("https://*.");
    s.append(host);
    s.append("; connect-src 'self'; frame-ancestors 'none'; base-uri 'self'; form-action 'self'");
    Some(s)
}

/// The content security policy for the domain that posts come from; none where
/// it has no host.
pub fn content_security_policy(posts_domain: &str) -> (r: Option<String>)
    ensures
        match url_host(posts_domain@) {
            Some(h) => if h.len() > 0 {
                r matches Some(p) && p@ == csp_text(h)
            } else {
                r is None
            },
            None => r is None,
        },
{
    match host_of(posts_domain) {
        Some(h) => csp_for_host(h.as_str()),
        None => None,
    }
}

/// A token text is made of letters, digits, `-` and `_` alone, so it needs no
/// encoding in a cookie or an address, and has no padding.
pub proof fn law_token_alphabet(b: Seq<u8>, i: int)
    requires
        0 <= i < url_text(b).len(),
    ensures
        ({
            let c = url_text(b)[i];
            'A' <= c <= 'Z' || 'a' <= c <= 'z' || '0' <= c <= '9' || c == '-' || c == '_'
        }),
        b.len() % 3 == 0 ==> 3 * url_text(b).len() == 4 * b.len(),
        b.len() % 3 == 1 ==> 3 * url_text(b).len() == 4 * b.len() + 2,
        b.len() % 3 == 2 ==> 3 * url_text(b).len() == 4 * b.len() + 1,
    decreases b.len(),
{
    lemma_url_len(b);
    if b.len() > 3 && i >= 4 {
        law_token_alphabet(b.skip(3), i - 4);
    }
}

proof fn lemma_url_len(b: Seq<u8>)
    ensures
        b.len() % 3 == 0 ==> 3 * url_text(b).len() == 4 * b.len(),
        b.len() % 3 == 1 ==> 3 * url_text(b).len() == 4 * b.len() + 2,
        b.len() % 3 == 2 ==> 3 * url_text(b).len() == 4 * b.len() + 1,
    decreases b.len(),
{
    if b.len() >= 3 {
        lemma_url_len(b.skip(3));
    }
}

/// The policy as its directives: images and media come from the subdomains of the
/// host, and nothing else comes from elsewhere.
pub proof fn law_policy(host: Seq<char>)
    ensures
        csp_text(host) == text::joined(
            seq![
                "default-src 'self'"@,
                "script-src 'self' 'wasm-unsafe-eval' 'unsafe-inline'"@,
                "style-src 'self' 'unsafe-inline'"@,
                "font-src 'self'"@,
                "img-src 'self' data: https://*."@ + host,
                "media-src https://*."@ + host,
                "connect-src 'self'"@,
                "frame-ancestors 'none'"@,
                "base-uri 'self'"@,
                "form-action 'self'"@,
            ],
            "; "@,
        ),
{
    let p = seq![
        "default-src 'self'"@,
        "script-src 'self' 'wasm-unsafe-eval' 'unsafe-inline'"@,
        "style-src 'self' 'unsafe-inline'"@,
        "font-src 'self'"@,
        "img-src 'self' data: https://*."@ + host,
        "media-src https://*."@ + host,
        "connect-src 'self'"@,
        "frame-ancestors 'none'"@,
        "base-uri 'self'"@,
        "form-action 'self'"@,
    ];
    text::lemma_joined_take(p, "; "@, 1);
    text::lemma_joined_take(p, "; "@, 2);
    text::lemma_joined_take(p, "; "@, 3);
    text::lemma_joined_take(p, "; "@, 4);
    text::lemma_joined_take(p, "; "@, 5);
    text::lemma_joined_take(p, "; "@, 6);
    text::lemma_joined_take(p, "; "@, 7);
    text::lemma_joined_take(p, "; "@, 8);
    text::lemma_joined_take(p, "; "@, 9);
    assert(p.take(1) =~= seq![p[0]]);
    assert(p.take(10) =~= p);
    reveal_strlit("; ");
    reveal_strlit("default-src 'self'");
    reveal_strlit("script-src 'self' 'wasm-unsafe-eval' 'unsafe-inline'");
    reveal_strlit("style-src 'self' 'unsafe-inline'");
    reveal_strlit("font-src 'self'");
    reveal_strlit("img-src 'self' data: https://*.");
    reveal_strlit("media-src https://*.");
    reveal_strlit("connect-src 'self'");
    reveal_strlit("frame-ancestors 'none'");
    reveal_strlit("base-uri 'self'");
    reveal_strlit("form-action 'self'");
    reveal_strlit(
        "default-src 'self'; script-src 'self' 'wasm-unsafe-eval' 'unsafe-inline'; style-src 'self' 'unsafe-inline'; font-src 'self'; img-src 'self' data: ",
    );
    reveal_strlit("https://*.");
    reveal_strlit("; media-src ");
    reveal_strlit(
        "; connect-src 'self'; frame-ancestors 'none'; base-uri 'self'; form-action 'self'",
    );
    let a = "default-src 'self'"@ + "; "@ + "script-src 'self' 'wasm-unsafe-eval' 'unsafe-inline'"@
        + "; "@ + "style-src 'self' 'unsafe-inline'"@ + "; "@ + "font-src 'self'"@ + "; "@;
    let c = "; "@ + "connect-src 'self'"@ + "; "@ + "frame-ancestors 'none'"@ + "; "@
        + "base-uri 'self'"@ + "; "@ + "form-action 'self'"@;
    assert("default-src 'self'; script-src 'self' 'wasm-unsafe-eval' 'unsafe-inline'; style-src 'self' 'unsafe-inline'; font-src 'self'; img-src 'self' data: "@
        + "https://*."@ =~= a + "img-src 'self' data: https://*."@);
    assert("; connect-src 'self'; frame-ancestors 'none'; base-uri 'self'; form-action 'self'"@
        =~= c);
    assert("; media-src "@ + "https://*."@ =~= "; "@ + "media-src https://*."@);
    assert(csp_text(host) =~= a + "img-src 'self' data: https://*."@ + host + ("; "@
        + "media-src https://*."@) + host + c);
    assert(text::joined(p, "; "@) =~= a + "img-src 'self' data: https://*."@ + host + ("; "@
        + "media-src https://*."@) + host + c);
}

} // verus!
