//! Owner tokens: the session cookie, revoked tokens and the request guard.

use vstd::prelude::*;

use crate::errors::ApiError;
use crate::text;
use crate::text::contains_text;

verus! {

pub const OWNER_TOKEN_COOKIE: &'static str = "owner_token";

pub const OWNER_TOKEN_MAX_AGE_DAYS: i64 = 400;

/// Revoked tokens are kept ten days longer than a cookie lives.
pub const REVOKED_TOKEN_RETENTION_SECS: i64 = (OWNER_TOKEN_MAX_AGE_DAYS + 10) * 86_400;

/// The tokens that were revoked.
pub struct RevokedSet {
    pub tokens: Vec<String>,
}

impl RevokedSet {
    pub open spec fn has(&self, token: Seq<char>) -> bool {
        text::holds_text(self.tokens@, token)
    }

    pub fn new() -> (r: RevokedSet)
        ensures
            forall|t: Seq<char>| !#[trigger] r.has(t),
    {
        RevokedSet { tokens: Vec::new() }
    }
}

/// Replaces the set by the tokens that the database holds.
pub fn reload_revocation_set(set: &mut RevokedSet, loaded: Result<Vec<String>, String>) -> (r: Result<
    (),
    String,
>)
    ensures
        match loaded {
            Ok(tokens) => r is Ok && forall|t: Seq<char>| #[trigger]
                final(set).has(t) == text::holds_text(tokens@, t),
            Err(e) => r == Err::<(), String>(e) && *final(set) == *old(set),
        },
{
    match loaded {
        Ok(tokens) => {
            set.tokens = tokens;
            Ok(())
        },
        Err(e) => Err(e),
    }
}

/// Revokes a token, once the database has noted it.
pub fn revoke(set: &mut RevokedSet, token: &str, noted: Result<(), String>) -> (r: Result<
    (),
    String,
>)
    ensures
        match noted {
            Ok(_) => r is Ok && forall|t: Seq<char>| #[trigger]
                final(set).has(t) == (old(set).has(t) || t == token@),
            Err(e) => r == Err::<(), String>(e) && *final(set) == *old(set),
        },
{
    match noted {
        Ok(_) => {
            let ghost before = text::views(set.tokens@);
            if contains_text(&set.tokens, token) {
                return Ok(());
            }
            set.tokens.push(String::from_str(token));
            proof {
                let after = text::views(set.tokens@);
                assert(after =~= before.push(token@));
                assert forall|t: Seq<char>| #[trigger] set.has(t) == (old(set).has(t) || t
                    == token@) by {
                    if before.contains(t) {
                        let i = choose|i: int| 0 <= i < before.len() && before[i] == t;
                        assert(after[i] == t);
                    }
                    if t == token@ {
                        assert(after[before.len() as int] == t);
                    }
                    if after.contains(t) && t != token@ {
                        let i = choose|i: int| 0 <= i < after.len() && after[i] == t;
                        assert(before[i] == t);
                    }
                }
            }
            Ok(())
        },
        Err(e) => Err(e),
    }
}

/// Whether a token counts as revoked. Where the set cannot be read, every token does.
pub open spec fn counts_as_revoked(set: Option<&RevokedSet>, token: Seq<char>) -> bool {
    match set {
        Some(s) => s.has(token),
        None => true,
    }
}

/// Whether a token was revoked. Refusing a request beats letting one through whose
/// token may be revoked.
pub fn is_revoked(set: Option<&RevokedSet>, token: &str) -> (r: bool)
    ensures
        r == counts_as_revoked(set, token@),
{
    match set {
        Some(s) => contains_text(&s.tokens, token),
        None => true,
    }
}

/// The token of a device that passed the guard.
pub struct OwnerToken(pub String);

impl OwnerToken {
    pub fn as_str(&self) -> (r: &str)
        ensures
            r@ == self.0@,
    {
        self.0.as_str()
    }
}

/// Whether a cookie travels with requests from other sites.
#[derive(Debug, Clone, Copy, PartialEq, Eq, Structural)]
pub enum SameSite {
    Strict,
    Lax,
    Unrestricted,
}

/// The session cookie.
pub struct OwnerCookie {
    pub name: &'static str,
    pub value: String,
    pub http_only: bool,
    pub secure: bool,
    pub same_site: SameSite,
    pub path: &'static str,
    pub max_age_secs: i64,
}

/// What every session cookie has: it is out of reach of scripts, bound to the
/// interface path, and secure outside debug builds.
pub open spec fn is_session_cookie(c: OwnerCookie, debug: bool) -> bool {
    &&& c.name@ == OWNER_TOKEN_COOKIE@
    &&& c.http_only
    &&& c.secure == !debug
    &&& c.same_site == SameSite::Lax
    &&& c.path@ == "/api"@
}

/// The cookie that keeps a token for as long as cookies live.
pub fn build_owner_cookie(token: String, debug: bool) -> (r: OwnerCookie)
    ensures
        is_session_cookie(r, debug),
        r.value == token,
        r.max_age_secs == OWNER_TOKEN_MAX_AGE_DAYS * 86_400,
{
    OwnerCookie {
        name: OWNER_TOKEN_COOKIE,
        value: token,
        http_only: true,
        secure: !debug,
        same_site: SameSite::Lax,
        path: "/api",
        max_age_secs: OWNER_TOKEN_MAX_AGE_DAYS * 86_400,
    }
}

/// The cookie that removes the token.
pub fn build_owner_cookie_clear(debug: bool) -> (r: OwnerCookie)
    ensures
        is_session_cookie(r, debug),
        r.value@ == Seq::<char>::empty(),
        r.max_age_secs == 0,
{
    OwnerCookie {
        name: OWNER_TOKEN_COOKIE,
        value: String::new(),
        http_only: true,
        secure: !debug,
        same_site: SameSite::Lax,
        path: "/api",
        max_age_secs: 0,
    }
}

/// What the guard makes of a request: the cookie that goes back, if any, and
/// the token or the refusal with its status.
pub struct GuardOutcome {
    pub cookie: Option<OwnerCookie>,
    pub result: Result<OwnerToken, (u16, ApiError)>,
}

/// Lets a request through or refuses it.
///
/// A request without a token is refused as it is. An invalid or revoked token
/// is refused and its cookie removed. Any other token passes, and its cookie is
/// renewed. `invalid` is the error of a token that is not well formed. Without
/// `revoked` no token passes.
pub fn guard_request(
    token: Option<String>,
    invalid: Option<ApiError>,
    revoked: Option<&RevokedSet>,
    debug: bool,
) -> (r: GuardOutcome)
    ensures
        match token {
            None => {
                &&& r.cookie is None
                &&& r.result matches Err(e) && e.0 == 401 && (e.1 matches ApiError::Unauthorized(m)
                    && m@ == "missing owner token"@)
            },
            Some(t) => match invalid {
                Some(bad) => {
                    &&& r.cookie matches Some(c) && is_session_cookie(c, debug) && c.value@.len()
                        == 0 && c.max_age_secs == 0
                    &&& r.result == Err::<OwnerToken, (u16, ApiError)>((400, bad))
                },
                None => if counts_as_revoked(revoked, t@) {
                    &&& r.cookie matches Some(c) && is_session_cookie(c, debug) && c.value@.len()
                        == 0 && c.max_age_secs == 0
                    &&& r.result matches Err(e) && e.0 == 401 && (
                    e.1 matches ApiError::Unauthorized(m) && m@
                        == "session revoked; please log in again"@)
                } else {
                    &&& r.cookie matches Some(c) && is_session_cookie(c, debug) && c.value@ == t@
                        && c.max_age_secs == OWNER_TOKEN_MAX_AGE_DAYS * 86_400
                    &&& r.result matches Ok(o) && o.0@ == t@
                },
            },
        },
{
    let t = match token {
        Some(t) => t,
        None => {
            return GuardOutcome {
                cookie: None,
                result: Err(
                    (401, ApiError::Unauthorized(String::from_str("missing owner token"))),
                ),
            };
        },
    };
    match invalid {
        Some(bad) => {
            return GuardOutcome {
                cookie: Some(build_owner_cookie_clear(debug)),
                result: Err((400, bad)),
            };
        },
        None => {},
    }
    if is_revoked(revoked, t.as_str()) {
        return GuardOutcome {
            cookie: Some(build_owner_cookie_clear(debug)),
            result: Err(
                (
                    401,
                    ApiError::Unauthorized(
                        String::from_str("session revoked; please log in again"),
                    ),
                ),
            ),
        };
    }
    let kept = String::from_str(t.as_str());
    GuardOutcome { cookie: Some(build_owner_cookie(kept, debug)), result: Ok(OwnerToken(t)) }
}

/// A revoked token is refused until the set is reloaded, and revoking it again
/// changes nothing for any token.
pub proof fn law_revocation_sticks(before: RevokedSet, once: RevokedSet, twice: RevokedSet, token: Seq<char>)
    requires
        forall|t: Seq<char>| #[trigger] once.has(t) == (before.has(t) || t == token),
        forall|t: Seq<char>| #[trigger] twice.has(t) == (once.has(t) || t == token),
    ensures
        once.has(token),
        forall|t: Seq<char>| #[trigger] twice.has(t) == once.has(t),
{
}

/// A revoked token stays on record longer than any cookie that carries it lives.
pub proof fn law_retention_outlives_cookies()
    ensures
        REVOKED_TOKEN_RETENTION_SECS > OWNER_TOKEN_MAX_AGE_DAYS * 86_400,
{
}

/// A session cookie is never readable by scripts, never sent along from other
/// sites but for navigation, sent to the interface only, and outside debug builds
/// over secure connections only.
pub proof fn law_session_cookies_are_guarded(c: OwnerCookie, debug: bool)
    requires
        is_session_cookie(c, debug),
    ensures
        c.http_only,
        c.same_site == SameSite::Lax,
        c.name@ == "owner_token"@,
        c.path@ == "/api"@,
        c.secure <==> !debug,
{
}

/// Where the revoked tokens cannot be read every token counts as revoked, and where
/// they can exactly those on record do.
pub proof fn law_unreadable_set_refuses(set: RevokedSet, token: Seq<char>)
    ensures
        counts_as_revoked(None, token),
        counts_as_revoked(Some(&set), token) <==> exists|i: int|
            0 <= i < set.tokens@.len() && (#[trigger] set.tokens@[i])@ == token,
{
    let v = text::views(set.tokens@);
    if set.has(token) {
        let i = choose|i: int| 0 <= i < v.len() && v[i] == token;
        assert(set.tokens@[i]@ == token);
    }
    if exists|i: int| 0 <= i < set.tokens@.len() && (#[trigger] set.tokens@[i])@ == token {
        let i = choose|i: int| 0 <= i < set.tokens@.len() && (#[trigger] set.tokens@[i])@ == token;
        assert(v[i] == token);
    }
}

} // verus!
