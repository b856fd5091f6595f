//! The cookies of the sign-in flow. Every auth cookie is host-only (the
//! `__Host-` prefix: secure, path `/`, no domain); the opener-origin cookie
//! is shared across subdomains; legacy cookies under `/api` are cleared.

use vstd::prelude::*;
use crate::text::{chars_of, string_of};

verus! {

pub const ACCESS_TOKEN_COOKIE: &'static str = "__Host-sakiot-access_token";

pub const REFRESH_TOKEN_COOKIE: &'static str = "__Host-sakiot-refresh_token";

pub const CSRF_COOKIE: &'static str = "__Host-sakiot-xsrf_token";

pub const LOGGED_IN_COOKIE: &'static str = "__Host-sakiot-logged_in";

pub const OAUTH_STATE_COOKIE: &'static str = "__Host-sakiot-oauth_state";

/// How long a cookie lives.
#[derive(Clone, Copy, Debug, PartialEq, Eq, Structural)]
pub enum CookieLifetime {
    /// As long as a sign-in session (the refresh token's lifetime).
    Session,
    /// This many minutes.
    Minutes(i64),
    /// Zero: the browser drops the cookie.
    Clear,
}

/// A cookie as the server sets it. An attribute that is `None` is not sent.
#[derive(Clone, Debug)]
pub struct CookieSpec {
    pub name: String,
    pub value: String,
    pub domain: Option<String>,
    pub path: String,
    pub same_site_lax: bool,
    pub secure: Option<bool>,
    pub http_only: Option<bool>,
    pub lifetime: CookieLifetime,
}

/// A host-only cookie: secure, for the whole site, no domain, same-site lax.
pub open spec fn host_only(c: CookieSpec) -> bool {
    &&& c.domain is None
    &&& c.path@ == "/"@
    &&& c.secure == Some(true)
    &&& c.same_site_lax
}

pub open spec fn host_cookie_spec(
    c: CookieSpec,
    name: Seq<char>,
    value: Seq<char>,
    http_only: bool,
    lifetime: CookieLifetime,
) -> bool {
    &&& host_only(c)
    &&& c.name@ == name
    &&& c.value@ == value
    &&& c.http_only == Some(http_only)
    &&& c.lifetime == lifetime
}

fn text(s: &str) -> (r: String)
    ensures
        r@ == s@,
{
    string_of(&chars_of(s))
}

fn host_cookie(name: &str, value: String, http_only: bool, lifetime: CookieLifetime) -> (c: CookieSpec)
    ensures
        host_cookie_spec(c, name@, value@, http_only, lifetime),
{
    CookieSpec {
        name: text(name),
        value,
        domain: None,
        path: text("/"),
        same_site_lax: true,
        secure: Some(true),
        http_only: Some(http_only),
        lifetime,
    }
}

/// The CSRF token, readable by scripts, for a session.
pub fn csrf_cookie(value: &str) -> (c: CookieSpec)
    ensures
        host_cookie_spec(c, CSRF_COOKIE@, value@, false, CookieLifetime::Session),
{
    host_cookie(CSRF_COOKIE, text(value), false, CookieLifetime::Session)
}

pub fn clear_csrf_cookie() -> (c: CookieSpec)
    ensures
        host_cookie_spec(c, CSRF_COOKIE@, Seq::empty(), false, CookieLifetime::Clear),
{
    host_cookie(CSRF_COOKIE, String::new(), false, CookieLifetime::Clear)
}

/// The access token, hidden from scripts, for a session.
pub fn access_token_cookie(value: &str) -> (c: CookieSpec)
    ensures
        host_cookie_spec(c, ACCESS_TOKEN_COOKIE@, value@, true, CookieLifetime::Session),
{
    host_cookie(ACCESS_TOKEN_COOKIE, text(value), true, CookieLifetime::Session)
}

/// The refresh token, hidden from scripts, for a session.
pub fn refresh_token_cookie(value: &str) -> (c: CookieSpec)
    ensures
        host_cookie_spec(c, REFRESH_TOKEN_COOKIE@, value@, true, CookieLifetime::Session),
{
    host_cookie(REFRESH_TOKEN_COOKIE, text(value), true, CookieLifetime::Session)
}

pub fn clear_access_token_cookie() -> (c: CookieSpec)
    ensures
        host_cookie_spec(c, ACCESS_TOKEN_COOKIE@, Seq::empty(), true, CookieLifetime::Clear),
{
    host_cookie(ACCESS_TOKEN_COOKIE, String::new(), true, CookieLifetime::Clear)
}

pub fn clear_refresh_token_cookie() -> (c: CookieSpec)
    ensures
        host_cookie_spec(c, REFRESH_TOKEN_COOKIE@, Seq::empty(), true, CookieLifetime::Clear),
{
    host_cookie(REFRESH_TOKEN_COOKIE, String::new(), true, CookieLifetime::Clear)
}

/// Tells scripts that a session exists.
pub fn logged_in_cookie() -> (c: CookieSpec)
    ensures
        host_cookie_spec(c, LOGGED_IN_COOKIE@, "1"@, false, CookieLifetime::Session),
{
    host_cookie(LOGGED_IN_COOKIE, text("1"), false, CookieLifetime::Session)
}

pub fn clear_logged_in_cookie() -> (c: CookieSpec)
    ensures
        host_cookie_spec(c, LOGGED_IN_COOKIE@, Seq::empty(), false, CookieLifetime::Clear),
{
    host_cookie(LOGGED_IN_COOKIE, String::new(), false, CookieLifetime::Clear)
}

/// The OAuth state of a sign-in under way, for ten minutes.
pub fn oauth_state_cookie(value: &str) -> (c: CookieSpec)
    ensures
        host_cookie_spec(c, OAUTH_STATE_COOKIE@, value@, true, CookieLifetime::Minutes(10)),
{
    host_cookie(OAUTH_STATE_COOKIE, text(value), true, CookieLifetime::Minutes(10))
}

pub fn clear_oauth_state_cookie() -> (c: CookieSpec)
    ensures
        host_cookie_spec(c, OAUTH_STATE_COOKIE@, Seq::empty(), true, CookieLifetime::Clear),
{
    host_cookie(OAUTH_STATE_COOKIE, String::new(), true, CookieLifetime::Clear)
}

/// The opener-origin cookie: scoped to `domain` (the OAuth popup and its
/// opener may be on different subdomains), readable by scripts.
pub open spec fn opener_origin_spec(c: CookieSpec, domain: Seq<char>, value: Seq<char>, lifetime: CookieLifetime) -> bool {
    &&& c.name@ == "opener_origin"@
    &&& c.value@ == value
    &&& c.domain matches Some(d) && d@ == domain
    &&& c.path@ == "/"@
    &&& c.same_site_lax
    &&& c.secure == Some(true)
    &&& c.http_only == Some(false)
    &&& c.lifetime == lifetime
}

fn opener_origin(domain: &str, value: &str, lifetime: CookieLifetime) -> (c: CookieSpec)
    ensures
        opener_origin_spec(c, domain@, value@, lifetime),
{
    CookieSpec {
        name: text("opener_origin"),
        value: text(value),
        domain: Some(text(domain)),
        path: text("/"),
        same_site_lax: true,
        secure: Some(true),
        http_only: Some(false),
        lifetime,
    }
}

pub fn opener_origin_cookie(domain: &str, value: &str) -> (c: CookieSpec)
    ensures
        opener_origin_spec(c, domain@, value@, CookieLifetime::Minutes(10)),
{
    opener_origin(domain, value, CookieLifetime::Minutes(10))
}

pub fn clear_opener_origin_cookie(domain: &str) -> (c: CookieSpec)
    ensures
        opener_origin_spec(c, domain@, Seq::empty(), CookieLifetime::Clear),
{
    proof {
        reveal_strlit("");
        assert(""@ =~= Seq::<char>::empty());
    }
    opener_origin(domain, "", CookieLifetime::Clear)
}

/// A cookie an older server set under `/api`: same name and domain, empty,
/// cleared, with no other attribute.
pub open spec fn legacy_clear_spec(c: CookieSpec, name: Seq<char>, domain: Seq<char>) -> bool {
    &&& c.name@ == name
    &&& c.value@ == Seq::<char>::empty()
    &&& c.domain matches Some(d) && d@ == domain
    &&& c.path@ == "/api"@
    &&& !c.same_site_lax
    &&& c.secure is None
    &&& c.http_only is None
    &&& c.lifetime == CookieLifetime::Clear
}

fn clear_legacy_api_cookie(name: &str, domain: &str) -> (c: CookieSpec)
    ensures
        legacy_clear_spec(c, name@, domain@),
{
    CookieSpec {
        name: text(name),
        value: String::new(),
        domain: Some(text(domain)),
        path: text("/api"),
        same_site_lax: false,
        secure: None,
        http_only: None,
        lifetime: CookieLifetime::Clear,
    }
}

pub fn clear_legacy_access_cookie(domain: &str) -> (c: CookieSpec)
    ensures
        legacy_clear_spec(c, "access_token"@, domain@),
{
    clear_legacy_api_cookie("access_token", domain)
}

pub fn clear_legacy_refresh_cookie(domain: &str) -> (c: CookieSpec)
    ensures
        legacy_clear_spec(c, "refresh_token"@, domain@),
{
    clear_legacy_api_cookie("refresh_token", domain)
}

} // verus!
