use web_server::cookies::{
    access_token_cookie, clear_access_token_cookie, clear_csrf_cookie, clear_legacy_access_cookie,
    clear_legacy_refresh_cookie, clear_logged_in_cookie, clear_oauth_state_cookie, clear_opener_origin_cookie,
    clear_refresh_token_cookie, csrf_cookie, logged_in_cookie, oauth_state_cookie, opener_origin_cookie,
    refresh_token_cookie, CookieLifetime, CookieSpec, ACCESS_TOKEN_COOKIE, CSRF_COOKIE, LOGGED_IN_COOKIE,
    OAUTH_STATE_COOKIE, REFRESH_TOKEN_COOKIE,
};

#[test]
fn auth_cookies_are_host_only() {
    let cookie = access_token_cookie("token");

    assert_eq!(cookie.name, ACCESS_TOKEN_COOKIE);
    assert_eq!(cookie.path, "/");
    assert_eq!(cookie.domain, None);
    assert_eq!(cookie.secure, Some(true));
    assert_eq!(cookie.http_only, Some(true));
}

fn assert_host_only(c: &CookieSpec) {
    assert!(c.name.starts_with("__Host-"));
    assert_eq!(c.path, "/");
    assert_eq!(c.domain, None);
    assert_eq!(c.secure, Some(true));
    assert!(c.same_site_lax);
}

#[test]
fn every_auth_cookie_and_its_clearing_is_host_only() {
    let all = [
        csrf_cookie("x"),
        clear_csrf_cookie(),
        access_token_cookie("a"),
        refresh_token_cookie("r"),
        clear_access_token_cookie(),
        clear_refresh_token_cookie(),
        logged_in_cookie(),
        clear_logged_in_cookie(),
        oauth_state_cookie("s"),
        clear_oauth_state_cookie(),
    ];
    for c in &all {
        assert_host_only(c);
    }
    assert_eq!(clear_refresh_token_cookie().lifetime, CookieLifetime::Clear);
    assert_eq!(clear_refresh_token_cookie().value, "");
    assert_eq!(refresh_token_cookie("r").name, REFRESH_TOKEN_COOKIE);
    assert_eq!(refresh_token_cookie("r").lifetime, CookieLifetime::Session);
}

#[test]
fn scripts_read_only_the_csrf_and_signed_in_markers() {
    assert_eq!(csrf_cookie("x").http_only, Some(false));
    assert_eq!(csrf_cookie("x").name, CSRF_COOKIE);
    assert_eq!(logged_in_cookie().http_only, Some(false));
    assert_eq!((logged_in_cookie().name.as_str(), logged_in_cookie().value.as_str()), (LOGGED_IN_COOKIE, "1"));
    assert_eq!(oauth_state_cookie("s").http_only, Some(true));
    assert_eq!(oauth_state_cookie("s").name, OAUTH_STATE_COOKIE);
    assert_eq!(oauth_state_cookie("s").lifetime, CookieLifetime::Minutes(10));
}

#[test]
fn opener_origin_cookie_is_shared_across_subdomains() {
    let c = opener_origin_cookie(".example.test", "https://app.example.test");
    assert_eq!(c.name, "opener_origin");
    assert_eq!(c.value, "https://app.example.test");
    assert_eq!(c.domain.as_deref(), Some(".example.test"));
    assert_eq!(c.http_only, Some(false));
    assert_eq!(c.lifetime, CookieLifetime::Minutes(10));
    let cleared = clear_opener_origin_cookie(".example.test");
    assert_eq!((cleared.value.as_str(), cleared.lifetime), ("", CookieLifetime::Clear));
}

#[test]
fn legacy_api_cookies_are_cleared_under_their_old_path() {
    let c = clear_legacy_access_cookie("example.test");
    assert_eq!((c.name.as_str(), c.path.as_str(), c.domain.as_deref()), ("access_token", "/api", Some("example.test")));
    assert_eq!((c.secure, c.http_only, c.same_site_lax), (None, None, false));
    assert_eq!(c.lifetime, CookieLifetime::Clear);
    assert_eq!(clear_legacy_refresh_cookie("example.test").name, "refresh_token");
}
