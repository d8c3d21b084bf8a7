use axum::http::{header, HeaderMap, HeaderValue};
use axum::response::IntoResponse;
use base64::Engine;
use mcp_core::web::session::{
    header_authorized, is_navigation, sign_out, AccessDecision, LoginOutcome, WebAuth,
};

/// Request headers made of (name, value) pairs.
fn headers_of(pairs: &[(&'static str, &str)]) -> HeaderMap {
    let mut headers = HeaderMap::new();
    for (name, value) in pairs {
        headers.append(*name, HeaderValue::from_str(value).unwrap());
    }
    headers
}

/// The access decision for a request with these headers, reading them as the middleware does.
fn decide(auth: &WebAuth, headers: &HeaderMap) -> AccessDecision {
    let text = |name: header::HeaderName| headers.get(name).and_then(|v| v.to_str().ok());
    auth.check_request(
        headers,
        text(header::AUTHORIZATION),
        headers.get("sec-fetch-mode").and_then(|v| v.to_str().ok()),
        text(header::ACCEPT),
    )
}

/// The `Set-Cookie` header of a signed-in (or signed-out) jar's response.
fn set_cookie_of(jar: axum_extra::extract::cookie::SignedCookieJar) -> String {
    let res = jar.into_response();
    res.headers()[header::SET_COOKIE].to_str().unwrap().to_string()
}

/// Signs in with `presented` on an empty request and returns the session cookie's
/// `NAME=value` pair, for replaying in a `Cookie` header.
fn session_cookie_pair(auth: &WebAuth, presented: &str) -> String {
    let (outcome, jar) = auth.sign_in(auth.request_jar(&HeaderMap::new()), presented);
    assert_eq!(outcome, LoginOutcome::SignedIn);
    let set_cookie = set_cookie_of(jar);
    assert!(set_cookie.starts_with("mcp_session"), "cookie: {set_cookie}");
    set_cookie.split(';').next().unwrap().to_string()
}

#[test]
fn no_token_leaves_everything_open() {
    let auth = WebAuth::new(None);
    assert!(!auth.auth_required());
    assert_eq!(auth.check_access(false, None, None, None), AccessDecision::Allow);
}

#[test]
fn api_call_without_credentials_is_401() {
    let auth = WebAuth::new(Some("sekret"));
    assert_eq!(auth.check_access(false, None, None, None), AccessDecision::Unauthorized);
}

#[test]
fn navigation_without_credentials_redirects_to_login() {
    let auth = WebAuth::new(Some("sekret"));
    assert_eq!(
        auth.check_access(false, None, Some("navigate"), None),
        AccessDecision::RedirectToLogin
    );
    assert_eq!(
        auth.check_access(false, None, None, Some("text/html,application/xhtml+xml")),
        AccessDecision::RedirectToLogin
    );
}

#[test]
fn fetch_metadata_beats_the_accept_heuristic() {
    let auth = WebAuth::new(Some("sekret"));
    assert_eq!(
        auth.check_access(false, None, Some("cors"), Some("text/html")),
        AccessDecision::Unauthorized
    );
}

#[test]
fn bearer_and_basic_headers_authorize() {
    let auth = WebAuth::new(Some("sekret"));
    assert_eq!(
        auth.check_access(false, Some("Bearer sekret"), None, None),
        AccessDecision::Allow
    );
    let creds = base64::engine::general_purpose::STANDARD.encode("anyuser:sekret");
    let basic = format!("Basic {creds}");
    assert_eq!(
        auth.check_access(false, Some(basic.as_str()), None, None),
        AccessDecision::Allow
    );
    assert_eq!(
        auth.check_access(false, Some("Bearer wrong"), None, None),
        AccessDecision::Unauthorized
    );
}

#[test]
fn login_sets_a_hardened_cookie_that_authorizes() {
    let auth = WebAuth::new(Some("sekret"));
    let (outcome, jar) = auth.sign_in(auth.request_jar(&HeaderMap::new()), "sekret");
    assert_eq!(outcome, LoginOutcome::SignedIn);
    let set_cookie = set_cookie_of(jar);
    for attribute in ["HttpOnly", "Secure", "SameSite=Strict", "Path=/"] {
        assert!(set_cookie.contains(attribute), "cookie: {set_cookie}");
    }
    let cookie = session_cookie_pair(&auth, "sekret");
    let headers = headers_of(&[("cookie", cookie.as_str())]);
    assert_eq!(decide(&auth, &headers), AccessDecision::Allow);
}

#[test]
fn login_with_wrong_token_is_401() {
    let auth = WebAuth::new(Some("sekret"));
    assert_eq!(auth.login("wrong"), LoginOutcome::Rejected);
    let (outcome, jar) = auth.sign_in(auth.request_jar(&HeaderMap::new()), "wrong");
    assert_eq!(outcome, LoginOutcome::Rejected);
    assert!(jar.into_response().headers().get(header::SET_COOKIE).is_none());
}

#[test]
fn forged_cookie_is_rejected() {
    // A cookie not signed with this process's key does not authorize.
    let auth = WebAuth::new(Some("sekret"));
    let headers = headers_of(&[("cookie", "mcp_session=ok"), ("sec-fetch-mode", "cors")]);
    assert_eq!(decide(&auth, &headers), AccessDecision::Unauthorized);
}

#[test]
fn logout_expires_the_cookie_and_redirects_home() {
    let auth = WebAuth::new(Some("sekret"));
    // The removal Set-Cookie is only emitted for a cookie the request carried, so sign in
    // first and send the session cookie with the logout.
    let cookie = session_cookie_pair(&auth, "sekret");
    let headers = headers_of(&[("cookie", cookie.as_str())]);
    let set_cookie = set_cookie_of(sign_out(auth.request_jar(&headers)));
    assert!(set_cookie.starts_with("mcp_session"), "cookie: {set_cookie}");
    assert!(set_cookie.contains("Max-Age=0"), "cookie: {set_cookie}");
}

#[test]
fn session_cookie_from_another_process_is_rejected() {
    // A restart draws a new key, which invalidates the sessions signed with the old one.
    let before = WebAuth::new(Some("sekret"));
    let after = WebAuth::new(Some("sekret"));
    let cookie = session_cookie_pair(&before, "sekret");
    let headers = headers_of(&[("cookie", cookie.as_str())]);
    assert_eq!(decide(&before, &headers), AccessDecision::Allow);
    assert_eq!(decide(&after, &headers), AccessDecision::Unauthorized);
}

#[test]
fn signed_out_jar_holds_no_session() {
    let auth = WebAuth::new(Some("sekret"));
    let cookie = session_cookie_pair(&auth, "sekret");
    let headers = headers_of(&[("cookie", cookie.as_str())]);
    let jar = sign_out(auth.request_jar(&headers));
    assert!(jar.get("mcp_session").is_none());
    assert!(auth.request_jar(&headers).get("mcp_session").is_some());
}

#[test]
fn login_without_token_opens_the_ui() {
    let auth = WebAuth::new(None);
    assert_eq!(auth.login("anything"), LoginOutcome::Open);
}

#[test]
fn header_checks() {
    assert!(header_authorized(Some("Bearer t"), "t"));
    assert!(!header_authorized(Some("Bearer t"), "u"));
    assert!(!header_authorized(None, "t"));
    let bad_utf8 = base64::engine::general_purpose::STANDARD.encode([0xffu8, b':', b't']);
    let header = format!("Basic {bad_utf8}");
    assert!(!header_authorized(Some(header.as_str()), "t"));
    assert!(!header_authorized(Some("Basic not base64!"), "t"));
}

#[test]
fn navigation_detection() {
    assert!(is_navigation(Some("navigate"), None));
    assert!(!is_navigation(Some("no-cors"), Some("text/html")));
    assert!(is_navigation(None, Some("application/json, text/html;q=0.9")));
    assert!(!is_navigation(None, Some("application/json")));
    assert!(!is_navigation(None, None));
}

#[test]
fn token_gates_ui_and_mcp_but_not_health() {
    let auth = WebAuth::new(Some("secret"));
    assert_eq!(auth.check_access(false, None, None, None), AccessDecision::Unauthorized);
    assert_eq!(
        auth.check_access(false, Some("Bearer secret"), None, None),
        AccessDecision::Allow
    );
}

#[test]
fn no_token_leaves_ui_open() {
    let auth = WebAuth::new(None);
    assert_eq!(auth.check_access(false, None, None, None), AccessDecision::Allow);
}

#[test]
fn login_sets_session_cookie_that_authenticates_ui() {
    let auth = WebAuth::new(Some("secret"));
    assert_eq!(auth.check_access(false, None, None, None), AccessDecision::Unauthorized);
    assert_eq!(auth.login("wrong"), LoginOutcome::Rejected);
    assert_eq!(auth.login("secret"), LoginOutcome::SignedIn);
    let cookie = session_cookie_pair(&auth, "secret");
    assert!(cookie.starts_with("mcp_session="));
    let headers = headers_of(&[("cookie", cookie.as_str())]);
    assert_eq!(decide(&auth, &headers), AccessDecision::Allow);
}

#[test]
fn session_cookie_is_hardened() {
    let c = mcp_core::web::session::session_cookie();
    assert_eq!(c.name, "mcp_session");
    assert_eq!(c.value, "ok");
    assert!(c.http_only && c.secure);
    assert_eq!(c.same_site, mcp_core::web::session::CookieSameSite::Strict);
    assert_eq!(c.path, "/");
}

#[test]
fn logout_without_a_session_sends_no_removal() {
    // Only a cookie the request carried is expired.
    let auth = WebAuth::new(Some("sekret"));
    let res = sign_out(auth.request_jar(&HeaderMap::new())).into_response();
    assert!(res.headers().get(header::SET_COOKIE).is_none());
}

#[test]
fn logout_expires_the_cookie_at_the_root_path() {
    let auth = WebAuth::new(Some("sekret"));
    let cookie = session_cookie_pair(&auth, "sekret");
    let headers = headers_of(&[("cookie", cookie.as_str())]);
    let set_cookie = set_cookie_of(sign_out(auth.request_jar(&headers)));
    assert!(set_cookie.starts_with("mcp_session=;"), "cookie: {set_cookie}");
    assert!(set_cookie.contains("Path=/"), "cookie: {set_cookie}");
    assert!(!set_cookie.contains("HttpOnly"), "cookie: {set_cookie}");
}

#[test]
fn request_without_cookies_has_no_session() {
    let auth = WebAuth::new(Some("sekret"));
    let jar = auth.request_jar(&HeaderMap::new());
    assert!(jar.get("mcp_session").is_none());
    assert_eq!(decide(&auth, &HeaderMap::new()), AccessDecision::Unauthorized);
}

#[test]
fn login_cookie_carries_the_signed_value() {
    // The cookie sent back is the session cookie's signed value, not the bare `ok`.
    let auth = WebAuth::new(Some("sekret"));
    let pair = session_cookie_pair(&auth, "sekret");
    assert!(pair.starts_with("mcp_session="));
    assert_ne!(pair, "mcp_session=ok");
    assert!(pair.ends_with("ok"));
}
