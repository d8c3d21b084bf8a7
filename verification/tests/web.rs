use base64::Engine;
use mcp_core::auth::AuthDecision;
use axum::http::{HeaderMap, HeaderValue};
use mcp_core::web::{
    content_security_policy, is_false, protection, security_headers, set_security_headers,
};

fn status_of(auth_token: Option<&str>, authorization: Option<&str>) -> u16 {
    match protection(auth_token, "test-realm") {
        None => 200,
        Some(layer) => match layer.layer(()).authorize(authorization) {
            AuthDecision::Forward => 200,
            AuthDecision::Reject { .. } => 401,
        },
    }
}

#[test]
fn with_layers_adds_security_headers_and_no_wildcard_cors() {
    let h = security_headers(None);
    let get = |name: &str| {
        h.iter()
            .find(|p| p.name == name)
            .map(|p| p.value.clone())
    };
    assert_eq!(get("x-content-type-options").as_deref(), Some("nosniff"));
    assert_eq!(get("x-frame-options").as_deref(), Some("DENY"));
    let csp = get("content-security-policy").unwrap();
    assert!(csp.contains("script-src 'self'"), "CSP was: {csp}");
    assert!(csp.contains("object-src 'none'"), "CSP was: {csp}");
    assert!(csp.contains("frame-ancestors 'none'"), "CSP was: {csp}");
    assert!(get("referrer-policy").is_some());
    assert!(get("permissions-policy").is_some());
    assert!(get("access-control-allow-origin").is_none());
}

#[test]
fn none_leaves_router_open() {
    assert_eq!(status_of(None, None), 200);
}

#[test]
fn some_rejects_missing_credentials() {
    assert_eq!(status_of(Some("secret"), None), 401);
}

#[test]
fn some_accepts_bearer() {
    assert_eq!(status_of(Some("secret"), Some("Bearer secret")), 200);
}

#[test]
fn some_accepts_basic_with_token_as_password() {
    let creds = base64::engine::general_purpose::STANDARD.encode("anyuser:secret");
    let header = format!("Basic {creds}");
    assert_eq!(status_of(Some("secret"), Some(header.as_str())), 200);
}

#[test]
fn csp_pins_the_import_map_hash_when_given() {
    assert_eq!(
        content_security_policy(Some("sha256-abc")),
        "script-src 'self' 'sha256-abc'; object-src 'none'; base-uri 'self'; frame-ancestors 'none'; form-action 'self'"
    );
    assert_eq!(
        content_security_policy(None),
        "script-src 'self'; object-src 'none'; base-uri 'self'; frame-ancestors 'none'; form-action 'self'"
    );
}

#[test]
fn is_false_helper() {
    assert!(is_false(&false));
    assert!(!is_false(&true));
}

#[test]
fn security_headers_replace_prior_values_and_keep_the_rest() {
    let mut headers = HeaderMap::new();
    headers.append("x-frame-options", HeaderValue::from_static("SAMEORIGIN"));
    headers.append("x-frame-options", HeaderValue::from_static("ALLOW-FROM x"));
    headers.insert("content-type", HeaderValue::from_static("text/plain"));
    set_security_headers(&mut headers, None);
    let frame: Vec<_> = headers.get_all("x-frame-options").iter().collect();
    assert_eq!(frame, vec!["DENY"]);
    assert_eq!(headers["content-type"], "text/plain");
    assert_eq!(headers["x-content-type-options"], "nosniff");
    assert_eq!(headers["referrer-policy"], "no-referrer");
    assert_eq!(
        headers["permissions-policy"],
        "camera=(), microphone=(), geolocation=(), payment=()"
    );
    assert_eq!(headers.keys_len(), 6);
}

#[test]
fn security_headers_twice_equal_once() {
    let mut once = HeaderMap::new();
    once.insert("content-type", HeaderValue::from_static("text/html"));
    set_security_headers(&mut once, Some("sha256-abc="));
    let mut twice = once.clone();
    set_security_headers(&mut twice, Some("sha256-abc="));
    assert_eq!(once, twice);
    assert_eq!(
        once["content-security-policy"],
        "script-src 'self' 'sha256-abc='; object-src 'none'; base-uri 'self'; frame-ancestors 'none'; form-action 'self'"
    );
}

#[test]
fn try_set_refuses_a_hash_that_is_not_header_text() {
    let mut headers = HeaderMap::new();
    headers.insert("content-type", HeaderValue::from_static("text/plain"));
    assert!(!mcp_core::web::try_set_security_headers(&mut headers, Some("bad\nhash")));
    assert_eq!(headers.keys_len(), 1);
    assert!(mcp_core::web::try_set_security_headers(&mut headers, None));
    assert_eq!(headers["x-frame-options"], "DENY");
    assert!(mcp_core::web::headers::header_text("sha256-abc= ok"));
    assert!(!mcp_core::web::headers::header_text("caf\u{e9}"));
}
