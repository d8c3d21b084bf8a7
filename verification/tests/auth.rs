use base64::Engine;
use mcp_core::auth::{challenge, AuthDecision, TokenAuthLayer};

fn decision(token: &str, authorization: Option<&str>) -> AuthDecision {
    TokenAuthLayer::new(token.to_string())
        .layer(())
        .authorize(authorization)
}

fn forwarded(d: &AuthDecision) -> bool {
    matches!(d, AuthDecision::Forward)
}

#[test]
fn test_valid_bearer_token() {
    let d = decision(
        "test-token-not-a-real-secret",
        Some("Bearer test-token-not-a-real-secret"),
    );
    assert!(forwarded(&d));
}

#[test]
fn test_invalid_bearer_token() {
    let d = decision("test-token-not-a-real-secret", Some("Bearer wrongtoken"));
    assert!(!forwarded(&d));
}

#[test]
fn test_valid_basic_auth() {
    let credentials =
        base64::engine::general_purpose::STANDARD.encode("user:test-token-not-a-real-secret");
    let header = format!("Basic {}", credentials);
    let d = decision("test-token-not-a-real-secret", Some(header.as_str()));
    assert!(forwarded(&d));
}

#[test]
fn test_invalid_basic_auth() {
    let credentials = base64::engine::general_purpose::STANDARD.encode("user:wrong-token");
    let header = format!("Basic {}", credentials);
    let d = decision("test-token-not-a-real-secret", Some(header.as_str()));
    assert!(!forwarded(&d));
}

#[test]
fn test_no_auth_header() {
    let d = decision("test-token-not-a-real-secret", None);
    assert!(!forwarded(&d));
}

#[test]
fn test_custom_realm() {
    let service = TokenAuthLayer::with_realm("secret".to_string(), "my-custom-realm".to_string())
        .layer(());
    match service.authorize(None) {
        AuthDecision::Forward => panic!("a request without credentials is refused"),
        AuthDecision::Reject { challenge } => {
            assert!(challenge.contains("my-custom-realm"));
        }
    }
}

#[test]
fn challenge_names_both_schemes_and_the_realm() {
    assert_eq!(challenge("mcp-core"), "Bearer, Basic realm=\"mcp-core\"");
}

#[test]
fn default_realm_is_mcp_core() {
    match decision("t", Some("Basic !!!")) {
        AuthDecision::Forward => panic!("undecodable credentials are refused"),
        AuthDecision::Reject { challenge } => {
            assert_eq!(challenge, "Bearer, Basic realm=\"mcp-core\"");
        }
    }
}

#[test]
fn basic_password_may_contain_colons_and_user_is_ignored() {
    let creds = base64::engine::general_purpose::STANDARD.encode("anyone:a:b");
    let header = format!("Basic {creds}");
    assert!(forwarded(&decision("a:b", Some(header.as_str()))));
    let no_colon = base64::engine::general_purpose::STANDARD.encode("justtoken");
    let header = format!("Basic {no_colon}");
    assert!(!forwarded(&decision("justtoken", Some(header.as_str()))));
}

#[test]
fn unknown_scheme_and_case_sensitive_prefix_are_refused() {
    assert!(!forwarded(&decision("secret", Some("Token secret"))));
    assert!(!forwarded(&decision("secret", Some("bearer secret"))));
    assert!(!forwarded(&decision("secret", Some("Bearer  secret"))));
    assert!(!forwarded(&decision("secret", Some("secret"))));
}

#[test]
fn authorization_accepted_matches_layer() {
    assert!(mcp_core::auth::authorization_accepted(Some("Bearer x"), "x"));
    assert!(!mcp_core::auth::authorization_accepted(Some("Bearer x"), "y"));
    assert!(!mcp_core::auth::authorization_accepted(None, "x"));
}
