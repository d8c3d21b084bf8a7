use mcp_core::web::landing::{escape, origin, Landing};

fn page(landing: Landing, host: Option<&str>, proto: Option<&str>) -> String {
    landing.render(host, proto, "")
}

#[test]
fn origin_reflects_host_and_forwarded_proto() {
    let html = page(
        Landing::new("demo").mcp(true).sse(true),
        Some("mcp.example.org"),
        Some("https"),
    );
    assert!(html.contains("https://mcp.example.org/mcp"));
    assert!(html.contains("https://mcp.example.org/sse"));
}

#[test]
fn crafted_host_header_is_escaped() {
    let html = page(
        Landing::new("demo").mcp(true),
        Some("evil\"><script>alert(1)</script>"),
        None,
    );
    assert!(!html.contains("<script>alert(1)</script>"), "html: {html}");
    assert!(html.contains("&lt;script&gt;alert(1)&lt;/script&gt;"));
}

#[test]
fn crafted_forwarded_proto_is_escaped() {
    let html = page(
        Landing::new("demo").sse(true),
        None,
        Some("<img src=x onerror=alert(1)>"),
    );
    assert!(!html.contains("<img"), "html: {html}");
}

#[test]
fn server_name_is_escaped() {
    let html = page(Landing::new("a<b> & \"c\"").mcp(true), None, None);
    assert!(!html.contains("a<b>"));
    assert!(html.contains("a&lt;b&gt; &amp; &quot;c&quot;"));
}

#[test]
fn landing_is_public_and_lists_mcp() {
    let html = page(
        Landing::new("test").mcp(true).requiring_auth(true),
        None,
        None,
    );
    assert!(html.contains("/mcp"));
    assert!(html.contains("--header \"Authorization: Bearer $AUTH_TOKEN\""));
    assert!(html.contains("action=\"/login\""));
}

#[test]
fn escape_maps_each_special_character() {
    assert_eq!(escape("&<>\""), "&amp;&lt;&gt;&quot;");
    assert_eq!(escape("plain text ü"), "plain text ü");
    assert_eq!(escape(""), "");
}

#[test]
fn origin_defaults() {
    assert_eq!(origin(None, None), "http://localhost");
    assert_eq!(origin(Some("h:8080"), None), "http://h:8080");
}

#[test]
fn no_transport_and_open_ui() {
    let html = page(Landing::new("x"), None, None);
    assert!(html.contains("No MCP transport is enabled on this server."));
    assert!(html.contains("href=\"/ui/\""));
    assert!(!html.contains("/mcp</code>"));
    assert!(html.starts_with("<!doctype html><html lang=\"en\">"));
    assert!(html.ends_with("</body></html>"));
}

#[test]
fn landing_builders() {
    let l = Landing::new("n").mcp(true).sse(false);
    assert_eq!(l.name, "n");
    assert!(l.mcp && !l.sse && !l.auth_required);
}

#[test]
fn mcp_endpoint_comes_with_the_add_command() {
    let html = page(Landing::new("demo").mcp(true), Some("example.org"), Some("https"));
    assert!(
        html.contains("<pre>mcp add --transport http demo https://example.org/mcp</pre>"),
        "page was: {html}"
    );
}
