use mcp_core::transport::sse::{
    endpoint_data, generate_session_id, hex_padded_string, session_id_from, sse_routes,
    PostOutcome, SessionStore,
};

#[test]
fn session_ids_are_32_hex_chars_and_unique() {
    let a = generate_session_id();
    let b = generate_session_id();
    assert_eq!(a.len(), 32);
    assert!(a.chars().all(|c| c.is_ascii_hexdigit()));
    assert_ne!(a, b);
}

#[test]
fn session_id_formats_both_parts_as_padded_hex() {
    assert_eq!(
        session_id_from(0x1a, 0xff),
        "000000000000001a00000000000000ff"
    );
    assert_eq!(
        session_id_from(u128::from(u64::MAX), u64::MAX),
        "ffffffffffffffffffffffffffffffff"
    );
    assert_eq!(hex_padded_string(0, 0), "0");
    assert_eq!(hex_padded_string(0x123, 2), "123");
    assert_eq!(hex_padded_string(1u128 << 64, 16), "10000000000000000");
}

#[test]
fn endpoint_event_advertises_the_post_path() {
    let (sse, message) = sse_routes("");
    assert_eq!(sse, "/sse");
    assert_eq!(message, "/message");
    assert_eq!(endpoint_data(&message, "abc"), "/message?sessionId=abc");
}

#[test]
fn base_path_prefixes_routes_and_advertisement() {
    let (sse, message) = sse_routes("/mcp");
    assert_eq!(sse, "/mcp/sse");
    assert_eq!(endpoint_data(&message, "s1"), "/mcp/message?sessionId=s1");
    let (sse2, message2) = sse_routes("/mcp//");
    assert_eq!(sse2, sse);
    assert_eq!(message2, message);
}

#[test]
fn post_to_unknown_session_is_404() {
    assert_eq!(PostOutcome::of(false, false).status(), 404);
    assert_eq!(PostOutcome::of(true, true).status(), 202);
    let gone = PostOutcome::of(true, false);
    assert_eq!(gone.status(), 410);
    assert!(gone.drops_session());
    assert!(!PostOutcome::of(true, true).drops_session());
}

/// How the store answers a POST for `id` whose message is (`delivered`) or is not taken.
fn post(store: &mut SessionStore<u32>, id: &str, delivered: bool) -> u16 {
    let known = store.channel(id).is_some();
    let outcome = PostOutcome::of(known, delivered);
    store.settle(id, outcome);
    outcome.status()
}

#[test]
fn client_disconnect_cleans_up_the_session() {
    let mut store: SessionStore<u32> = SessionStore::new();
    let id = generate_session_id();
    store.register(id.clone(), 7);
    assert_eq!(store.channel(&id), Some(&7));
    assert_eq!(post(&mut store, &id, true), 202);
    // The stream is dropped: the session leaves the store and its POSTs are 404.
    store.unregister(&id);
    assert_eq!(store.channel(&id), None);
    assert_eq!(post(&mut store, &id, true), 404);
}

#[test]
fn transport_close_cleans_up_the_session() {
    let mut store: SessionStore<u32> = SessionStore::new();
    let id = generate_session_id();
    store.register(id.clone(), 1);
    assert_eq!(post(&mut store, &id, true), 202);
    // Closing the transport unregisters the session.
    store.unregister(&id);
    assert_eq!(post(&mut store, &id, true), 404);
}

#[test]
fn gone_transport_drops_only_its_session() {
    let mut store: SessionStore<u32> = SessionStore::new();
    store.register("a".to_string(), 1);
    store.register("b".to_string(), 2);
    // A POST that finds the transport gone drops that session only.
    assert_eq!(post(&mut store, "a", false), 410);
    assert_eq!(store.channel("a"), None);
    assert_eq!(store.channel("b"), Some(&2));
    assert_eq!(post(&mut store, "a", true), 404);
    store.unregister("missing");
    assert_eq!(store.channel("b"), Some(&2));
}
