use wsaas::websocket_engine::WebsocketEngine;

#[test]
fn draft_engine_starts_empty() {
    let e = WebsocketEngine::new();
    assert_eq!(e.accept_candidate(0), None);
    assert_eq!(e.accept_candidate(u32::MAX), None);
}

#[test]
fn draft_engine_accepts_taken_ids() {
    let mut e = WebsocketEngine::new();
    e.new_connection(42);
    assert_eq!(e.accept_candidate(42), Some(42));
    assert_eq!(e.accept_candidate(43), None);
    e.new_connection(42);
    assert_eq!(e.accept_candidate(42), Some(42));
}

#[test]
fn draft_engine_address() {
    assert_eq!(WebsocketEngine::bind_address(), "127.0.0.1:8080");
}
