use futures_channel::mpsc::unbounded;
use tungstenite::protocol::Message;
use wsaas::http_client::LocalHttpClient;
use wsaas::session::{message_pages, Phase};
use wsaas::ws_engine::WebsocketEngine;

fn engine(max_page: usize) -> WebsocketEngine {
    let client = LocalHttpClient::new("http://t".to_string(), "http://l".to_string());
    WebsocketEngine::new("8080".to_string(), 30000, max_page, client)
}

#[test]
fn message_pages_values() {
    assert_eq!(message_pages(0), 1);
    assert_eq!(message_pages(32767), 1);
    assert_eq!(message_pages(32768), 2);
    assert_eq!(message_pages(131071), 4);
    assert_eq!(message_pages(131072), 5);
    assert_eq!(message_pages(usize::MAX), usize::MAX / (1024 * 32) + 1);
}

#[test]
fn send_to_unknown_connection_is_not_found() {
    let mut e = engine(4);
    assert_eq!(e.send_msg(&"nobody".to_string(), vec![1, 2, 3]), "NOT_FOUND");
}

#[test]
fn send_too_long_is_refused_even_when_registered() {
    let mut e = engine(4);
    let (tx, mut rx) = unbounded();
    e.register("a".to_string(), tx);
    assert_eq!(e.send_msg(&"a".to_string(), vec![0u8; 4 * 32768]), "MESSAGE_TOO_LONG");
    assert_eq!(e.send_msg(&"b".to_string(), vec![0u8; 4 * 32768]), "MESSAGE_TOO_LONG");
    assert!(rx.try_next().is_err());
}

#[test]
fn send_to_registered_connection_queues_binary_message() {
    let mut e = engine(4);
    let (tx, mut rx) = unbounded();
    e.register("a".to_string(), tx);
    assert_eq!(e.send_msg(&"a".to_string(), b"hello".to_vec()), "OK");
    assert_eq!(e.send_msg(&"a".to_string(), vec![7u8; 4 * 32768 - 1]), "OK");
    let first = rx.try_next().unwrap().unwrap();
    assert_eq!(first, Message::Binary(b"hello".to_vec()));
    let second = rx.try_next().unwrap().unwrap();
    assert_eq!(second, Message::Binary(vec![7u8; 4 * 32768 - 1]));
}

#[test]
fn max_page_setting_bounds_pushes() {
    let mut e = engine(1);
    let (tx, _rx) = unbounded();
    e.register("a".to_string(), tx);
    assert_eq!(e.send_msg(&"a".to_string(), vec![0u8; 32767]), "OK");
    assert_eq!(e.send_msg(&"a".to_string(), vec![0u8; 32768]), "MESSAGE_TOO_LONG");
    assert_eq!(e.max_page(), 1);
}

#[test]
fn close_forgets_and_closes_connection() {
    let mut e = engine(4);
    let (tx, mut rx) = unbounded();
    e.register("a".to_string(), tx);
    assert_eq!(e.close_ws(&"a".to_string()), "OK");
    assert_eq!(rx.try_next().unwrap(), None);
    assert_eq!(e.send_msg(&"a".to_string(), vec![1]), "NOT_FOUND");
    assert_eq!(e.close_ws(&"a".to_string()), "NOT_FOUND");
}

#[test]
fn unregister_leaves_other_connections() {
    let mut e = engine(4);
    let (tx1, _rx1) = unbounded();
    let (tx2, _rx2) = unbounded();
    e.register("a".to_string(), tx1);
    e.register("b".to_string(), tx2);
    e.unregister(&"a".to_string());
    assert_eq!(e.send_msg(&"a".to_string(), vec![1]), "NOT_FOUND");
    assert_eq!(e.send_msg(&"b".to_string(), vec![1]), "OK");
}

#[test]
fn listen_address_uses_port() {
    let e = engine(4);
    assert_eq!(e.listen_address(), "127.0.0.1:8080");
    assert_eq!(e.timeout(), 30000);
}

#[test]
fn new_session_has_fresh_uuid_id() {
    let e = engine(4);
    let s1 = e.new_session();
    let s2 = e.new_session();
    let id = s1.id().clone();
    assert_eq!(id.len(), 36);
    for (i, c) in id.chars().enumerate() {
        if i == 8 || i == 13 || i == 18 || i == 23 {
            assert_eq!(c, '-');
        } else {
            assert!(c.is_ascii_digit() || ('a'..='f').contains(&c));
        }
    }
    assert_eq!(id.chars().nth(14), Some('4'));
    assert!(matches!(id.chars().nth(19), Some('8' | '9' | 'a' | 'b')));
    assert_ne!(s1.id(), s2.id());
    assert_eq!(s1.timeout(), 30000);
    assert_eq!(s1.phase(), Phase::Handshake);
}
