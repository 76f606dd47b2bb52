use futures_channel::mpsc::unbounded;
use wsaas::http_client::{HttpMethod, LocalHttpClient};
use wsaas::http_server::{get_id, response_body, HttpServer};
use wsaas::ws_engine::WebsocketEngine;

fn server() -> HttpServer {
    let client = LocalHttpClient::new("http://t".to_string(), "http://l".to_string());
    let engine = WebsocketEngine::new("8080".to_string(), 30000, 4, client);
    HttpServer::new("8081".to_string(), engine)
}

#[test]
fn get_id_drops_first_character() {
    assert_eq!(get_id(&"/abc".to_string()), "abc");
    assert_eq!(get_id(&"/".to_string()), "");
    assert_eq!(get_id(&"xyz".to_string()), "yz");
    assert_eq!(get_id(&"/é-1".to_string()), "é-1");
}

#[test]
fn response_body_carries_code() {
    assert_eq!(response_body(&"OK".to_string()), "{\"code\": \"OK\"}");
    assert_eq!(
        response_body(&"BAD_REQUEST".to_string()),
        format!("{{\"code\": \"{}\"}}", "BAD_REQUEST")
    );
}

#[test]
fn server_port_is_parsed() {
    let s = server();
    assert_eq!(s.port(), 8081);
    assert_eq!(s.ws_engine().max_page(), 4);
}

#[test]
fn put_pushes_and_delete_closes() {
    let mut s = server();
    let (tx, mut rx) = unbounded();
    s.register_connection("abc".to_string(), tx);
    let uri = "/abc".to_string();
    assert_eq!(s.handle_request(HttpMethod::Put, &uri, b"hi".to_vec()), "{\"code\": \"OK\"}");
    assert!(rx.try_next().unwrap().is_some());
    assert_eq!(s.handle_request(HttpMethod::Delete, &uri, Vec::new()), "{\"code\": \"OK\"}");
    assert_eq!(s.handle_request(HttpMethod::Put, &uri, b"hi".to_vec()), "{\"code\": \"NOT_FOUND\"}");
    assert_eq!(s.handle_request(HttpMethod::Delete, &uri, Vec::new()), "{\"code\": \"NOT_FOUND\"}");
}

#[test]
fn put_too_long_and_other_methods() {
    let mut s = server();
    let uri = "/abc".to_string();
    assert_eq!(
        s.handle_request(HttpMethod::Put, &uri, vec![0u8; 4 * 32768]),
        "{\"code\": \"MESSAGE_TOO_LONG\"}"
    );
    for m in [HttpMethod::Get, HttpMethod::Post, HttpMethod::Other] {
        assert_eq!(s.handle_request(m, &uri, Vec::new()), "{\"code\": \"BAD_REQUEST\"}");
    }
}

#[test]
fn unregister_connection_forgets_it() {
    let mut s = server();
    let (tx, _rx) = unbounded();
    s.register_connection("abc".to_string(), tx);
    s.unregister_connection(&"abc".to_string());
    assert_eq!(
        s.handle_request(HttpMethod::Put, &"/abc".to_string(), vec![1]),
        "{\"code\": \"NOT_FOUND\"}"
    );
}

#[test]
fn path_from_announced_uri_names_the_connection() {
    let client = LocalHttpClient::new("http://t".to_string(), "http://l".to_string());
    let id = "0b8e2c3a-1f2d-4c5e-9a7b-123456789abc".to_string();
    let announced = client.ws_uri(&id);
    let path = announced.strip_prefix("http://l").unwrap().to_string();
    assert_eq!(path, format!("/{}", id));
    assert_eq!(get_id(&path), id);
}
