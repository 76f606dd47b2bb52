use wsaas::http_client::{join_path_text, HttpMethod, LocalHttpClient, STATUS_OK};

fn client() -> LocalHttpClient {
    LocalHttpClient::new(
        "http://localhost:3000/websocket".to_string(),
        "http://localhost:8081".to_string(),
    )
}

fn headers(r: &wsaas::http_client::OutgoingRequest) -> Vec<(String, String)> {
    r.headers.clone()
}

#[test]
fn uris_join_base_and_id() {
    let c = client();
    let id = "abc".to_string();
    assert_eq!(c.resource_uri(&id), "http://localhost:3000/websocket/abc");
    assert_eq!(c.ws_uri(&id), "http://localhost:8081/abc");
    assert_eq!(join_path_text(&"a".to_string(), &"".to_string()), "a/");
}

#[test]
fn connect_request_is_exact() {
    let c = client();
    let r = c.connect_request(&"abc".to_string(), "Bearer t".to_string(), 30000);
    assert_eq!(r.method, HttpMethod::Post);
    assert_eq!(r.uri, "http://localhost:3000/websocket/abc");
    assert_eq!(
        headers(&r),
        vec![
            ("content-type".to_string(), "application/json".to_string()),
            ("Authorization".to_string(), "Bearer t".to_string()),
        ]
    );
    assert_eq!(
        r.body,
        "{\"code\": \"NEW_CONNECTION\",\"ws_uri\":\"http://localhost:8081/abc\",\"timeout\":30000}"
    );
}

#[test]
fn connect_request_body_matches_format() {
    let c = client();
    let id = "7".to_string();
    let r = c.connect_request(&id, "none".to_string(), 0);
    let expected = format!(
        "{{\"code\": \"NEW_CONNECTION\",\"ws_uri\":\"{}/{}\",\"timeout\":{}}}",
        "http://localhost:8081", id, 0
    );
    assert_eq!(r.body, expected);
}

fn ok_body() -> Vec<u8> {
    b"{\"code\": \"OK\"}".to_vec()
}

#[test]
fn connect_accepted_needs_200_and_code_ok() {
    assert!(LocalHttpClient::connect_accepted(STATUS_OK, &ok_body()));
    assert!(LocalHttpClient::connect_accepted(200, &b" { \"code\" : \"OK\" } \n".to_vec()));
    assert!(!LocalHttpClient::connect_accepted(201, &ok_body()));
    assert!(!LocalHttpClient::connect_accepted(403, &ok_body()));
    assert!(!LocalHttpClient::connect_accepted(500, &ok_body()));
}

#[test]
fn connect_refused_by_any_other_code() {
    for body in [
        "{\"code\": \"DENIED\"}",
        "{\"code\": \"ok\"}",
        "{\"code\": \"OK \"}",
        "{\"code\": 200}",
        "{}",
        "",
        "OK",
        "{\"status\": \"OK\"}",
        "{\"code\": \"OK\"",
        "{\"code\": \"OK\"} trailing",
        "{\"code\": \"OK\", \"code\": \"NO\"}",
        "{\"code\": {\"value\": \"OK\"}}",
        "{\"code\": \"O\\K\"}",
    ] {
        assert!(!LocalHttpClient::connect_accepted(200, &body.as_bytes().to_vec()), "{:?}", body);
    }
}

#[test]
fn connect_accepted_with_other_members() {
    let body = "{\"ws\": \"x\\\"y\", \"n\": -1.5e3, \"flag\": true, \"code\": \"OK\", \"z\": null}";
    assert!(LocalHttpClient::connect_accepted(200, &body.as_bytes().to_vec()));
    let later = "{\"code\": \"NO\", \"code\": \"OK\"}";
    assert!(LocalHttpClient::connect_accepted(200, &later.as_bytes().to_vec()));
    let readme = "{\n    \"code\": \"OK\",\n}";
    assert!(LocalHttpClient::connect_accepted(200, &readme.as_bytes().to_vec()));
    let escaped = "{\"code\": \"\\u004f\\u004B\"}";
    assert!(LocalHttpClient::connect_accepted(200, &escaped.as_bytes().to_vec()));
    let nested = "{\"meta\": {\"x\": [1, 2]}, \"code\": \"OK\"}";
    assert!(LocalHttpClient::connect_accepted(200, &nested.as_bytes().to_vec()));
}

#[test]
fn message_request_is_exact() {
    let c = client();
    let r = c.message_request(&"abc".to_string(), "{\"hello\":1}".to_string());
    assert_eq!(r.method, HttpMethod::Put);
    assert_eq!(r.uri, "http://localhost:3000/websocket/abc");
    assert_eq!(headers(&r), vec![("Content-Type".to_string(), "application/json".to_string())]);
    assert_eq!(r.body, "{\"hello\":1}");
}

#[test]
fn disconnect_request_is_exact() {
    let c = client();
    let r = c.disconnect_request(&"abc".to_string());
    assert_eq!(r.method, HttpMethod::Delete);
    assert_eq!(r.uri, "http://localhost:3000/websocket/abc");
    assert_eq!(headers(&r), vec![("Content-Type".to_string(), "application/json".to_string())]);
    assert_eq!(
        r.body,
        "{\"code\": \"CONNECTION_CLOSE\", \"ws_uri\": \"http://localhost:8081/abc\"}"
    );
}
