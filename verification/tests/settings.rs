use wsaas::settings::{resolve_settings, SettingsError};

#[test]
fn defaults_apply_when_unset() {
    let s = resolve_settings(None, None, None, None, None, None).ok().unwrap();
    assert_eq!(s.ws_timeout, 30000);
    assert_eq!(s.max_page, 4);
    assert_eq!(s.ws_port, "8080");
    assert_eq!(s.http_port, "8081");
    assert_eq!(s.local_address, "http://localhost:8081");
    assert_eq!(s.target_address, "http://localhost:3000/websocket");
}

#[test]
fn given_values_win() {
    let s = resolve_settings(
        Some("100".to_string()),
        Some("8".to_string()),
        Some("9000".to_string()),
        Some("9001".to_string()),
        Some("http://me".to_string()),
        Some("http://you/ws".to_string()),
    )
    .ok()
    .unwrap();
    assert_eq!(s.ws_timeout, 100);
    assert_eq!(s.max_page, 8);
    assert_eq!(s.ws_port, "9000");
    assert_eq!(s.http_port, "9001");
    assert_eq!(s.local_address, "http://me");
    assert_eq!(s.target_address, "http://you/ws");
}

#[test]
fn bad_timeout_is_reported_first() {
    let r = resolve_settings(Some("70000".to_string()), Some("x".to_string()), None, None, None, None);
    assert_eq!(r.err(), Some(SettingsError::BadTimeout));
}

#[test]
fn bad_max_page_is_reported() {
    let r = resolve_settings(None, Some("-1".to_string()), None, None, None, None);
    assert_eq!(r.err(), Some(SettingsError::BadMaxPage));
}
