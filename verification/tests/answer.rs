use wsaas::answer::{decode_string, read_answer_code};

fn code(body: &str) -> Option<Option<Vec<u8>>> {
    read_answer_code(&body.as_bytes().to_vec())
}

#[test]
fn answer_code_of_documented_answer() {
    assert_eq!(code("{\"code\": \"OK\"}"), Some(Some(b"OK".to_vec())));
    assert_eq!(code("{\"code\":\"NEW\"}"), Some(Some(b"NEW".to_vec())));
}

#[test]
fn answer_without_code() {
    assert_eq!(code("{}"), Some(None));
    assert_eq!(code(" { } "), Some(None));
    assert_eq!(code("{\"a\": 1}"), Some(None));
    assert_eq!(code("{\"code\": 1}"), Some(None));
    assert_eq!(code("{\"code\": [1]}"), Some(None));
    assert_eq!(code("{\"code\": {\"value\": \"OK\"}}"), Some(None));
}

#[test]
fn trailing_comma_and_nested_values_are_read() {
    assert_eq!(code("{\n    \"code\": \"OK\",\n}"), Some(Some(b"OK".to_vec())));
    assert_eq!(
        code("{\"meta\": {\"a\": [1, \"}]\", {}]}, \"code\": \"OK\", \"list\": []}"),
        Some(Some(b"OK".to_vec()))
    );
}

#[test]
fn malformed_answers() {
    for body in ["", "[]", "{", "{\"code\"}", "{\"code\": }", "{,}", "{\"a\": 1,,}", "x{}", "{} x", "{\"a\": [1}"] {
        assert_eq!(code(body), None, "{:?}", body);
    }
}

#[test]
fn escapes_are_kept_raw() {
    assert_eq!(code("{\"code\": \"O\\\"K\"}"), Some(Some(b"O\\\"K".to_vec())));
}

#[test]
fn escapes_decode() {
    assert_eq!(decode_string(&b"OK".to_vec()), Some(vec![79, 75]));
    assert_eq!(decode_string(&b"\\u004fK".to_vec()), Some(vec![79, 75]));
    assert_eq!(decode_string(&b"a\\n\\\"\\/".to_vec()), Some(vec![97, 10, 34, 47]));
    assert_eq!(decode_string(&b"\\x".to_vec()), None);
    assert_eq!(decode_string(&b"\\u12".to_vec()), None);
    assert_eq!(decode_string(&b"\\".to_vec()), None);
}
