//! Session identifier validation and extraction priority.

use maul::proxy::headers::HeaderEntry;
use maul::json::Json;
use maul::session::{
    MAX_SESSION_ID_LEN, SESSION_HEADER, from_headers, from_headers_and_body, parse_session_id,
};

fn headers_with(value: &str) -> Vec<HeaderEntry> {
    vec![HeaderEntry {
        name: SESSION_HEADER.to_owned(),
        value: value.as_bytes().to_vec(),
    }]
}

fn json(text: &str) -> Json {
    Json::parse(text.as_bytes()).expect("test body is JSON")
}

#[test]
fn parse_session_id_rejects_empty_whitespace_control_and_oversize() {
    assert!(parse_session_id("").is_none());
    assert!(parse_session_id("   ").is_none());
    assert!(parse_session_id("session a").is_none());
    assert!(parse_session_id("session\nid").is_none());
    assert!(parse_session_id(&"a".repeat(MAX_SESSION_ID_LEN + 1)).is_none());
    assert_eq!(
        parse_session_id("  run-42:retry  ").unwrap().as_str(),
        "run-42:retry"
    );
}

#[test]
fn header_wins_over_body_fields() {
    let headers = headers_with("from-header");
    let body = json(r#"{"user": "from-user", "metadata": { "maul_session_id": "from-metadata" }}"#);
    assert_eq!(
        from_headers_and_body(&headers, &body).unwrap().as_str(),
        "from-header"
    );
}

#[test]
fn invalid_header_does_not_fall_through_to_body() {
    let headers = headers_with("not a valid id");
    let body = json(r#"{ "user": "from-user" }"#);
    assert!(from_headers_and_body(&headers, &body).is_none());
    assert!(from_headers(&headers).is_none());
}

#[test]
fn user_field_is_used_when_header_is_absent() {
    let body = json(r#"{"user": "openai-user", "metadata": { "maul_session_id": "from-metadata" }}"#);
    assert_eq!(
        from_headers_and_body(&Vec::new(), &body).unwrap().as_str(),
        "openai-user"
    );
}

#[test]
fn metadata_is_used_when_header_and_user_are_absent_or_invalid() {
    let body = json(r#"{"user": "has spaces", "metadata": { "maul_session_id": "from-metadata" }}"#);
    assert_eq!(
        from_headers_and_body(&Vec::new(), &body).unwrap().as_str(),
        "from-metadata"
    );
}

#[test]
fn missing_sources_yield_none() {
    assert!(from_headers(&Vec::new()).is_none());
    assert!(from_headers_and_body(&Vec::new(), &json(r#"{"model": "gpt-4o-mini"}"#)).is_none());
}

#[test]
fn session_ids_at_the_length_limit_are_kept() {
    let id = "b".repeat(MAX_SESSION_ID_LEN);
    assert_eq!(parse_session_id(&id).unwrap().into_string(), id);
}
