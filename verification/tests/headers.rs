//! Tests for hop-by-hop header filtering (public API).

use maul::proxy::headers::HeaderEntry;
use maul::proxy::{
    HOP_BY_HOP, hop_by_hop_filter, prepare_response_headers, prepare_upstream_request_headers,
    strip_content_length,
};

fn map_with(pairs: &[(&str, &str)]) -> Vec<HeaderEntry> {
    pairs
        .iter()
        .map(|(name, value)| HeaderEntry {
            name: name.to_string(),
            value: value.as_bytes().to_vec(),
        })
        .collect()
}

fn get<'a>(headers: &'a [HeaderEntry], name: &str) -> Option<&'a str> {
    headers
        .iter()
        .find(|entry| entry.name == name)
        .map(|entry| std::str::from_utf8(&entry.value).expect("ascii value"))
}

fn contains_key(headers: &[HeaderEntry], name: &str) -> bool {
    get(headers, name).is_some()
}

#[test]
fn keeps_end_to_end_headers() {
    let input = map_with(&[
        ("authorization", "Bearer sk-test"),
        ("content-type", "application/json"),
        ("openai-organization", "org-x"),
    ]);

    let out = hop_by_hop_filter(&input);

    assert_eq!(get(&out, "authorization").unwrap(), "Bearer sk-test");
    assert_eq!(get(&out, "content-type").unwrap(), "application/json");
    assert_eq!(get(&out, "openai-organization").unwrap(), "org-x");
}

#[test]
fn drops_every_hop_by_hop_header() {
    for name in HOP_BY_HOP {
        let input = map_with(&[(name, "value")]);
        let out = hop_by_hop_filter(&input);
        assert!(
            get(&out, name).is_none(),
            "expected hop-by-hop header `{name}` to be stripped"
        );
    }
}

#[test]
fn filters_mixed_map_keeping_only_forwardable() {
    let input = map_with(&[
        ("authorization", "Bearer sk-test"),
        ("host", "localhost:7777"),
        ("connection", "close"),
        ("transfer-encoding", "chunked"),
        ("content-type", "application/json"),
        ("keep-alive", "timeout=5"),
    ]);

    let out = hop_by_hop_filter(&input);

    assert_eq!(out.len(), 2);
    assert!(contains_key(&out, "authorization"));
    assert!(contains_key(&out, "content-type"));
    assert!(!contains_key(&out, "host"));
    assert!(!contains_key(&out, "connection"));
    assert!(!contains_key(&out, "transfer-encoding"));
    assert!(!contains_key(&out, "keep-alive"));
}

#[test]
fn empty_input_yields_empty_output() {
    assert!(hop_by_hop_filter(&Vec::new()).is_empty());
}

#[test]
fn strip_content_length_removes_only_that_header() {
    let input = map_with(&[
        ("content-type", "application/json"),
        ("content-length", "42"),
        ("authorization", "Bearer sk-test"),
    ]);

    let out = strip_content_length(input);
    assert!(get(&out, "content-length").is_none());
    assert_eq!(get(&out, "content-type").unwrap(), "application/json");
    assert_eq!(get(&out, "authorization").unwrap(), "Bearer sk-test");
}

#[test]
fn strip_content_length_is_noop_when_absent() {
    let input = map_with(&[("content-type", "application/json")]);
    let out = strip_content_length(input);
    assert_eq!(get(&out, "content-type").unwrap(), "application/json");
}

#[test]
fn prepare_upstream_forces_accept_encoding_identity() {
    let input = map_with(&[
        ("authorization", "Bearer sk-test"),
        ("accept-encoding", "gzip, deflate, br"),
        ("content-length", "12"),
        ("host", "localhost:7777"),
    ]);

    let out = prepare_upstream_request_headers(&input);
    assert_eq!(get(&out, "accept-encoding").unwrap(), "identity");
    assert!(get(&out, "content-length").is_none());
    assert!(!contains_key(&out, "host"));
    assert_eq!(get(&out, "authorization").unwrap(), "Bearer sk-test");
}

#[test]
fn prepare_response_strips_content_encoding() {
    let input = map_with(&[
        ("content-type", "application/json"),
        ("content-encoding", "gzip"),
        ("content-length", "99"),
        ("transfer-encoding", "chunked"),
    ]);

    let out = prepare_response_headers(&input);
    assert!(get(&out, "content-encoding").is_none());
    assert!(get(&out, "content-length").is_none());
    assert!(!contains_key(&out, "transfer-encoding"));
    assert_eq!(get(&out, "content-type").unwrap(), "application/json");
}

#[test]
fn prepare_upstream_drops_the_session_header() {
    let input = map_with(&[
        ("x-maul-session-id", "run-1"),
        ("authorization", "Bearer sk-test"),
    ]);
    let out = prepare_upstream_request_headers(&input);
    assert!(!contains_key(&out, "x-maul-session-id"));
    assert_eq!(out.len(), 2);
}

#[test]
fn repeated_names_keep_every_value() {
    let input = map_with(&[("x-a", "1"), ("x-b", "2"), ("x-a", "3")]);
    let out = hop_by_hop_filter(&input);
    assert_eq!(out.len(), 3);
    assert_eq!(get(&out, "x-a").unwrap(), "1");
    assert_eq!(std::str::from_utf8(&out[2].value).unwrap(), "3");
}

#[test]
fn keeps_every_value_of_a_repeated_header_in_order() {
    let input = map_with(&[
        ("x-a", "1"),
        ("connection", "close"),
        ("x-a", "2"),
        ("set-cookie", "s=1"),
    ]);

    let out = hop_by_hop_filter(&input);

    let seen: Vec<(&str, &[u8])> = out
        .iter()
        .map(|entry| (entry.name.as_str(), entry.value.as_slice()))
        .collect();
    assert_eq!(
        seen,
        vec![("x-a", &b"1"[..]), ("x-a", &b"2"[..]), ("set-cookie", &b"s=1"[..])]
    );
}
