use maul::budget::{BudgetLimits, BudgetTracker, MicroUsd, Price};
use maul::json::Json;
use maul::openai::TokenUsage;
use maul::proxy::request_transform::include_stream_usage;
use maul::usage::{
    RequestTransformError, UsageOutcome, UsageUnavailableReason,
    json::extract_usage,
    sse::{DEFAULT_MAX_EVENT_BYTES, SseUsageParser, SseUsageTap},
};

fn json(text: &str) -> Json {
    Json::parse(text.as_bytes()).expect("test body is JSON")
}

fn same_json(a: &Json, b: &Json) -> bool {
    a.to_bytes() == b.to_bytes()
}

#[test]
fn extracts_usage_from_json_completion() {
    let body = br#"{
      "choices": [],
      "usage": {
        "prompt_tokens": 10,
        "completion_tokens": 4,
        "total_tokens": 14
      }
    }"#;

    assert_eq!(
        extract_usage(body),
        UsageOutcome::Metered(TokenUsage {
            prompt_tokens: 10,
            completion_tokens: 4,
            total_tokens: 14,
        })
    );
}

#[test]
fn rejects_missing_and_inconsistent_json_usage() {
    assert_eq!(
        extract_usage(br#"{"choices":[]}"#),
        UsageOutcome::Unavailable(UsageUnavailableReason::MissingUsage)
    );
    assert_eq!(
        extract_usage(br#"{"usage":{"prompt_tokens":10,"completion_tokens":4,"total_tokens":99}}"#),
        UsageOutcome::Unavailable(UsageUnavailableReason::MalformedUsage)
    );
}

#[test]
fn request_transform_is_noop_for_non_streaming_requests() {
    let mut body = json(r#"{"model":"gpt-4o-mini","stream":false}"#);
    assert!(!include_stream_usage(&mut body).unwrap());
    assert!(same_json(&body, &json(r#"{"model":"gpt-4o-mini","stream":false}"#)));
}

#[test]
fn request_transform_adds_usage_without_removing_options() {
    let mut body = json(
        r#"{
        "model": "gpt-4o-mini",
        "stream": true,
        "stream_options": {"include_obfuscation": true}
    }"#,
    );
    assert!(include_stream_usage(&mut body).unwrap());
    let options = body.get("stream_options").unwrap();
    assert_eq!(options.get("include_usage").unwrap().as_bool(), Some(true));
    assert_eq!(options.get("include_obfuscation").unwrap().as_bool(), Some(true));
    assert!(!include_stream_usage(&mut body).unwrap());
}

#[test]
fn request_transform_rejects_non_object_stream_options() {
    let mut body = json(r#"{"stream":true,"stream_options":[]}"#);
    assert!(include_stream_usage(&mut body).is_err());
}

#[test]
fn sse_parser_handles_arbitrary_chunk_boundaries() {
    let event = [
        "data: {\"choices\":[],\"usage\":{\"prompt_tokens\":10,",
        "\"completion_tokens\":4,\"total_tokens\":14}}\n\n",
        "data: [DONE]\n\n"
    ].concat();
    let mut parser = SseUsageParser::default();
    for chunk in event.as_bytes().chunks(3) {
        parser.push(chunk);
    }

    assert_eq!(
        parser.finish(),
        UsageOutcome::Metered(TokenUsage {
            prompt_tokens: 10,
            completion_tokens: 4,
            total_tokens: 14,
        })
    );
}

#[test]
fn sse_parser_reports_missing_usage() {
    let mut parser = SseUsageParser::default();
    parser.push(b"data: {\"choices\":[]}\n\ndata: [DONE]\n\n");
    assert_eq!(
        parser.finish(),
        UsageOutcome::Unavailable(UsageUnavailableReason::MissingUsage)
    );
}

#[test]
fn sse_parser_reports_malformed_events_and_oversized_lines() {
    let mut malformed = SseUsageParser::default();
    malformed.push(b"data: not-json\n\n");
    assert_eq!(
        malformed.finish(),
        UsageOutcome::Unavailable(UsageUnavailableReason::MalformedSse)
    );

    let mut oversized = SseUsageParser::new(DEFAULT_MAX_EVENT_BYTES);
    oversized.push(&vec![b'x'; DEFAULT_MAX_EVENT_BYTES + 1]);
    assert_eq!(
        oversized.finish(),
        UsageOutcome::Unavailable(UsageUnavailableReason::MalformedSse)
    );
}

#[test]
fn sse_parser_gives_the_same_outcome_for_every_chunk_size() {
    let event = [
        "data: {\"choices\":[{\"delta\":{\"content\":\"hi\"}}]}\r\n\r\n",
        "data: {\"choices\":[],\"usage\":{\"prompt_tokens\":3,",
        "\"completion_tokens\":2,\"total_tokens\":5}}\n\n",
        "data: [DONE]\n\n"
    ].concat();
    let mut whole = SseUsageParser::default();
    whole.push(event.as_bytes());
    let expected = whole.finish();
    assert_eq!(
        expected,
        UsageOutcome::Metered(TokenUsage {
            prompt_tokens: 3,
            completion_tokens: 2,
            total_tokens: 5,
        })
    );
    for size in 1..event.len() {
        let mut parser = SseUsageParser::default();
        for chunk in event.as_bytes().chunks(size) {
            parser.push(chunk);
        }
        assert_eq!(parser.finish(), expected, "chunk size {size}");
    }
}

#[test]
fn sse_usage_may_arrive_without_a_final_newline() {
    let mut parser = SseUsageParser::default();
    parser.push(b"data: {\"usage\":{\"prompt_tokens\":1,\"completion_tokens\":1,\"total_tokens\":2}}");
    assert_eq!(
        parser.finish(),
        UsageOutcome::Metered(TokenUsage {
            prompt_tokens: 1,
            completion_tokens: 1,
            total_tokens: 2,
        })
    );
}

fn tracker(max_cost: u64) -> BudgetTracker {
    BudgetTracker::new(BudgetLimits {
        max_llm_calls: 1,
        max_cost_usd: MicroUsd::from_micro_usd(max_cost),
    })
}

#[test]
fn sse_tap_reports_interrupted_streams() {
    let mut tap = SseUsageTap::with_price(Some(Price::new(
        MicroUsd::from_micro_usd(1),
        MicroUsd::from_micro_usd(1),
    )));
    tap.on_chunk(b"data: {\"usage\":null}\n\n");
    let settled = tap.on_interrupted();
    assert_eq!(
        settled,
        Some((
            UsageOutcome::Unavailable(UsageUnavailableReason::StreamInterrupted),
            None
        ))
    );
    let mut budget = tracker(0);
    assert_eq!(tap.on_end(&mut budget), None);
    assert_eq!(budget.snapshot().observed_cost_usd, MicroUsd::zero());
}

#[test]
fn sse_tap_drop_flushes_interrupted_completion() {
    let mut tap = SseUsageTap::new(Price::new(
        MicroUsd::from_micro_usd(1),
        MicroUsd::from_micro_usd(1),
    ));
    assert_eq!(
        tap.on_interrupted(),
        Some((
            UsageOutcome::Unavailable(UsageUnavailableReason::StreamInterrupted),
            None
        ))
    );
    assert_eq!(tap.on_interrupted(), None);
}

#[test]
fn sse_tap_charges_the_metered_stream_once() {
    let mut tap = SseUsageTap::new(Price::new(
        MicroUsd::from_micro_usd(1_000_000),
        MicroUsd::from_micro_usd(2_000_000),
    ));
    tap.on_chunk(b"data: {\"usage\":{\"prompt_tokens\":3,\"completion_tokens\":2,");
    tap.on_chunk(b"\"total_tokens\":5}}\n\ndata: [DONE]\n\n");
    let mut budget = tracker(0);
    let usage = TokenUsage {
        prompt_tokens: 3,
        completion_tokens: 2,
        total_tokens: 5,
    };
    assert_eq!(
        tap.on_end(&mut budget),
        Some((UsageOutcome::Metered(usage), Some(MicroUsd::from_micro_usd(7))))
    );
    assert_eq!(budget.snapshot().observed_cost_usd, MicroUsd::from_micro_usd(7));
    assert_eq!(tap.on_end(&mut budget), None);
    assert_eq!(tap.on_interrupted(), None);
    assert_eq!(budget.snapshot().observed_cost_usd, MicroUsd::from_micro_usd(7));
}

#[test]
fn sse_tap_without_price_reports_usage_and_charges_nothing() {
    let mut tap = SseUsageTap::with_price(None);
    tap.on_chunk(b"data: {\"usage\":{\"prompt_tokens\":1,\"completion_tokens\":1,\"total_tokens\":2}}\n\n");
    let mut budget = tracker(0);
    assert!(matches!(
        tap.on_end(&mut budget),
        Some((UsageOutcome::Metered(_), None))
    ));
    assert_eq!(budget.snapshot().observed_cost_usd, MicroUsd::zero());
}

#[test]
fn transform_errors_carry_their_messages() {
    let mut body = json("[]");
    let error = include_stream_usage(&mut body).unwrap_err();
    assert_eq!(error, RequestTransformError::NotObject);
    assert_eq!(error.message(), "request body is not a JSON object");
    assert_eq!(
        RequestTransformError::InvalidStreamOptions.message(),
        "stream_options must be a JSON object when present"
    );
}

#[test]
fn sse_stream_without_usage_is_never_metered_in_any_chunking() {
    let stream: &[u8] = b"data: {\"choices\":[{\"delta\":{\"content\":\"hi\"}}]}\n\ndata: {\"usage\":null}\n\ndata: [DONE]\n\n";
    for a in 0..stream.len() {
        for b in a..stream.len() {
            let mut parser = SseUsageParser::new(DEFAULT_MAX_EVENT_BYTES);
            parser.push(&stream[..a]);
            parser.push(&stream[a..b]);
            parser.push(&stream[b..]);
            assert_eq!(
                parser.finish(),
                UsageOutcome::Unavailable(UsageUnavailableReason::MissingUsage)
            );
        }
    }
}

#[test]
fn sse_stream_without_usage_and_a_long_line_is_never_metered() {
    let mut parser = SseUsageParser::new(16);
    parser.push(b"data: {\"choices\":[{\"delta\":");
    parser.push(b"{\"content\":\"a long line\"}}]}\n\n");
    parser.push(b"data: [DONE]\n\n");
    assert!(!matches!(parser.finish(), UsageOutcome::Metered(_)));
}
