//! The billable pipeline's stages, run on plain values.

use maul::budget::{BudgetLimits, BudgetTracker, MicroUsd, Price};
use maul::proxy::headers::HeaderEntry;
use maul::json::Json;
use maul::openai::TokenUsage;
use maul::proxy::pipeline::{
    MAX_REQUEST_BODY_BYTES, MeterPlan, MutateAfterOutcome, apply_mutate_after, meter_buffered_body,
    meter_plan, metered_body_too_large, prepare_billable, request_too_large_message,
    take_metered_outcome, upstream_error_message, upstream_error_outcome,
};
use maul::pricing::PricingRegistry;
use maul::report::BudgetDecision;
use maul::usage::{UsageOutcome, UsageUnavailableReason};

fn tracker(max_calls: u64, max_cost: u64) -> BudgetTracker {
    BudgetTracker::new(BudgetLimits {
        max_llm_calls: max_calls,
        max_cost_usd: MicroUsd::from_micro_usd(max_cost),
    })
}

fn session_header(value: &str) -> Vec<HeaderEntry> {
    vec![HeaderEntry {
        name: "x-maul-session-id".to_owned(),
        value: value.as_bytes().to_vec(),
    }]
}

#[test]
fn call_cap_blocks_after_exactly_one_admitted_request() {
    let registry = PricingRegistry::with_overrides(&Vec::new());
    let mut budget = tracker(1, 0);
    let body = br#"{"model":"gpt-4o-mini","messages":[]}"#;
    let first = prepare_billable(&Vec::new(), Some(body), &registry, &mut budget).unwrap();
    assert_eq!(first.permit.call_number, 1);
    let second = prepare_billable(&Vec::new(), Some(body), &registry, &mut budget).unwrap_err();
    assert_eq!(second.status, 429);
    assert_eq!(second.envelope.error.code, "max_llm_calls");
    assert_eq!(second.fault_injected.as_deref(), Some("budget_exceeded"));
    assert_eq!(second.budget_decision, BudgetDecision::CallCapExceeded);
    assert_eq!(budget.snapshot().calls_reserved, 1);
}

#[test]
fn observed_cost_blocks_the_next_request() {
    let registry = PricingRegistry::with_overrides(&Vec::new());
    let mut budget = tracker(10, 100);
    let body = br#"{"model":"gpt-4o-mini"}"#;
    assert!(prepare_billable(&Vec::new(), Some(body), &registry, &mut budget).is_ok());
    budget.commit_cost(MicroUsd::from_micro_usd(100));
    let refused = prepare_billable(&Vec::new(), Some(body), &registry, &mut budget).unwrap_err();
    assert_eq!(refused.status, 429);
    assert_eq!(refused.envelope.error.code, "max_cost_usd");
    assert_eq!(refused.budget_decision, BudgetDecision::CostCapExceeded);
}

#[test]
fn unpriced_model_is_rejected_before_admission() {
    let registry = PricingRegistry::with_overrides(&Vec::new());
    let mut budget = tracker(10, 5_000_000);
    let refused = prepare_billable(
        &session_header("run-1"),
        Some(br#"{"model":"custom-gateway-model"}"#),
        &registry,
        &mut budget,
    )
    .unwrap_err();
    assert_eq!(refused.status, 422);
    assert_eq!(refused.envelope.error.code, "model_unpriced");
    assert_eq!(
        refused.envelope.error.message,
        "maul: no price configured for model `custom-gateway-model`"
    );
    assert_eq!(refused.model.as_deref(), Some("custom-gateway-model"));
    assert_eq!(refused.session_id.as_deref(), Some("run-1"));
    assert!(refused.call_number.is_none());
    assert_eq!(budget.snapshot().calls_reserved, 0);
}

#[test]
fn unpriced_model_passes_without_a_cost_limit() {
    let registry = PricingRegistry::with_overrides(&Vec::new());
    let mut budget = tracker(10, 0);
    let call = prepare_billable(
        &Vec::new(),
        Some(br#"{"model":"custom-gateway-model"}"#),
        &registry,
        &mut budget,
    )
    .unwrap();
    assert!(call.price.is_none());
}

#[test]
fn invalid_bodies_are_refused_without_reserving() {
    let registry = PricingRegistry::with_overrides(&Vec::new());
    let mut budget = tracker(10, 0);
    let headers = session_header("run-7");

    let too_large = prepare_billable(&headers, None, &registry, &mut budget).unwrap_err();
    assert_eq!(too_large.status, 413);
    assert_eq!(too_large.envelope.error.code, "request_body_too_large");
    assert_eq!(too_large.session_id.as_deref(), Some("run-7"));

    let not_json = prepare_billable(&headers, Some(b"{nope"), &registry, &mut budget).unwrap_err();
    assert_eq!(not_json.status, 400);
    assert_eq!(not_json.envelope.error.code, "invalid_json");
    assert_eq!(not_json.budget_decision, BudgetDecision::InvalidRequest);

    let no_model = prepare_billable(&headers, Some(br#"{"messages":[]}"#), &registry, &mut budget)
        .unwrap_err();
    assert_eq!(no_model.status, 400);
    assert_eq!(no_model.envelope.error.code, "invalid_chat_request");
    assert_eq!(
        no_model.envelope.error.message,
        "chat completion request is missing a model"
    );
    assert_eq!(budget.snapshot().calls_reserved, 0);
}

#[test]
fn streamed_requests_ask_for_usage() {
    let registry = PricingRegistry::with_overrides(&Vec::new());
    let mut budget = tracker(10, 0);
    let call = prepare_billable(
        &Vec::new(),
        Some(br#"{"model":"gpt-4o-mini","stream":true,"user":"agent-3"}"#),
        &registry,
        &mut budget,
    )
    .unwrap();
    assert!(call.metadata.stream);
    assert_eq!(call.session_id.as_deref(), Some("agent-3"));
    let sent = Json::parse(&call.body).unwrap();
    let options = sent.get("stream_options").unwrap();
    assert_eq!(options.get("include_usage").unwrap().as_bool(), Some(true));
}

#[test]
fn bad_stream_options_are_refused_after_admission() {
    let registry = PricingRegistry::with_overrides(&Vec::new());
    let mut budget = tracker(10, 0);
    let refused = prepare_billable(
        &Vec::new(),
        Some(br#"{"model":"gpt-4o-mini","stream":true,"stream_options":[]}"#),
        &registry,
        &mut budget,
    )
    .unwrap_err();
    assert_eq!(refused.status, 400);
    assert_eq!(refused.envelope.error.code, "invalid_stream_options");
    assert_eq!(refused.budget_decision, BudgetDecision::Allowed);
    assert_eq!(refused.call_number, Some(1));
    assert_eq!(budget.snapshot().calls_reserved, 1);
    let observation = refused.observation("/v1/chat/completions".to_owned(), 4);
    assert!(observation.billable);
    assert_eq!(observation.status, 400);
    assert_eq!(observation.call_number, Some(1));
}

#[test]
fn meter_plans_follow_price_status_and_stream() {
    let price = Some(Price::new(MicroUsd::from_micro_usd(1), MicroUsd::from_micro_usd(1)));
    assert_eq!(meter_plan(None, true, false), MeterPlan::Unmetered);
    assert_eq!(meter_plan(None, false, true), MeterPlan::Stream);
    assert_eq!(meter_plan(price, false, true), MeterPlan::UpstreamError);
    assert_eq!(meter_plan(price, true, true), MeterPlan::Stream);
    assert_eq!(meter_plan(price, true, false), MeterPlan::Buffered);
}

#[test]
fn missing_usage_is_not_counted_as_zero_cost() {
    let price = Price::new(MicroUsd::from_micro_usd(150_000), MicroUsd::from_micro_usd(600_000));
    let mut budget = tracker(10, 0);
    let (usage, cost) = meter_buffered_body(br#"{"choices":[]}"#, price, &mut budget);
    assert_eq!(usage, UsageOutcome::Unavailable(UsageUnavailableReason::MissingUsage));
    assert_eq!(cost, None);
    assert_eq!(budget.snapshot().observed_cost_usd, MicroUsd::zero());
}

#[test]
fn buffered_usage_is_charged() {
    let price = Price::new(MicroUsd::from_micro_usd(150_000), MicroUsd::from_micro_usd(600_000));
    let mut budget = tracker(10, 0);
    let body = br#"{"usage":{"prompt_tokens":1000,"completion_tokens":500,"total_tokens":1500}}"#;
    let (usage, cost) = meter_buffered_body(body, price, &mut budget);
    assert_eq!(
        usage,
        UsageOutcome::Metered(TokenUsage {
            prompt_tokens: 1000,
            completion_tokens: 500,
            total_tokens: 1500,
        })
    );
    assert_eq!(cost, Some(MicroUsd::from_micro_usd(450)));
    assert_eq!(budget.snapshot().observed_cost_usd, MicroUsd::from_micro_usd(450));
}

#[test]
fn oversized_metered_bodies_answer_bad_gateway() {
    let (status, envelope, usage) = metered_body_too_large();
    assert_eq!(status, 502);
    assert_eq!(envelope.error.code, "response_body_too_large");
    assert_eq!(usage, UsageOutcome::Unavailable(UsageUnavailableReason::ResponseTooLarge));
}

#[test]
fn latched_stream_outcomes_win_over_direct_metering() {
    let metered = UsageOutcome::Unavailable(UsageUnavailableReason::MissingUsage);
    let latched = UsageOutcome::Unavailable(UsageUnavailableReason::StreamInterrupted);
    assert_eq!(
        take_metered_outcome(Some(Some((latched, None))), Some(metered), None),
        (Some(latched), None)
    );
    assert_eq!(take_metered_outcome(Some(None), Some(metered), None), (None, None));
    assert_eq!(
        take_metered_outcome(None, Some(metered), Some(MicroUsd::from_micro_usd(3))),
        (Some(metered), Some(MicroUsd::from_micro_usd(3)))
    );
}

#[test]
fn mutate_after_corrupts_or_passes_through() {
    match apply_mutate_after("malformed_tool_call_json", Some(b"not json at all")) {
        MutateAfterOutcome::Body { bytes, injected } => {
            assert_eq!(bytes, b"not json at all".to_vec());
            assert_eq!(injected, None);
        }
        other => panic!("unexpected {other:?}"),
    }
    match apply_mutate_after("malformed_tool_call_json", Some(br#"{"choices":[]}"#)) {
        MutateAfterOutcome::Body { bytes, injected } => {
            assert!(String::from_utf8(bytes).unwrap().contains("{maul:not-json"));
            assert_eq!(injected, Some("malformed_tool_call_json"));
        }
        other => panic!("unexpected {other:?}"),
    }
    match apply_mutate_after("malformed_tool_call_json", None) {
        MutateAfterOutcome::BufferFailed { message } => {
            assert_eq!(message, "maul: failed to buffer response for malformed_tool_call_json");
        }
        other => panic!("unexpected {other:?}"),
    }
}

#[test]
fn plain_text_answers_name_the_limit_and_the_upstream_error() {
    assert_eq!(MAX_REQUEST_BODY_BYTES, 8 * 1024 * 1024);
    assert_eq!(
        request_too_large_message(),
        "maul: request body exceeds 8388608 byte limit"
    );
    assert_eq!(
        upstream_error_message("connection refused"),
        "maul: upstream error: connection refused"
    );
}

#[test]
fn admitted_calls_are_recorded_as_allowed() {
    let registry = PricingRegistry::with_overrides(&Vec::new());
    let mut budget = tracker(10, 0);
    let call = prepare_billable(
        &session_header("s-1"),
        Some(br#"{"model":"gpt-4o"}"#),
        &registry,
        &mut budget,
    )
    .unwrap();
    let observation = call.observation(
        "/v1/chat/completions".to_owned(),
        500,
        3,
        Some("force_500".to_owned()),
        None,
        None,
    );
    assert_eq!(observation.model.as_deref(), Some("gpt-4o"));
    assert_eq!(observation.call_number, Some(1));
    assert_eq!(observation.budget_decision, BudgetDecision::Allowed);
    assert_eq!(observation.session_id.as_deref(), Some("s-1"));
    assert_eq!(observation.fault_injected.as_deref(), Some("force_500"));
}

#[test]
fn upstream_errors_record_unavailable_usage_and_no_cost() {
    assert_eq!(
        upstream_error_outcome(),
        (UsageOutcome::Unavailable(UsageUnavailableReason::UpstreamError), None)
    );
}
