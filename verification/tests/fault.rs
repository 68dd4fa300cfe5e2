//! Fault decisions and body mutator edge cases (real agent / OpenAI shapes).

use maul::fault::{
    Action, FORCE_429, FORCE_500, FaultBody, FaultPlan, MALFORMED_TOOL_CALL_JSON, Scenario,
    is_supported_scenario, malform_tool_call_json,
};
use rand::rngs::StdRng;
use rand::{RngExt, SeedableRng};

/// The fault engine as the proxy runs it: a seeded generator, a roll
/// against the probability, then the plan's draw.
struct Engine {
    plan: FaultPlan,
    probability: f64,
    rng: StdRng,
}

impl Engine {
    fn new(scenarios: Vec<&str>, probability: f64, seed: u64) -> Engine {
        let names: Vec<String> = scenarios.into_iter().map(str::to_owned).collect();
        Engine {
            plan: FaultPlan::from_scenario_names(&names),
            probability: probability.clamp(0.0, 1.0),
            rng: StdRng::seed_from_u64(seed),
        }
    }

    fn decide(&mut self) -> Action {
        let fired = !self.plan.is_empty()
            && self.probability > 0.0
            && self.rng.random_range(0.0..1.0) < self.probability;
        self.plan.decide(fired, &mut self.rng)
    }
}

fn assert_args_invalid_json(args: &str) {
    assert_eq!(args, "{maul:not-json");
    assert!(
        serde_json::from_str::<serde_json::Value>(args).is_err(),
        "CrewAI/LangGraph parse tool args as JSON; mutated args must fail that parse"
    );
}

#[test]
fn disabled_when_scenario_not_listed() {
    let mut engine = Engine::new(vec![], 1.0, 1);
    for _ in 0..20 {
        assert!(matches!(engine.decide(), Action::Forward));
    }
}

#[test]
fn disabled_when_probability_zero() {
    let mut engine = Engine::new(vec![FORCE_500], 0.0, 1);
    for _ in 0..20 {
        assert!(matches!(engine.decide(), Action::Forward));
    }
}

#[test]
fn always_injects_force_500_when_probability_one() {
    let mut engine = Engine::new(vec![FORCE_500], 1.0, 7);
    for _ in 0..10 {
        match engine.decide() {
            Action::ShortCircuit { scenario, response } => {
                assert_eq!(scenario, FORCE_500);
                assert_eq!(response.status, 500);
            }
            other => panic!("expected ShortCircuit, got {other:?}"),
        }
    }
}

#[test]
fn always_injects_malformed_tool_call_when_probability_one() {
    let mut engine = Engine::new(vec![MALFORMED_TOOL_CALL_JSON], 1.0, 7);
    for _ in 0..10 {
        match engine.decide() {
            Action::MutateAfter { scenario } => {
                assert_eq!(scenario, MALFORMED_TOOL_CALL_JSON);
            }
            other => panic!("expected MutateAfter, got {other:?}"),
        }
    }
}

#[test]
fn same_seed_same_sequence() {
    let mut a = Engine::new(vec![FORCE_500], 0.5, 99);
    let mut b = Engine::new(vec![FORCE_500], 0.5, 99);

    let seq_a: Vec<bool> = (0..32)
        .map(|_| matches!(a.decide(), Action::ShortCircuit { .. }))
        .collect();
    let seq_b: Vec<bool> = (0..32)
        .map(|_| matches!(b.decide(), Action::ShortCircuit { .. }))
        .collect();

    assert_eq!(seq_a, seq_b);
    assert!(seq_a.iter().any(|injected| *injected));
    assert!(seq_a.iter().any(|injected| !*injected));
}

#[test]
fn unknown_scenario_names_are_ignored() {
    let mut engine = Engine::new(vec!["not_a_real_fault"], 1.0, 1);
    for _ in 0..10 {
        assert!(matches!(engine.decide(), Action::Forward));
    }
}

#[test]
fn both_scenarios_enabled_only_emits_known_actions() {
    let mut engine = Engine::new(vec![FORCE_500, MALFORMED_TOOL_CALL_JSON], 1.0, 7);
    let mut saw_short = false;
    let mut saw_mutate = false;
    for _ in 0..40 {
        match engine.decide() {
            Action::ShortCircuit { scenario, .. } => {
                assert_eq!(scenario, FORCE_500);
                saw_short = true;
            }
            Action::MutateAfter { scenario } => {
                assert_eq!(scenario, MALFORMED_TOOL_CALL_JSON);
                saw_mutate = true;
            }
            Action::Forward => panic!("probability 1.0 must not Forward"),
        }
    }
    assert!(
        saw_short && saw_mutate,
        "seeded RNG should hit both scenarios"
    );
}

#[test]
fn malform_corrupts_existing_tool_call_arguments() {
    let body = br#"{
      "choices": [{
        "message": {
          "role": "assistant",
          "tool_calls": [{
            "id": "call_1",
            "type": "function",
            "function": {"name": "add", "arguments": "{\"a\":1,\"b\":2}"}
          }]
        }
      }]
    }"#;

    let out = malform_tool_call_json(body).expect("should mutate");
    let value: serde_json::Value = serde_json::from_slice(&out).unwrap();
    let args = value["choices"][0]["message"]["tool_calls"][0]["function"]["arguments"]
        .as_str()
        .unwrap();
    assert_args_invalid_json(args);
}

#[test]
fn malform_corrupts_every_tool_call_when_model_emits_several() {
    let body = br#"{
      "choices": [{
        "message": {
          "role": "assistant",
          "tool_calls": [
            {"id":"c1","type":"function","function":{"name":"add","arguments":"{\"a\":1}"}},
            {"id":"c2","type":"function","function":{"name":"add","arguments":"{\"a\":2}"}}
          ]
        }
      }]
    }"#;
    let out = malform_tool_call_json(body).unwrap();
    let value: serde_json::Value = serde_json::from_slice(&out).unwrap();
    for i in 0..2 {
        assert_args_invalid_json(
            value["choices"][0]["message"]["tool_calls"][i]["function"]["arguments"]
                .as_str()
                .unwrap(),
        );
    }
}

#[test]
fn malform_injects_tool_call_when_missing() {
    let body = br#"{
      "choices": [{
        "message": {"role": "assistant", "content": "hello"}
      }]
    }"#;

    let out = malform_tool_call_json(body).expect("should mutate");
    let value: serde_json::Value = serde_json::from_slice(&out).unwrap();
    assert_args_invalid_json(
        value["choices"][0]["message"]["tool_calls"][0]["function"]["arguments"]
            .as_str()
            .unwrap(),
    );
}

#[test]
fn malform_empty_choices_injects_tool_call() {
    let out = malform_tool_call_json(br#"{"choices":[]}"#).unwrap();
    let value: serde_json::Value = serde_json::from_slice(&out).unwrap();
    assert_args_invalid_json(
        value["choices"][0]["message"]["tool_calls"][0]["function"]["arguments"]
            .as_str()
            .unwrap(),
    );
}

#[test]
fn malform_choice_without_message_injects() {
    let out = malform_tool_call_json(br#"{"choices":[{"index":0}]}"#).unwrap();
    let value: serde_json::Value = serde_json::from_slice(&out).unwrap();
    assert_args_invalid_json(
        value["choices"][0]["message"]["tool_calls"][0]["function"]["arguments"]
            .as_str()
            .unwrap(),
    );
}

#[test]
fn malform_returns_none_for_non_json() {
    assert!(malform_tool_call_json(b"not-json").is_none());
}

#[test]
fn malform_returns_none_for_gzip_bytes() {
    // Real failure mode: agent Accept-Encoding:gzip → compressed upstream body.
    // Mutator must not pretend it mutated compressed bytes. The fixture is the
    // gzip stream of a JSON completion holding one tool call.
    let gzipped: Vec<u8> = vec![
        0x1f, 0x8b, 0x08, 0x00, 0x00, 0x00, 0x00, 0x00, 0x00, 0x03, 0x3d, 0x8c, 0x41, 0x0a, 0xc3,
        0x30, 0x0c, 0x04, 0xff, 0xb2, 0xe7, 0x5c, 0x72, 0xf5, 0x57, 0x92, 0x52, 0x84, 0xec, 0xa6,
        0x06, 0x5b, 0x2e, 0x91, 0x72, 0x28, 0xc6, 0x7f, 0xaf, 0xdc, 0x42, 0x61, 0x41, 0x8b, 0x66,
        0x99, 0x0e, 0x7e, 0xb6, 0xcc, 0x49, 0x11, 0xb6, 0x8e, 0x9a, 0x54, 0xe9, 0x48, 0x08, 0x1d,
        0x67, 0x2b, 0x7e, 0x41, 0xaa, 0x59, 0x8d, 0xc4, 0xb0, 0xc0, 0x5a, 0x2b, 0x77, 0xa6, 0x52,
        0x7e, 0xe3, 0x1c, 0x9d, 0xf3, 0x3a, 0xc1, 0xfb, 0x35, 0xb7, 0x8f, 0x4b, 0xd8, 0x72, 0x13,
        0xff, 0xfc, 0xab, 0x9b, 0x84, 0xea, 0xd7, 0x14, 0xa3, 0x03, 0x3a, 0x8f, 0xab, 0x26, 0x31,
        0x57, 0xa0, 0xef, 0xa0, 0x1d, 0x61, 0x1d, 0x18, 0xe3, 0x36, 0xf3, 0x01, 0xd4, 0x67, 0x18,
        0x02, 0x8d, 0x00, 0x00, 0x00,
    ];
    assert_eq!(gzipped[0..2], [0x1f, 0x8b], "fixture must look like gzip");
    assert!(
        malform_tool_call_json(&gzipped).is_none(),
        "gzip must not parse as JSON/SSE; proxy must force identity instead"
    );
}

#[test]
fn malform_fabricates_completion_when_shape_unknown() {
    let out = malform_tool_call_json(br#"{"ok":true}"#).expect("should fabricate");
    let value: serde_json::Value = serde_json::from_slice(&out).unwrap();
    assert!(value.get("choices").is_some());
    assert_args_invalid_json(
        value["choices"][0]["message"]["tool_calls"][0]["function"]["arguments"]
            .as_str()
            .unwrap(),
    );
}

#[test]
fn malform_corrupts_sse_tool_call_argument_deltas() {
    // OpenAI streams arguments across chunks; each chunk with `arguments` must break.
    let body = [
        "data: {\"choices\":[{\"delta\":{\"tool_calls\":[{\"index\":0,\"id\":\"call_1\",",
        "\"type\":\"function\",\"function\":{\"name\":\"add\",\"arguments\":\"{\\\"a\\\":\"}}]}}]}\n\n",
        "data: {\"choices\":[{\"delta\":{\"tool_calls\":[{\"index\":0,",
        "\"function\":{\"arguments\":\"21}\"}}]}}]}\n\n",
        "data: [DONE]\n\n"
    ].concat();

    let out = malform_tool_call_json(body.as_bytes()).expect("should mutate sse");
    let text = String::from_utf8(out).unwrap();
    assert!(text.contains("{maul:not-json"));
    assert!(text.contains("data: [DONE]"));
    assert!(!text.contains("\\\"a\\\":"));
}

#[test]
fn malform_sse_realistic_openai_tool_stream() {
    // Typical stream: role → tool name (no args yet) → arg fragments → finish.
    let body = [
        "data: {\"id\":\"chatcmpl-x\",\"object\":\"chat.completion.chunk\",\"choices\":[{",
        "\"index\":0,\"delta\":{\"role\":\"assistant\",\"content\":null},\"finish_reason\":null}]}\n\n",
        "data: {\"id\":\"chatcmpl-x\",\"object\":\"chat.completion.chunk\",\"choices\":[{",
        "\"index\":0,\"delta\":{\"tool_calls\":[{\"index\":0,\"id\":\"call_abc\",\"type\":\"function\",",
        "\"function\":{\"name\":\"add\",\"arguments\":\"\"}}]},\"finish_reason\":null}]}\n\n",
        "data: {\"id\":\"chatcmpl-x\",\"object\":\"chat.completion.chunk\",\"choices\":[{",
        "\"index\":0,\"delta\":{\"tool_calls\":[{\"index\":0,\"function\":{\"arguments\":\"{\\\"a\\\":21,\"}}]},",
        "\"finish_reason\":null}]}\n\n",
        "data: {\"id\":\"chatcmpl-x\",\"object\":\"chat.completion.chunk\",\"choices\":[{",
        "\"index\":0,\"delta\":{\"tool_calls\":[{\"index\":0,\"function\":{\"arguments\":\"\\\"b\\\":21}\"}}]},",
        "\"finish_reason\":null}]}\n\n",
        "data: {\"id\":\"chatcmpl-x\",\"object\":\"chat.completion.chunk\",\"choices\":[{",
        "\"index\":0,\"delta\":{},\"finish_reason\":\"tool_calls\"}]}\n\n",
        "data: [DONE]\n\n"
    ].concat();

    let out = malform_tool_call_json(body.as_bytes()).unwrap();
    let text = String::from_utf8(out).unwrap();
    assert!(text.contains("{maul:not-json"));
    assert!(text.contains("\"name\":\"add\"") || text.contains("add"));
    assert!(text.contains("data: [DONE]"));
    // The concatenated JSON fragments of the input must not survive.
    assert!(!text.contains(r#"\"a\":21"#) && !text.contains(r#"{"a":21"#));
}

#[test]
fn malform_sse_appends_done_when_upstream_truncated() {
    let body = [
        "data: {\"choices\":[{\"delta\":{\"tool_calls\":[{\"index\":0,\"id\":\"c1\",",
        "\"type\":\"function\",\"function\":{\"name\":\"add\",\"arguments\":\"{\\\"a\\\":1}\"}}]}}]}\n\n"
    ].concat();
    let out = malform_tool_call_json(body.as_bytes()).unwrap();
    let text = String::from_utf8(out).unwrap();
    assert!(text.contains("{maul:not-json"));
    assert!(text.contains("data: [DONE]"));
}

#[test]
fn malform_replaces_text_only_sse_with_fault_chunk() {
    let body = [
        "data: {\"choices\":[{\"delta\":{\"role\":\"assistant\",\"content\":\"hi\"}}]}\n\n",
        "data: [DONE]\n\n"
    ].concat();
    let out = malform_tool_call_json(body.as_bytes()).expect("should replace sse");
    let text = String::from_utf8(out).unwrap();
    assert!(text.contains("maul_injected_tool"));
    assert!(text.contains("{maul:not-json"));
    assert!(text.contains("data: [DONE]"));
}

#[test]
fn malform_sse_with_leading_whitespace_still_detected() {
    let body = "\n\ndata: {\"choices\":[{\"delta\":{\"content\":\"x\"}}]}\n\ndata: [DONE]\n\n";
    let out = malform_tool_call_json(body.as_bytes()).unwrap();
    assert!(
        String::from_utf8(out)
            .unwrap()
            .contains("maul_injected_tool")
    );
}

#[test]
fn force_500_answers_with_a_server_error_envelope() {
    match Scenario::Force500.into_action() {
        Action::ShortCircuit { scenario, response } => {
            assert_eq!(scenario, FORCE_500);
            assert_eq!(response.status, 500);
            assert!(response.retry_after.is_none());
            match response.body {
                FaultBody::Envelope(envelope) => {
                    assert_eq!(envelope.error.message, "maul: injected fault force_500");
                    assert_eq!(envelope.error.error_type, "server_error");
                    assert_eq!(envelope.error.code, "force_500");
                }
                other => panic!("expected an envelope, got {other:?}"),
            }
        }
        other => panic!("expected ShortCircuit, got {other:?}"),
    }
}

#[test]
fn supported_scenarios_are_exactly_the_three_names() {
    assert!(is_supported_scenario("force_500"));
    assert!(is_supported_scenario("force_429"));
    assert!(is_supported_scenario("malformed_tool_call_json"));
    assert!(!is_supported_scenario("force_503"));
    assert_eq!(Scenario::from_name("force_429"), Some(Scenario::Force429));
    assert_eq!(Scenario::from_name("nope"), None);
    assert_eq!(Scenario::Force500.name(), FORCE_500);
}

#[test]
fn force_429_answers_rate_limited_with_retry_after() {
    match Scenario::Force429.into_action() {
        Action::ShortCircuit { scenario, response } => {
            assert_eq!(scenario, FORCE_429);
            assert_eq!(response.status, 429);
            assert_eq!(response.retry_after.as_deref(), Some("1"));
        }
        other => panic!("expected ShortCircuit, got {other:?}"),
    }
}

#[test]
fn plan_keeps_known_names_in_order() {
    let names = vec![
        "malformed_tool_call_json".to_owned(),
        "bogus".to_owned(),
        "force_500".to_owned(),
    ];
    let plan = FaultPlan::from_scenario_names(&names);
    assert_eq!(plan.len(), 2);
    assert!(matches!(plan.action_at(0), Action::MutateAfter { .. }));
    assert!(matches!(plan.action_at(1), Action::ShortCircuit { .. }));
}

#[test]
fn malform_answers_tool_calls_without_arguments_with_synthetic_completion() {
    let body = br#"{"choices":[{"message":{"tool_calls":[{"id":"c1","function":{"name":"add"}}]}}]}"#;
    let out = malform_tool_call_json(body).expect("json body is always mutated");
    let value: serde_json::Value = serde_json::from_slice(&out).unwrap();
    assert_eq!(value["id"], "chatcmpl-maul-fault");
    assert_args_invalid_json(
        value["choices"][0]["message"]["tool_calls"][0]["function"]["arguments"]
            .as_str()
            .unwrap(),
    );
}

#[test]
fn malform_keeps_sse_comment_lines_and_raw_payloads() {
    let body = [
        ": keep-alive\n",
        "data: not json\n\n",
        "data: {\"choices\":[{\"delta\":{\"tool_calls\":[{\"function\":{\"arguments\":\"{}\"}}]}}]}\n\n"
    ].concat();
    let out = String::from_utf8(malform_tool_call_json(body.as_bytes()).unwrap()).unwrap();
    assert!(out.starts_with(": keep-alive\ndata: not json\n\ndata: "));
    assert!(out.contains("{maul:not-json"));
    assert!(out.ends_with("data: [DONE]\n\n"));
}

#[test]
fn malform_json_with_nothing_to_corrupt_gives_synthetic_completion() {
    let out = malform_tool_call_json(br#"{"choices":[1]}"#).expect("json body is always mutated");
    let value: serde_json::Value = serde_json::from_slice(&out).unwrap();
    assert_eq!(value["id"], "chatcmpl-maul-fault");
    assert_eq!(value["object"], "chat.completion");
    assert_args_invalid_json(
        value["choices"][0]["message"]["tool_calls"][0]["function"]["arguments"]
            .as_str()
            .unwrap(),
    );
}
