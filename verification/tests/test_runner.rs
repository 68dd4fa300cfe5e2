//! Unit tests for `maul test` orchestration helpers.

use maul::budget::{BudgetSnapshot, MicroUsd};
use maul::report::{ReliabilityReport, RunSummary};
use maul::test_runner::{
    AGENT_BASE_URL_ENV, DEFAULT_AGENT_TIMEOUT_SECS, TestOrchestrationError, agent_base_url,
    evaluate_thresholds, render_report_summary,
};

fn summary(budget_rejections: u64, post_fault_successes: u64, observed_cost_usd: MicroUsd) -> RunSummary {
    RunSummary {
        successful_requests: 1,
        failed_requests: 1,
        budget_rejections,
        recovery_events: post_fault_successes,
        post_fault_successes,
        fault_events: 0,
        sessions_observed: 0,
        recovered_sessions: 0,
        unrecovered_sessions: 0,
        unattributed_requests: 2,
        observed_cost_usd,
    }
}

fn report_with(
    faults_injected: u64,
    budget_rejections: u64,
    post_fault_successes: u64,
    observed_cost_usd: MicroUsd,
    cost_limit_usd: MicroUsd,
) -> ReliabilityReport {
    ReliabilityReport {
        schema_version: "0.1".into(),
        run_id: String::new(),
        total_proxy_requests: 2,
        billable_llm_calls: 1,
        faults_injected,
        total_latency_ms: 2,
        budget_snapshot: Some(BudgetSnapshot {
            calls_reserved: 1,
            calls_limit: 10,
            observed_cost_usd,
            cost_limit_usd,
        }),
        pricing_registry_version: Some("test".into()),
        summary: summary(budget_rejections, post_fault_successes, observed_cost_usd),
        sessions: Vec::new(),
        requests: Vec::new(),
    }
}

#[test]
fn agent_base_url_uses_openai_compatible_suffix() {
    assert_eq!(agent_base_url("127.0.0.1:9876"), "http://127.0.0.1:9876/v1");
    assert_eq!(AGENT_BASE_URL_ENV, ["MAUL_BASE_URL", "OPENAI_BASE_URL"]);
    assert_eq!(DEFAULT_AGENT_TIMEOUT_SECS, 300);
}

#[test]
fn evaluate_thresholds_detects_budget_cost_and_resilience_failures() {
    let budget_fail = report_with(0, 1, 0, MicroUsd::zero(), MicroUsd::zero());
    assert!(matches!(
        evaluate_thresholds(&budget_fail, &vec!["budget".into()]),
        Err(TestOrchestrationError::ThresholdFailed(name)) if name == "budget"
    ));

    let cost_fail = report_with(
        0,
        0,
        0,
        MicroUsd::from_micro_usd(100),
        MicroUsd::from_micro_usd(100),
    );
    assert!(matches!(
        evaluate_thresholds(&cost_fail, &vec!["cost".into()]),
        Err(TestOrchestrationError::ThresholdFailed(name)) if name == "cost"
    ));

    let resilience_fail = report_with(2, 0, 0, MicroUsd::zero(), MicroUsd::zero());
    assert!(matches!(
        evaluate_thresholds(&resilience_fail, &vec!["resilience".into()]),
        Err(TestOrchestrationError::ThresholdFailed(name)) if name == "resilience"
    ));

    let ok = report_with(
        1,
        0,
        1,
        MicroUsd::from_micro_usd(10),
        MicroUsd::from_micro_usd(100),
    );
    assert!(
        evaluate_thresholds(&ok, &vec!["budget".into(), "cost".into(), "resilience".into()]).is_ok()
    );
}

#[test]
fn evaluate_thresholds_rejects_unknown_names() {
    let report = report_with(0, 0, 0, MicroUsd::zero(), MicroUsd::zero());
    assert!(matches!(
        evaluate_thresholds(&report, &vec!["safety".into()]),
        Err(TestOrchestrationError::UnsupportedThreshold(name)) if name == "safety"
    ));
}

#[test]
fn render_report_summary_includes_display_and_micro_amounts() {
    let report = report_with(0, 0, 0, MicroUsd::from_micro_usd(42), MicroUsd::zero());
    let summary = render_report_summary(&report);
    assert!(summary.contains("$0.000042"));
    assert!(summary.contains("42"));
}

#[test]
fn render_report_summary_is_the_documented_markdown() {
    let report = report_with(1, 0, 1, MicroUsd::from_micro_usd(1_500_000), MicroUsd::zero());
    assert_eq!(
        render_report_summary(&report),
        "# Maul test summary\n\n- Schema: `0.1`\n- Proxy requests: 2\n- Billable LLM calls: 1\n- Faults injected: 1\n- Budget rejections: 0\n- Observed cost: $1.500000 (`1500000` micro-USD)\n"
    );
}

#[test]
fn thresholds_fail_at_the_first_failing_name() {
    let report = report_with(2, 1, 0, MicroUsd::zero(), MicroUsd::zero());
    assert!(matches!(
        evaluate_thresholds(&report, &vec!["resilience".into(), "budget".into()]),
        Err(TestOrchestrationError::ThresholdFailed(name)) if name == "resilience"
    ));
    assert!(evaluate_thresholds(&report, &Vec::new()).is_ok());
}

#[test]
fn zero_cost_limit_never_fails_the_cost_threshold() {
    let report = report_with(0, 0, 0, MicroUsd::from_micro_usd(5), MicroUsd::zero());
    assert!(evaluate_thresholds(&report, &vec!["cost".into()]).is_ok());
}
