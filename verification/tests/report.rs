//! The report collector: numbering, shutdown metadata and the final report.

use maul::budget::{BudgetSnapshot, MicroUsd};
use maul::report::{
    BudgetDecision, REPORT_SCHEMA_VERSION, ReportCollector, ReportEvent, RequestObservation,
    configured_run_id,
};

fn request(path: &str, status: u16, latency_ms: u64, fault: Option<&str>) -> ReportEvent {
    ReportEvent::Request {
        record: RequestObservation::non_billable(
            path.to_owned(),
            status,
            latency_ms,
            fault.map(str::to_owned),
            None,
        )
        .into_record(),
    }
}

#[test]
fn collector_numbers_records_and_counts_faults() {
    let mut collector = ReportCollector::new();
    assert!(!collector.accept(request("/v1/chat/completions", 200, 12, None)));
    assert!(!collector.accept(request("/v1/chat/completions", 500, 3, Some("force_500"))));
    assert!(collector.accept(ReportEvent::Shutdown {
        budget_snapshot: None,
        pricing_registry_version: None,
    }));
    let report = collector.finish("run-1".to_owned());

    assert_eq!(report.schema_version, REPORT_SCHEMA_VERSION);
    assert_eq!(report.schema_version, "0.2");
    assert_eq!(report.run_id, "run-1");
    assert_eq!(report.total_proxy_requests, 2);
    assert_eq!(report.billable_llm_calls, 0);
    assert_eq!(report.faults_injected, 1);
    assert_eq!(report.total_latency_ms, 15);
    assert_eq!(report.requests[0].sequence, 1);
    assert_eq!(report.requests[1].sequence, 2);
    assert_eq!(report.summary.failed_requests, 1);
    assert_eq!(report.summary.recovery_events, report.summary.post_fault_successes);
}

#[test]
fn first_shutdown_keeps_its_metadata_and_later_requests_are_still_numbered() {
    let snapshot = BudgetSnapshot {
        calls_reserved: 1,
        calls_limit: 10,
        observed_cost_usd: MicroUsd::from_micro_usd(1_500_000),
        cost_limit_usd: MicroUsd::from_micro_usd(5_000_000),
    };
    let mut collector = ReportCollector::new();
    let billable = RequestObservation::from_details(
        "/v1/chat/completions".to_owned(),
        200,
        5,
        None,
        true,
        Some("gpt-4o-mini".to_owned()),
        Some(1),
        BudgetDecision::Allowed,
        None,
        Some(MicroUsd::from_micro_usd(1_500_000)),
        None,
    );
    collector.accept(ReportEvent::Request { record: billable.into_record() });
    assert!(collector.accept(ReportEvent::Shutdown {
        budget_snapshot: Some(snapshot),
        pricing_registry_version: Some("bundled-v1".to_owned()),
    }));
    assert!(!collector.accept(ReportEvent::Shutdown {
        budget_snapshot: None,
        pricing_registry_version: None,
    }));
    collector.accept(request("/v1/models", 200, 1, None));
    let report = collector.finish("run-2".to_owned());

    assert_eq!(report.budget_snapshot, Some(snapshot));
    assert_eq!(report.pricing_registry_version.as_deref(), Some("bundled-v1"));
    assert_eq!(report.billable_llm_calls, 1);
    assert_eq!(report.requests[0].call_number, Some(1));
    assert_eq!(report.requests[0].budget_decision, BudgetDecision::Allowed);
    assert_eq!(report.requests[1].sequence, 2);
    assert_eq!(report.summary.observed_cost_usd, MicroUsd::from_micro_usd(1_500_000));
}

#[test]
fn non_billable_details_drop_billable_fields() {
    let observation = RequestObservation::from_details(
        "/v1/models".to_owned(),
        200,
        2,
        None,
        false,
        Some("gpt-4o".to_owned()),
        Some(4),
        BudgetDecision::Allowed,
        None,
        Some(MicroUsd::from_micro_usd(9)),
        Some("s".to_owned()),
    );
    assert!(!observation.billable);
    assert!(observation.model.is_none());
    assert!(observation.call_number.is_none());
    assert_eq!(observation.budget_decision, BudgetDecision::NotBillable);
    assert!(observation.cost_usd.is_none());
    assert_eq!(observation.session_id.as_deref(), Some("s"));
}

#[test]
fn configured_run_ids_are_trimmed_and_bounded() {
    assert_eq!(configured_run_id(Some("  ci-42 ".to_owned())).as_deref(), Some("ci-42"));
    assert_eq!(configured_run_id(Some("   ".to_owned())), None);
    assert_eq!(configured_run_id(Some("x".repeat(129))), None);
    assert_eq!(configured_run_id(Some("x".repeat(128))).map(|s| s.len()), Some(128));
    assert_eq!(configured_run_id(None), None);
}
