//! Session-aware recovery aggregation.

use maul::report::{RequestRecord, aggregate_sessions, is_qualifying_recovery, summarize};

fn event(
    sequence: u64,
    session_id: Option<&str>,
    status: u16,
    fault: Option<&str>,
) -> RequestRecord {
    RequestRecord {
        sequence,
        session_id: session_id.map(str::to_owned),
        status,
        fault_injected: fault.map(str::to_owned),
        ..RequestRecord::default()
    }
}

#[test]
fn same_session_force_500_recovers_on_later_2xx() {
    let requests = vec![
        event(1, Some("a"), 500, Some("force_500")),
        event(2, Some("a"), 200, None),
    ];
    let aggregation = aggregate_sessions(&requests);
    assert_eq!(aggregation.fault_events, 1);
    assert_eq!(aggregation.recovery_events, 1);
    assert_eq!(aggregation.recovered_sessions, 1);
    assert_eq!(aggregation.unrecovered_sessions, 0);
    let summary = summarize(&requests);
    assert_eq!(summary.post_fault_successes, summary.recovery_events);
    assert_eq!(summary.recovery_events, 1);
}

#[test]
fn session_b_success_does_not_recover_session_a() {
    let requests = vec![
        event(1, Some("a"), 500, Some("force_500")),
        event(2, Some("b"), 200, None),
    ];
    let aggregation = aggregate_sessions(&requests);
    assert_eq!(aggregation.unrecovered_sessions, 1);
    assert_eq!(aggregation.recovered_sessions, 0);
    assert_eq!(aggregation.recovery_events, 0);
    assert_eq!(aggregation.sessions_observed, 2);
}

#[test]
fn interleaved_sessions_recover_independently() {
    let requests = vec![
        event(1, Some("a"), 500, Some("force_500")),
        event(2, Some("b"), 200, None),
        event(3, Some("a"), 200, None),
    ];
    let aggregation = aggregate_sessions(&requests);
    assert_eq!(aggregation.recovery_events, 1);
    assert_eq!(aggregation.recovered_sessions, 1);
    assert_eq!(aggregation.unrecovered_sessions, 0);
}

#[test]
fn repeated_malformed_2xx_is_not_recovery() {
    let requests = vec![
        event(1, Some("a"), 200, Some("malformed_tool_call_json")),
        event(2, Some("a"), 200, Some("malformed_tool_call_json")),
        event(3, Some("a"), 200, Some("malformed_tool_call_json")),
    ];
    let aggregation = aggregate_sessions(&requests);
    assert_eq!(aggregation.fault_events, 3);
    assert_eq!(aggregation.recovery_events, 0);
    assert_eq!(aggregation.unrecovered_sessions, 1);
    assert!(!is_qualifying_recovery(
        "malformed_tool_call_json",
        &event(2, Some("a"), 200, Some("malformed_tool_call_json"))
    ));
}

#[test]
fn unfaulted_2xx_recovers_malformed_tool_call() {
    let requests = vec![
        event(1, Some("a"), 200, Some("malformed_tool_call_json")),
        event(2, Some("a"), 200, Some("malformed_tool_call_json")),
        event(3, Some("a"), 200, None),
    ];
    let aggregation = aggregate_sessions(&requests);
    assert_eq!(aggregation.fault_events, 2);
    assert_eq!(aggregation.recovery_events, 2);
    assert_eq!(aggregation.recovered_sessions, 1);
}

#[test]
fn unattributed_traffic_never_infers_recovery() {
    let requests = vec![
        event(1, None, 500, Some("force_500")),
        event(2, None, 200, None),
        event(3, Some("a"), 500, Some("force_500")),
    ];
    let aggregation = aggregate_sessions(&requests);
    assert_eq!(aggregation.unattributed_requests, 2);
    assert_eq!(aggregation.recovery_events, 0);
    assert_eq!(aggregation.unrecovered_sessions, 1);
    assert_eq!(aggregation.sessions_observed, 1);
}

#[test]
fn later_2xx_recovers_force_429_even_if_faulted() {
    let later = event(2, Some("a"), 200, Some("malformed_tool_call_json"));
    assert!(is_qualifying_recovery("force_429", &later));
    assert!(is_qualifying_recovery("force_500", &later));
}

#[test]
fn run_totals_are_sums_of_session_counts() {
    let requests = vec![
        event(1, Some("a"), 500, Some("force_500")),
        event(2, None, 500, Some("force_500")),
        event(3, Some("b"), 429, Some("force_429")),
        event(4, Some("a"), 200, None),
        event(5, Some("b"), 500, Some("force_500")),
    ];
    let aggregation = aggregate_sessions(&requests);
    let fault_sum: u64 = aggregation.sessions.iter().map(|s| s.fault_events).sum();
    let recovery_sum: u64 = aggregation.sessions.iter().map(|s| s.recovery_events).sum();
    let request_sum: u64 = aggregation.sessions.iter().map(|s| s.request_count).sum();
    assert_eq!(aggregation.attributed_fault_events, fault_sum);
    assert_eq!(fault_sum, 3);
    assert_eq!(aggregation.recovery_events, recovery_sum);
    assert_eq!(recovery_sum, 1);
    assert_eq!(aggregation.fault_events, 4);
    assert_eq!(request_sum + aggregation.unattributed_requests, 5);
    let summary = summarize(&requests);
    assert_eq!(summary.recovered_sessions, 1);
    assert_eq!(summary.unrecovered_sessions, 1);
}

#[test]
fn interleaving_other_sessions_leaves_a_session_unchanged() {
    let alone = vec![
        event(1, Some("a"), 500, Some("force_500")),
        event(2, Some("a"), 200, None),
    ];
    let mixed = vec![
        event(1, Some("b"), 500, Some("force_500")),
        event(2, Some("a"), 500, Some("force_500")),
        event(3, None, 200, None),
        event(4, Some("b"), 200, None),
        event(5, Some("a"), 200, None),
    ];
    let a_alone = aggregate_sessions(&alone).sessions[0].clone();
    let mixed_sessions = aggregate_sessions(&mixed).sessions;
    let a_mixed = mixed_sessions.iter().find(|s| s.session_id == "a").unwrap();
    assert_eq!(a_alone.request_count, a_mixed.request_count);
    assert_eq!(a_alone.fault_events, a_mixed.fault_events);
    assert_eq!(a_alone.recovery_events, a_mixed.recovery_events);
    assert_eq!(a_alone.recovered, a_mixed.recovered);
}
