//! Reliability report: request records, per-session recovery aggregation,
//! run summaries and the collector that numbers and accumulates events.

use vstd::prelude::*;

use crate::budget::{BudgetSnapshot, MicroUsd};
use vstd::utf8::*;

use crate::text::{str_eq, trim_spec, trim_str};
use crate::usage::UsageOutcome;

verus! {

/// Number of indices `i` in `0..n` for which `p(i)` holds.
pub open spec fn count_idx(n: int, p: spec_fn(int) -> bool) -> nat
    decreases n,
{
    if n <= 0 {
        0
    } else {
        count_idx(n - 1, p) + if p(n - 1) {
            1nat
        } else {
            0nat
        }
    }
}

/// `count_idx` never exceeds the range it counts over.
pub proof fn lemma_count_idx_bound(n: int, p: spec_fn(int) -> bool)
    requires
        n >= 0,
    ensures
        count_idx(n, p) <= n,
    decreases n,
{
    if n > 0 {
        lemma_count_idx_bound(n - 1, p);
    }
}

/// A weaker predicate counts at least as many indices.
pub proof fn lemma_count_idx_mono(n: int, p: spec_fn(int) -> bool, q: spec_fn(int) -> bool)
    requires
        forall|i: int| 0 <= i < n && #[trigger] p(i) ==> q(i),
    ensures
        count_idx(n, p) <= count_idx(n, q),
    decreases n,
{
    if n > 0 {
        lemma_count_idx_mono(n - 1, p, q);
    }
}

/// Predicates that agree below `n` count the same.
pub proof fn lemma_count_idx_ext(n: int, p: spec_fn(int) -> bool, q: spec_fn(int) -> bool)
    requires
        forall|i: int| 0 <= i < n ==> #[trigger] p(i) == q(i),
    ensures
        count_idx(n, p) == count_idx(n, q),
    decreases n,
{
    if n > 0 {
        lemma_count_idx_ext(n - 1, p, q);
    }
}

/// How the budget treated one observed request.
#[derive(Debug, Clone, Copy, PartialEq, Eq, Structural)]
pub enum BudgetDecision {
    NotBillable,
    InvalidRequest,
    ModelUnpriced,
    Allowed,
    CallCapExceeded,
    CostCapExceeded,
}

/// One proxied request as it appears in the reliability report.
#[derive(Debug, Clone)]
pub struct RequestRecord {
    pub path: String,
    pub status: u16,
    pub latency_ms: u64,
    pub fault_injected: Option<String>,
    pub billable: bool,
    pub model: Option<String>,
    pub call_number: Option<u64>,
    pub budget_decision: BudgetDecision,
    pub usage: Option<UsageOutcome>,
    pub cost_usd: Option<MicroUsd>,
    pub session_id: Option<String>,
    pub sequence: u64,
}

impl Default for RequestRecord {
    fn default() -> (r: RequestRecord)
        ensures
            r.path@ == "/v1/chat/completions"@,
            r.status == 200,
            r.latency_ms == 1,
            r.fault_injected is None,
            r.billable,
            r.model is None,
            r.call_number is None,
            r.budget_decision == BudgetDecision::Allowed,
            r.usage is None,
            r.cost_usd is None,
            r.session_id is None,
            r.sequence == 0,
    {
        RequestRecord {
            path: "/v1/chat/completions".to_owned(),
            status: 200,
            latency_ms: 1,
            fault_injected: None,
            billable: true,
            model: None,
            call_number: None,
            budget_decision: BudgetDecision::Allowed,
            usage: None,
            cost_usd: None,
            session_id: None,
            sequence: 0,
        }
    }
}

/// Per-session recovery counters. Sessions with no faults have `recovered: None`.
#[derive(Debug, Clone)]
pub struct SessionSummary {
    pub session_id: String,
    pub request_count: u64,
    pub fault_events: u64,
    pub recovery_events: u64,
    pub recovered: Option<bool>,
}

/// Derived session-aware recovery totals.
#[derive(Debug, Clone)]
pub struct SessionAggregation {
    pub sessions: Vec<SessionSummary>,
    pub recovery_events: u64,
    pub fault_events: u64,
    pub attributed_fault_events: u64,
    pub sessions_observed: u64,
    pub recovered_sessions: u64,
    pub unrecovered_sessions: u64,
    pub unattributed_requests: u64,
}

/// Run-level totals derived from the collected records.
#[derive(Debug, Clone, Copy, PartialEq, Eq, Structural)]
pub struct RunSummary {
    pub successful_requests: u64,
    pub failed_requests: u64,
    pub budget_rejections: u64,
    pub recovery_events: u64,
    pub post_fault_successes: u64,
    pub fault_events: u64,
    pub sessions_observed: u64,
    pub recovered_sessions: u64,
    pub unrecovered_sessions: u64,
    pub unattributed_requests: u64,
    pub observed_cost_usd: MicroUsd,
}

// ---------------------------------------------------------------------------
// Specification of session attribution and recovery
// ---------------------------------------------------------------------------

/// A 2xx status.
pub open spec fn is_success_status_spec(status: u16) -> bool {
    200 <= status && status < 300
}

/// The record carries the session identifier `key`.
pub open spec fn has_session(r: RequestRecord, key: Seq<char>) -> bool {
    r.session_id matches Some(s) && s@ == key
}

/// Whether `later` recovers an earlier fault episode of `scenario`:
/// any later 2xx recovers the short-circuit faults; every other scenario
/// needs a later 2xx that was not itself faulted.
pub open spec fn qualifies_spec(scenario: Seq<char>, later: RequestRecord) -> bool {
    &&& is_success_status_spec(later.status)
    &&& (scenario == "force_500"@ || scenario == "force_429"@ || later.fault_injected is None)
}

/// The faulted record at `i` (in session `key`) is followed, in the same
/// session, by a request that recovers it.
pub open spec fn recovered_in_session(reqs: Seq<RequestRecord>, key: Seq<char>, i: int) -> bool {
    &&& has_session(reqs[i], key)
    &&& reqs[i].fault_injected is Some
    &&& exists|j: int|
        i < j < reqs.len() && has_session(#[trigger] reqs[j], key) && qualifies_spec(
            reqs[i].fault_injected->0@,
            reqs[j],
        )
}

pub open spec fn in_session_pred(reqs: Seq<RequestRecord>, key: Seq<char>) -> spec_fn(int) -> bool {
    |i: int| has_session(reqs[i], key)
}

pub open spec fn session_fault_pred(reqs: Seq<RequestRecord>, key: Seq<char>) -> spec_fn(int) -> bool {
    |i: int| has_session(reqs[i], key) && reqs[i].fault_injected is Some
}

pub open spec fn session_recovery_pred(reqs: Seq<RequestRecord>, key: Seq<char>) -> spec_fn(int) -> bool {
    |i: int| recovered_in_session(reqs, key, i)
}

/// Requests attributed to session `key`.
pub open spec fn session_request_count(reqs: Seq<RequestRecord>, key: Seq<char>) -> nat {
    count_idx(reqs.len() as int, in_session_pred(reqs, key))
}

/// Faulted requests attributed to session `key`.
pub open spec fn session_fault_count(reqs: Seq<RequestRecord>, key: Seq<char>) -> nat {
    count_idx(reqs.len() as int, session_fault_pred(reqs, key))
}

/// Faulted requests of session `key` that a later same-session request recovers.
pub open spec fn session_recovery_count(reqs: Seq<RequestRecord>, key: Seq<char>) -> nat {
    count_idx(reqs.len() as int, session_recovery_pred(reqs, key))
}

/// `s` is the summary of session `key` over `reqs`.
pub open spec fn summary_matches(s: SessionSummary, reqs: Seq<RequestRecord>, key: Seq<char>) -> bool {
    &&& s.session_id@ == key
    &&& s.request_count == session_request_count(reqs, key)
    &&& s.fault_events == session_fault_count(reqs, key)
    &&& s.recovery_events == session_recovery_count(reqs, key)
    &&& s.recovered == if s.fault_events == 0 {
        None
    } else {
        Some(s.recovery_events == s.fault_events)
    }
}

/// Distinct session identifiers in order of first appearance.
pub open spec fn session_order(reqs: Seq<RequestRecord>) -> Seq<Seq<char>>
    decreases reqs.len(),
{
    if reqs.len() == 0 {
        Seq::empty()
    } else {
        let prev = session_order(reqs.drop_last());
        match reqs.last().session_id {
            Some(s) => if prev.contains(s@) {
                prev
            } else {
                prev.push(s@)
            },
            None => prev,
        }
    }
}

pub open spec fn unattributed_pred(reqs: Seq<RequestRecord>) -> spec_fn(int) -> bool {
    |i: int| reqs[i].session_id is None
}

pub open spec fn attributed_fault_pred(reqs: Seq<RequestRecord>) -> spec_fn(int) -> bool {
    |i: int| reqs[i].session_id is Some && reqs[i].fault_injected is Some
}

pub open spec fn fault_pred(reqs: Seq<RequestRecord>) -> spec_fn(int) -> bool {
    |i: int| reqs[i].fault_injected is Some
}

pub open spec fn recovery_pred(reqs: Seq<RequestRecord>) -> spec_fn(int) -> bool {
    |i: int| reqs[i].session_id matches Some(s) && recovered_in_session(reqs, s@, i)
}

pub open spec fn recovered_flag_pred(s: Seq<SessionSummary>, flag: bool) -> spec_fn(int) -> bool {
    |k: int| s[k].recovered == Some(flag)
}

/// `a` is exactly the session aggregation of `reqs`.
pub open spec fn aggregation_matches(a: SessionAggregation, reqs: Seq<RequestRecord>) -> bool {
    let order = session_order(reqs);
    let n = reqs.len() as int;
    &&& a.sessions@.len() == order.len()
    &&& forall|k: int| 0 <= k < order.len() ==> summary_matches(#[trigger] a.sessions@[k], reqs, order[k])
    &&& a.sessions_observed == order.len()
    &&& a.unattributed_requests == count_idx(n, unattributed_pred(reqs))
    &&& a.attributed_fault_events == count_idx(n, attributed_fault_pred(reqs))
    &&& a.fault_events == count_idx(n, fault_pred(reqs))
    &&& a.recovery_events == count_idx(n, recovery_pred(reqs))
    &&& a.recovered_sessions == count_idx(order.len() as int, recovered_flag_pred(a.sessions@, true))
    &&& a.unrecovered_sessions == count_idx(order.len() as int, recovered_flag_pred(a.sessions@, false))
}

// ---------------------------------------------------------------------------
// Executable aggregation
// ---------------------------------------------------------------------------

fn is_success_status(status: u16) -> (r: bool)
    ensures
        r == is_success_status_spec(status),
{
    200 <= status && status < 300
}

/// Whether `later` can recover a prior injected-fault episode of `scenario`.
pub fn is_qualifying_recovery(scenario: &str, later: &RequestRecord) -> (r: bool)
    ensures
        r == qualifies_spec(scenario@, *later),
{
    if !is_success_status(later.status) {
        return false;
    }
    if str_eq(scenario, "force_500") || str_eq(scenario, "force_429") {
        true
    } else {
        later.fault_injected.is_none()
    }
}

fn record_in_session(r: &RequestRecord, key: &String) -> (b: bool)
    ensures
        b == has_session(*r, key@),
{
    match &r.session_id {
        Some(s) => *s == *key,
        None => false,
    }
}

/// Whether some request after `i`, in session `key`, recovers `scenario`.
fn recovered_later(requests: &[RequestRecord], key: &String, i: usize, scenario: &str) -> (b: bool)
    requires
        i < requests@.len(),
    ensures
        b == exists|j: int|
            i < j < requests@.len() && has_session(#[trigger] requests@[j], key@) && qualifies_spec(
                scenario@,
                requests@[j],
            ),
{
    let n = requests.len();
    let mut j: usize = i + 1;
    while j < n
        invariant
            n == requests@.len(),
            i < j <= requests@.len(),
            forall|m: int|
                i < m < j ==> !(has_session(#[trigger] requests@[m], key@) && qualifies_spec(
                    scenario@,
                    requests@[m],
                )),
        decreases requests@.len() - j,
    {
        if record_in_session(&requests[j], key) && is_qualifying_recovery(scenario, &requests[j]) {
            return true;
        }
        j = j + 1;
    }
    false
}

/// Summary of one session over all records, in record order.
fn summarize_session(requests: &[RequestRecord], key: &String) -> (s: SessionSummary)
    ensures
        summary_matches(s, requests@, key@),
{
    let ghost reqs = requests@;
    let mut request_count: u64 = 0;
    let mut fault_events: u64 = 0;
    let mut recovery_events: u64 = 0;
    let mut i: usize = 0;
    while i < requests.len()
        invariant
            reqs == requests@,
            i <= reqs.len(),
            request_count == count_idx(i as int, in_session_pred(reqs, key@)),
            fault_events == count_idx(i as int, session_fault_pred(reqs, key@)),
            recovery_events == count_idx(i as int, session_recovery_pred(reqs, key@)),
        decreases reqs.len() - i,
    {
        proof {
            lemma_count_idx_bound(i as int, in_session_pred(reqs, key@));
            lemma_count_idx_bound(i as int, session_fault_pred(reqs, key@));
            lemma_count_idx_bound(i as int, session_recovery_pred(reqs, key@));
        }
        if record_in_session(&requests[i], key) {
            request_count = request_count + 1;
            match &requests[i].fault_injected {
                Some(scenario) => {
                    fault_events = fault_events + 1;
                    if recovered_later(requests, key, i, scenario.as_str()) {
                        recovery_events = recovery_events + 1;
                    }
                },
                None => {},
            }
        }
        i = i + 1;
    }
    let recovered = if fault_events == 0 {
        None
    } else {
        Some(recovery_events == fault_events)
    };
    SessionSummary {
        session_id: key.clone(),
        request_count,
        fault_events,
        recovery_events,
        recovered,
    }
}

fn order_contains(order: &Vec<String>, s: &String) -> (b: bool)
    ensures
        b == order@.map_values(|x: String| x@).contains(s@),
{
    let ghost views = order@.map_values(|x: String| x@);
    let mut k: usize = 0;
    while k < order.len()
        invariant
            views == order@.map_values(|x: String| x@),
            k <= order@.len(),
            forall|m: int| 0 <= m < k ==> views[m] != s@,
        decreases order@.len() - k,
    {
        if order[k] == *s {
            assert(views[k as int] == s@);
            return true;
        }
        k = k + 1;
    }
    false
}

/// Group ordered proxy events by session and count recoveries.
///
/// A fault event is recovered only when a later request in the same session
/// is a qualifying success. Unattributed requests never create recovery.
pub fn aggregate_sessions(requests: &[RequestRecord]) -> (a: SessionAggregation)
    ensures
        aggregation_matches(a, requests@),
{
    let ghost reqs = requests@;
    let n = requests.len();
    // Distinct sessions in order of first appearance.
    let mut order: Vec<String> = Vec::new();
    let mut i: usize = 0;
    while i < n
        invariant
            n == reqs.len(),
            reqs == requests@,
            i <= n,
            order@.map_values(|x: String| x@) =~= session_order(reqs.take(i as int)),
        decreases n - i,
    {
        proof {
            assert(reqs.take(i as int + 1).drop_last() =~= reqs.take(i as int));
        }
        match &requests[i].session_id {
            Some(s) => {
                if !order_contains(&order, s) {
                    order.push(s.clone());
                }
            },
            None => {},
        }
        i = i + 1;
    }
    assert(reqs.take(n as int) =~= reqs);
    let ghost order_views = session_order(reqs);
    // Per-session summaries.
    let mut sessions: Vec<SessionSummary> = Vec::new();
    let mut k: usize = 0;
    while k < order.len()
        invariant
            order@.map_values(|x: String| x@) =~= order_views,
            order_views == session_order(reqs),
            reqs == requests@,
            k <= order@.len(),
            sessions@.len() == k,
            forall|m: int| 0 <= m < k ==> summary_matches(#[trigger] sessions@[m], reqs, order_views[m]),
        decreases order@.len() - k,
    {
        let summary = summarize_session(requests, &order[k]);
        sessions.push(summary);
        k = k + 1;
    }
    // Session outcome counters.
    let mut recovered_sessions: u64 = 0;
    let mut unrecovered_sessions: u64 = 0;
    let mut m: usize = 0;
    while m < sessions.len()
        invariant
            m <= sessions@.len(),
            sessions@.len() == order_views.len(),
            recovered_sessions == count_idx(m as int, recovered_flag_pred(sessions@, true)),
            unrecovered_sessions == count_idx(m as int, recovered_flag_pred(sessions@, false)),
        decreases sessions@.len() - m,
    {
        proof {
            lemma_count_idx_bound(m as int, recovered_flag_pred(sessions@, true));
            lemma_count_idx_bound(m as int, recovered_flag_pred(sessions@, false));
        }
        match sessions[m].recovered {
            Some(true) => {
                recovered_sessions = recovered_sessions + 1;
            },
            Some(false) => {
                unrecovered_sessions = unrecovered_sessions + 1;
            },
            None => {},
        }
        m = m + 1;
    }
    // Record-level totals.
    let mut unattributed_requests: u64 = 0;
    let mut attributed_fault_events: u64 = 0;
    let mut fault_events: u64 = 0;
    let mut recovery_events: u64 = 0;
    let mut j: usize = 0;
    while j < n
        invariant
            n == reqs.len(),
            reqs == requests@,
            j <= n,
            unattributed_requests == count_idx(j as int, unattributed_pred(reqs)),
            attributed_fault_events == count_idx(j as int, attributed_fault_pred(reqs)),
            fault_events == count_idx(j as int, fault_pred(reqs)),
            recovery_events == count_idx(j as int, recovery_pred(reqs)),
        decreases n - j,
    {
        proof {
            lemma_count_idx_bound(j as int, unattributed_pred(reqs));
            lemma_count_idx_bound(j as int, attributed_fault_pred(reqs));
            lemma_count_idx_bound(j as int, fault_pred(reqs));
            lemma_count_idx_bound(j as int, recovery_pred(reqs));
        }
        match &requests[j].fault_injected {
            Some(scenario) => {
                fault_events = fault_events + 1;
            },
            None => {},
        }
        match &requests[j].session_id {
            None => {
                unattributed_requests = unattributed_requests + 1;
            },
            Some(s) => {
                match &requests[j].fault_injected {
                    Some(scenario) => {
                        attributed_fault_events = attributed_fault_events + 1;
                        if recovered_later(requests, s, j, scenario.as_str()) {
                            recovery_events = recovery_events + 1;
                        }
                    },
                    None => {},
                }
            },
        }
        j = j + 1;
    }
    let sessions_observed = sessions.len() as u64;
    SessionAggregation {
        sessions,
        recovery_events,
        fault_events,
        attributed_fault_events,
        sessions_observed,
        recovered_sessions,
        unrecovered_sessions,
        unattributed_requests,
    }
}

// ---------------------------------------------------------------------------
// Run summary
// ---------------------------------------------------------------------------

pub open spec fn success_pred(reqs: Seq<RequestRecord>) -> spec_fn(int) -> bool {
    |i: int| is_success_status_spec(reqs[i].status)
}

pub open spec fn rejection_pred(reqs: Seq<RequestRecord>) -> spec_fn(int) -> bool {
    |i: int|
        reqs[i].budget_decision == BudgetDecision::CallCapExceeded || reqs[i].budget_decision
            == BudgetDecision::CostCapExceeded
}

/// Addition clamped at `u64::MAX`.
pub open spec fn saturating_add_spec(a: int, b: int) -> int {
    if a + b > u64::MAX {
        u64::MAX as int
    } else {
        a + b
    }
}

/// Observed cost of the first `n` records, summed with saturation.
pub open spec fn observed_cost_spec(reqs: Seq<RequestRecord>, n: int) -> int
    decreases n,
{
    if n <= 0 {
        0
    } else {
        saturating_add_spec(
            observed_cost_spec(reqs, n - 1),
            match reqs[n - 1].cost_usd {
                Some(c) => c.0 as int,
                None => 0,
            },
        )
    }
}

proof fn lemma_observed_cost_bound(reqs: Seq<RequestRecord>, n: int)
    ensures
        0 <= observed_cost_spec(reqs, n) <= u64::MAX,
    decreases n,
{
    if n > 0 {
        lemma_observed_cost_bound(reqs, n - 1);
    }
}

/// Whether session `key` recovered: `None` without faults, otherwise
/// whether every fault event of the session was recovered.
pub open spec fn session_recovered(reqs: Seq<RequestRecord>, key: Seq<char>) -> Option<bool> {
    if session_fault_count(reqs, key) == 0 {
        None
    } else {
        Some(session_recovery_count(reqs, key) == session_fault_count(reqs, key))
    }
}

/// Number of sessions whose recovery flag is `Some(flag)`.
pub open spec fn sessions_with_recovery(reqs: Seq<RequestRecord>, flag: bool) -> nat {
    let order = session_order(reqs);
    count_idx(order.len() as int, |k: int| session_recovered(reqs, order[k]) == Some(flag))
}

/// The aggregation's session outcome counters count sessions by their
/// recovery flag.
pub proof fn lemma_aggregation_recovered_sessions(a: SessionAggregation, reqs: Seq<RequestRecord>)
    requires
        aggregation_matches(a, reqs),
    ensures
        a.recovered_sessions == sessions_with_recovery(reqs, true),
        a.unrecovered_sessions == sessions_with_recovery(reqs, false),
{
    let order = session_order(reqs);
    let m = order.len() as int;
    assert forall|k: int| 0 <= k < m implies #[trigger] recovered_flag_pred(a.sessions@, true)(k)
        == (|k: int| session_recovered(reqs, order[k]) == Some(true))(k) by {
        assert(summary_matches(a.sessions@[k], reqs, order[k]));
    }
    assert forall|k: int| 0 <= k < m implies #[trigger] recovered_flag_pred(a.sessions@, false)(k)
        == (|k: int| session_recovered(reqs, order[k]) == Some(false))(k) by {
        assert(summary_matches(a.sessions@[k], reqs, order[k]));
    }
    lemma_count_idx_ext(m, recovered_flag_pred(a.sessions@, true), |k: int| session_recovered(reqs, order[k]) == Some(true));
    lemma_count_idx_ext(m, recovered_flag_pred(a.sessions@, false), |k: int| session_recovered(reqs, order[k]) == Some(false));
}

/// Only a 2xx response recovers a fault. A later 2xx recovers a
/// `force_500` or `force_429` episode even when it was itself faulted; any
/// other scenario needs a later 2xx that was not faulted.
pub proof fn law_only_success_recovers(scenario: Seq<char>, later: RequestRecord)
    ensures
        qualifies_spec(scenario, later) ==> 200 <= later.status < 300,
        (scenario == "force_500"@ || scenario == "force_429"@) ==> (qualifies_spec(scenario, later) <==> 200
            <= later.status < 300),
        !(scenario == "force_500"@ || scenario == "force_429"@) ==> (qualifies_spec(scenario, later) <==> (200
            <= later.status < 300 && later.fault_injected is None)),
{
}

/// A session none of whose requests is a 2xx recovers nothing: no recovery
/// events, and a recovery flag that is never `Some(true)`.
pub proof fn law_no_success_no_recovery(reqs: Seq<RequestRecord>, key: Seq<char>)
    requires
        forall|i: int| 0 <= i < reqs.len() && has_session(#[trigger] reqs[i], key) ==> !(200 <= reqs[i].status < 300),
    ensures
        session_recovery_count(reqs, key) == 0,
        session_recovered(reqs, key) != Some(true) || session_fault_count(reqs, key) == 0,
{
    let n = reqs.len() as int;
    assert forall|i: int| 0 <= i < n implies #[trigger] session_recovery_pred(reqs, key)(i) == (|i: int| false)(i) by {
        if recovered_in_session(reqs, key, i) {
            let j = choose|j: int|
                i < j < reqs.len() && has_session(#[trigger] reqs[j], key) && qualifies_spec(
                    reqs[i].fault_injected->0@,
                    reqs[j],
                );
            law_only_success_recovers(reqs[i].fault_injected->0@, reqs[j]);
        }
    }
    lemma_count_idx_ext(n, session_recovery_pred(reqs, key), |i: int| false);
    lemma_count_idx_zero(n);
}

/// `s` is exactly the run summary of `reqs`.
pub open spec fn run_summary_matches(s: RunSummary, reqs: Seq<RequestRecord>) -> bool {
    let n = reqs.len() as int;
    let order = session_order(reqs);
    &&& s.successful_requests == count_idx(n, success_pred(reqs))
    &&& s.failed_requests == n - count_idx(n, success_pred(reqs))
    &&& s.budget_rejections == count_idx(n, rejection_pred(reqs))
    &&& s.recovery_events == count_idx(n, recovery_pred(reqs))
    &&& s.post_fault_successes == s.recovery_events
    &&& s.fault_events == count_idx(n, fault_pred(reqs))
    &&& s.sessions_observed == order.len()
    &&& s.unattributed_requests == count_idx(n, unattributed_pred(reqs))
    &&& s.observed_cost_usd.0 == observed_cost_spec(reqs, n)
    &&& s.recovered_sessions == sessions_with_recovery(reqs, true)
    &&& s.unrecovered_sessions == sessions_with_recovery(reqs, false)
}

/// Run totals over the collected records.
pub fn summarize(requests: &[RequestRecord]) -> (s: RunSummary)
    ensures
        run_summary_matches(s, requests@),
{
    let ghost reqs = requests@;
    let n = requests.len();
    let mut successful: u64 = 0;
    let mut rejections: u64 = 0;
    let mut observed: u64 = 0;
    let mut i: usize = 0;
    while i < n
        invariant
            n == reqs.len(),
            reqs == requests@,
            i <= n,
            successful == count_idx(i as int, success_pred(reqs)),
            rejections == count_idx(i as int, rejection_pred(reqs)),
            observed == observed_cost_spec(reqs, i as int),
        decreases n - i,
    {
        proof {
            lemma_count_idx_bound(i as int, success_pred(reqs));
            lemma_count_idx_bound(i as int, rejection_pred(reqs));
        }
        if is_success_status(requests[i].status) {
            successful = successful + 1;
        }
        match requests[i].budget_decision {
            BudgetDecision::CallCapExceeded | BudgetDecision::CostCapExceeded => {
                rejections = rejections + 1;
            },
            _ => {},
        }
        match requests[i].cost_usd {
            Some(cost) => {
                observed = observed.saturating_add(cost.as_u64());
            },
            None => {},
        }
        i = i + 1;
    }
    proof {
        lemma_count_idx_bound(n as int, success_pred(reqs));
    }
    let aggregation = aggregate_sessions(requests);
    proof {
        lemma_aggregation_recovered_sessions(aggregation, reqs);
    }
    RunSummary {
        successful_requests: successful,
        failed_requests: n as u64 - successful,
        budget_rejections: rejections,
        recovery_events: aggregation.recovery_events,
        post_fault_successes: aggregation.recovery_events,
        fault_events: aggregation.fault_events,
        sessions_observed: aggregation.sessions_observed,
        recovered_sessions: aggregation.recovered_sessions,
        unrecovered_sessions: aggregation.unrecovered_sessions,
        unattributed_requests: aggregation.unattributed_requests,
        observed_cost_usd: MicroUsd::from_micro_usd(observed),
    }
}

// ---------------------------------------------------------------------------
// Laws of session recovery
// ---------------------------------------------------------------------------

/// `f(0) + ... + f(m - 1)`.
pub open spec fn sum_idx(m: int, f: spec_fn(int) -> nat) -> nat
    decreases m,
{
    if m <= 0 {
        0
    } else {
        sum_idx(m - 1, f) + f(m - 1)
    }
}

proof fn lemma_sum_split(m: int, f: spec_fn(int) -> nat, g: spec_fn(int) -> nat, h: spec_fn(int) -> nat)
    requires
        forall|k: int| 0 <= k < m ==> #[trigger] h(k) == f(k) + g(k),
    ensures
        sum_idx(m, h) == sum_idx(m, f) + sum_idx(m, g),
    decreases m,
{
    if m > 0 {
        lemma_sum_split(m - 1, f, g, h);
    }
}

/// A sum whose terms vanish except, possibly, at `k0`.
proof fn lemma_sum_single(m: int, f: spec_fn(int) -> nat, k0: int)
    requires
        forall|k: int| 0 <= k < m && k != k0 ==> #[trigger] f(k) == 0,
    ensures
        sum_idx(m, f) == if 0 <= k0 < m {
            f(k0)
        } else {
            0
        },
    decreases m,
{
    if m > 0 {
        lemma_sum_single(m - 1, f, k0);
    }
}

proof fn lemma_sum_ext(m: int, f: spec_fn(int) -> nat, g: spec_fn(int) -> nat)
    requires
        forall|k: int| 0 <= k < m ==> #[trigger] f(k) == g(k),
    ensures
        sum_idx(m, f) == sum_idx(m, g),
    decreases m,
{
    if m > 0 {
        lemma_sum_ext(m - 1, f, g);
    }
}

/// Session order lists each session once, and every session of the records.
proof fn lemma_session_order_props(reqs: Seq<RequestRecord>)
    ensures
        session_order(reqs).no_duplicates(),
        forall|i: int|
            0 <= i < reqs.len() && (#[trigger] reqs[i]).session_id is Some ==> session_order(
                reqs,
            ).contains(reqs[i].session_id->0@),
    decreases reqs.len(),
{
    if reqs.len() > 0 {
        let prev = reqs.drop_last();
        lemma_session_order_props(prev);
        let po = session_order(prev);
        assert forall|i: int|
            0 <= i < reqs.len() && (#[trigger] reqs[i]).session_id is Some implies session_order(
                reqs,
            ).contains(reqs[i].session_id->0@) by {
            if i < prev.len() {
                assert(prev[i] == reqs[i]);
                assert(po.contains(reqs[i].session_id->0@));
                if !(session_order(reqs) == po) {
                    let j = choose|j: int| 0 <= j < po.len() && po[j] == reqs[i].session_id->0@;
                    assert(session_order(reqs)[j] == po[j]);
                }
            } else {
                if !po.contains(reqs.last().session_id->0@) {
                    assert(session_order(reqs)[po.len() as int] == reqs.last().session_id->0@);
                }
            }
        }
    }
}

/// Counting per session and adding over the sessions counts every
/// attributed record once.
proof fn lemma_partition(reqs: Seq<RequestRecord>, fam: spec_fn(Seq<char>) -> spec_fn(int) -> bool, n: int)
    requires
        0 <= n <= reqs.len(),
        forall|key: Seq<char>, i: int| #[trigger] fam(key)(i) ==> has_session(reqs[i], key),
    ensures
        sum_idx(
            session_order(reqs).len() as int,
            |k: int| count_idx(n, fam(session_order(reqs)[k])),
        ) == count_idx(n, |i: int| reqs[i].session_id matches Some(s) && fam(s@)(i)),
    decreases n,
{
    let order = session_order(reqs);
    let m = order.len() as int;
    lemma_session_order_props(reqs);
    if n == 0 {
        lemma_sum_single(m, |k: int| count_idx(0, fam(order[k])), -1);
    } else {
        lemma_partition(reqs, fam, n - 1);
        let prev = |k: int| count_idx(n - 1, fam(order[k]));
        let delta = |k: int| if fam(order[k])(n - 1) { 1nat } else { 0nat };
        let cur = |k: int| count_idx(n, fam(order[k]));
        assert forall|k: int| 0 <= k < m implies #[trigger] cur(k) == prev(k) + delta(k) by {}
        lemma_sum_split(m, prev, delta, cur);
        let r = reqs[n - 1];
        match r.session_id {
            Some(sid) => {
                assert(order.contains(sid@));
                let k0 = choose|k: int| 0 <= k < m && order[k] == sid@;
                assert forall|k: int| 0 <= k < m && k != k0 implies #[trigger] delta(k) == 0 by {
                    if fam(order[k])(n - 1) {
                        assert(has_session(reqs[n - 1], order[k]));
                        assert(order[k] == order[k0]);
                    }
                }
                lemma_sum_single(m, delta, k0);
            },
            None => {
                assert forall|k: int| 0 <= k < m && k != -1 implies #[trigger] delta(k) == 0 by {
                    if fam(order[k])(n - 1) {
                        assert(has_session(reqs[n - 1], order[k]));
                    }
                }
                lemma_sum_single(m, delta, -1);
            },
        }
    }
}

/// `count(p) == count(p && q) + count(p && !q)`.
proof fn lemma_count_idx_split(n: int, p: spec_fn(int) -> bool, q: spec_fn(int) -> bool)
    ensures
        count_idx(n, p) == count_idx(n, |i: int| p(i) && q(i)) + count_idx(n, |i: int| p(i) && !q(i)),
    decreases n,
{
    if n > 0 {
        lemma_count_idx_split(n - 1, p, q);
    }
}

/// The run's totals are sums of the per-session counts: attributed fault
/// events and recovered events add up over the sessions, every fault event
/// is attributed or unattributed, and every request belongs to exactly one
/// session or is unattributed.
pub proof fn law_aggregation_totals(a: SessionAggregation, reqs: Seq<RequestRecord>)
    requires
        aggregation_matches(a, reqs),
    ensures
        a.attributed_fault_events == sum_idx(a.sessions@.len() as int, |k: int| a.sessions@[k].fault_events as nat),
        a.recovery_events == sum_idx(a.sessions@.len() as int, |k: int| a.sessions@[k].recovery_events as nat),
        a.fault_events == a.attributed_fault_events + count_idx(
            reqs.len() as int,
            |i: int| reqs[i].session_id is None && reqs[i].fault_injected is Some,
        ),
        reqs.len() == sum_idx(a.sessions@.len() as int, |k: int| a.sessions@[k].request_count as nat)
            + a.unattributed_requests,
{
    let n = reqs.len() as int;
    let order = session_order(reqs);
    let m = order.len() as int;
    let ss = a.sessions@;
    // Fault events.
    let ff = |key: Seq<char>| session_fault_pred(reqs, key);
    lemma_partition(reqs, ff, n);
    let ff_l = |k: int| count_idx(n, ff(order[k]));
    let ff_r = |k: int| ss[k].fault_events as nat;
    assert forall|k: int| 0 <= k < m implies #[trigger] ff_l(k) == ff_r(k) by {
        assert(summary_matches(ss[k], reqs, order[k]));
    }
    lemma_sum_ext(m, ff_l, ff_r);
    lemma_count_idx_ext(n, |i: int| reqs[i].session_id matches Some(s) && ff(s@)(i), attributed_fault_pred(reqs));
    // Recovery events.
    let rf = |key: Seq<char>| session_recovery_pred(reqs, key);
    lemma_partition(reqs, rf, n);
    let rf_l = |k: int| count_idx(n, rf(order[k]));
    let rf_r = |k: int| ss[k].recovery_events as nat;
    assert forall|k: int| 0 <= k < m implies #[trigger] rf_l(k) == rf_r(k) by {
        assert(summary_matches(ss[k], reqs, order[k]));
    }
    lemma_sum_ext(m, rf_l, rf_r);
    lemma_count_idx_ext(n, |i: int| reqs[i].session_id matches Some(s) && rf(s@)(i), recovery_pred(reqs));
    // Requests.
    let inf = |key: Seq<char>| in_session_pred(reqs, key);
    lemma_partition(reqs, inf, n);
    let inf_l = |k: int| count_idx(n, inf(order[k]));
    let inf_r = |k: int| ss[k].request_count as nat;
    assert forall|k: int| 0 <= k < m implies #[trigger] inf_l(k) == inf_r(k) by {
        assert(summary_matches(ss[k], reqs, order[k]));
    }
    lemma_sum_ext(m, inf_l, inf_r);
    let all = |i: int| true;
    let some = |i: int| reqs[i].session_id is Some;
    lemma_count_idx_split(n, all, some);
    lemma_count_idx_all(n);
    lemma_count_idx_ext(n, |i: int| all(i) && some(i), |i: int| reqs[i].session_id matches Some(s) && inf(s@)(i));
    lemma_count_idx_ext(n, |i: int| all(i) && !some(i), unattributed_pred(reqs));
    // Fault split.
    lemma_count_idx_split(n, fault_pred(reqs), some);
    lemma_count_idx_ext(n, |i: int| fault_pred(reqs)(i) && some(i), attributed_fault_pred(reqs));
    lemma_count_idx_ext(
        n,
        |i: int| fault_pred(reqs)(i) && !some(i),
        |i: int| reqs[i].session_id is None && reqs[i].fault_injected is Some,
    );
}

/// Within a session, recovered fault events never outnumber fault events,
/// and fault events never outnumber the session's requests.
pub proof fn law_session_recovery_bounded(reqs: Seq<RequestRecord>, key: Seq<char>)
    ensures
        session_recovery_count(reqs, key) <= session_fault_count(reqs, key),
        session_fault_count(reqs, key) <= session_request_count(reqs, key),
        session_request_count(reqs, key) <= reqs.len(),
{
    let n = reqs.len() as int;
    lemma_count_idx_mono(n, session_recovery_pred(reqs, key), session_fault_pred(reqs, key));
    lemma_count_idx_mono(n, session_fault_pred(reqs, key), in_session_pred(reqs, key));
    lemma_count_idx_bound(n, in_session_pred(reqs, key));
}

/// Across the run, recovered fault events never outnumber attributed fault
/// events, which never outnumber all fault events.
pub proof fn law_recovery_bounded_by_faults(reqs: Seq<RequestRecord>)
    ensures
        count_idx(reqs.len() as int, recovery_pred(reqs)) <= count_idx(
            reqs.len() as int,
            attributed_fault_pred(reqs),
        ),
        count_idx(reqs.len() as int, attributed_fault_pred(reqs)) <= count_idx(
            reqs.len() as int,
            fault_pred(reqs),
        ),
{
    let n = reqs.len() as int;
    lemma_count_idx_mono(n, recovery_pred(reqs), attributed_fault_pred(reqs));
    lemma_count_idx_mono(n, attributed_fault_pred(reqs), fault_pred(reqs));
}

proof fn lemma_session_order_empty(reqs: Seq<RequestRecord>)
    requires
        forall|i: int| 0 <= i < reqs.len() ==> (#[trigger] reqs[i]).session_id is None,
    ensures
        session_order(reqs).len() == 0,
    decreases reqs.len(),
{
    if reqs.len() > 0 {
        lemma_session_order_empty(reqs.drop_last());
    }
}

/// Traffic without session identifiers observes no sessions and never
/// creates inferred recovery: every request counts as unattributed.
pub proof fn law_unattributed_never_recovers(reqs: Seq<RequestRecord>)
    requires
        forall|i: int| 0 <= i < reqs.len() ==> (#[trigger] reqs[i]).session_id is None,
    ensures
        session_order(reqs).len() == 0,
        count_idx(reqs.len() as int, recovery_pred(reqs)) == 0,
        count_idx(reqs.len() as int, unattributed_pred(reqs)) == reqs.len(),
{
    let n = reqs.len() as int;
    lemma_session_order_empty(reqs);
    lemma_count_idx_ext(n, recovery_pred(reqs), |i: int| false);
    lemma_count_idx_zero(n);
    lemma_count_idx_ext(n, unattributed_pred(reqs), |i: int| true);
    lemma_count_idx_all(n);
}

proof fn lemma_count_idx_zero(n: int)
    ensures
        count_idx(n, |i: int| false) == 0,
    decreases n,
{
    if n > 0 {
        lemma_count_idx_zero(n - 1);
    }
}

proof fn lemma_count_idx_all(n: int)
    requires
        n >= 0,
    ensures
        count_idx(n, |i: int| true) == n,
    decreases n,
{
    if n > 0 {
        lemma_count_idx_all(n - 1);
    }
}

/// Requests of other sessions, appended after a session's requests, change
/// none of that session's counters: recovery is attributed per session.
pub proof fn law_other_sessions_do_not_affect(
    reqs: Seq<RequestRecord>,
    others: Seq<RequestRecord>,
    key: Seq<char>,
)
    requires
        forall|i: int| 0 <= i < others.len() ==> !has_session(#[trigger] others[i], key),
    ensures
        session_request_count(reqs + others, key) == session_request_count(reqs, key),
        session_fault_count(reqs + others, key) == session_fault_count(reqs, key),
        session_recovery_count(reqs + others, key) == session_recovery_count(reqs, key),
{
    let all = reqs + others;
    let n = reqs.len() as int;
    assert forall|i: int| 0 <= i < all.len() && i >= n implies !has_session(#[trigger] all[i], key) by {
        assert(all[i] == others[i - n]);
    }
    assert forall|i: int| 0 <= i < n implies #[trigger] recovered_in_session(all, key, i)
        == recovered_in_session(reqs, key, i) by {
        assert(all[i] == reqs[i]);
        if recovered_in_session(all, key, i) {
            let j = choose|j: int|
                i < j < all.len() && has_session(#[trigger] all[j], key) && qualifies_spec(
                    all[i].fault_injected->0@,
                    all[j],
                );
            assert(j < n);
            assert(all[j] == reqs[j]);
        }
        if recovered_in_session(reqs, key, i) {
            let j = choose|j: int|
                i < j < reqs.len() && has_session(#[trigger] reqs[j], key) && qualifies_spec(
                    reqs[i].fault_injected->0@,
                    reqs[j],
                );
            assert(all[j] == reqs[j]);
        }
    }
    lemma_count_idx_prefix(all.len() as int, n, in_session_pred(all, key));
    lemma_count_idx_prefix(all.len() as int, n, session_fault_pred(all, key));
    lemma_count_idx_prefix(all.len() as int, n, session_recovery_pred(all, key));
    assert forall|i: int| 0 <= i < n implies #[trigger] in_session_pred(all, key)(i) == in_session_pred(reqs, key)(i) by {
        assert(all[i] == reqs[i]);
    }
    assert forall|i: int| 0 <= i < n implies #[trigger] session_fault_pred(all, key)(i) == session_fault_pred(reqs, key)(i) by {
        assert(all[i] == reqs[i]);
    }
    lemma_count_idx_ext(n, in_session_pred(all, key), in_session_pred(reqs, key));
    lemma_count_idx_ext(n, session_fault_pred(all, key), session_fault_pred(reqs, key));
    lemma_count_idx_ext(n, session_recovery_pred(all, key), session_recovery_pred(reqs, key));
}

/// Counting from the first index instead of the last.
proof fn lemma_count_idx_shift(n: int, p: spec_fn(int) -> bool, q: spec_fn(int) -> bool)
    requires
        n >= 1,
        forall|i: int| 0 <= i < n - 1 ==> #[trigger] q(i) == p(i + 1),
    ensures
        count_idx(n, p) == (if p(0) { 1nat } else { 0nat }) + count_idx(n - 1, q),
    decreases n,
{
    if n > 1 {
        lemma_count_idx_shift(n - 1, p, q);
        assert(q(n - 2) == p(n - 1));
        assert(count_idx(n - 1, q) == count_idx(n - 2, q) + if q(n - 2) { 1nat } else { 0nat });
        assert(count_idx(n, p) == count_idx(n - 1, p) + if p(n - 1) { 1nat } else { 0nat });
    } else {
        assert(count_idx(0, q) == 0);
        assert(count_idx(1, p) == count_idx(0, p) + if p(0) { 1nat } else { 0nat });
        assert(count_idx(0, p) == 0);
    }
}

/// Some record of `reqs` in session `key` recovers a fault of `scenario`.
pub open spec fn any_recovery_in(reqs: Seq<RequestRecord>, key: Seq<char>, scenario: Seq<char>) -> bool {
    exists|j: int| 0 <= j < reqs.len() && has_session(#[trigger] reqs[j], key) && qualifies_spec(scenario, reqs[j])
}

/// A session's three counters over the records after the first are those
/// over all records, less what the first record contributes.
proof fn lemma_session_counts_shift(reqs: Seq<RequestRecord>, key: Seq<char>)
    requires
        reqs.len() >= 1,
    ensures
        ({
            let r0 = reqs[0];
            let rest = reqs.drop_first();
            let here = has_session(r0, key);
            let faulted = here && r0.fault_injected is Some;
            &&& session_request_count(reqs, key) == (if here { 1nat } else { 0nat })
                + session_request_count(rest, key)
            &&& session_fault_count(reqs, key) == (if faulted { 1nat } else { 0nat })
                + session_fault_count(rest, key)
            &&& session_recovery_count(reqs, key) == (if faulted && any_recovery_in(
                rest,
                key,
                r0.fault_injected->0@,
            ) {
                1nat
            } else {
                0nat
            }) + session_recovery_count(rest, key)
        }),
{
    let n = reqs.len() as int;
    let rest = reqs.drop_first();
    assert forall|i: int| 0 <= i < n - 1 implies #[trigger] in_session_pred(rest, key)(i)
        == in_session_pred(reqs, key)(i + 1) by {
        assert(rest[i] == reqs[i + 1]);
    }
    assert forall|i: int| 0 <= i < n - 1 implies #[trigger] session_fault_pred(rest, key)(i)
        == session_fault_pred(reqs, key)(i + 1) by {
        assert(rest[i] == reqs[i + 1]);
    }
    assert forall|i: int| 0 <= i < n - 1 implies #[trigger] session_recovery_pred(rest, key)(i)
        == session_recovery_pred(reqs, key)(i + 1) by {
        assert(rest[i] == reqs[i + 1]);
        if recovered_in_session(rest, key, i) {
            let j = choose|j: int|
                i < j < rest.len() && has_session(#[trigger] rest[j], key) && qualifies_spec(
                    rest[i].fault_injected->0@,
                    rest[j],
                );
            assert(reqs[j + 1] == rest[j]);
        }
        if recovered_in_session(reqs, key, i + 1) {
            let j = choose|j: int|
                i + 1 < j < reqs.len() && has_session(#[trigger] reqs[j], key) && qualifies_spec(
                    reqs[i + 1].fault_injected->0@,
                    reqs[j],
                );
            assert(rest[j - 1] == reqs[j]);
        }
    }
    if recovered_in_session(reqs, key, 0) {
        let j = choose|j: int|
            0 < j < reqs.len() && has_session(#[trigger] reqs[j], key) && qualifies_spec(
                reqs[0].fault_injected->0@,
                reqs[j],
            );
        assert(rest[j - 1] == reqs[j]);
    }
    if has_session(reqs[0], key) && reqs[0].fault_injected is Some && any_recovery_in(
        rest,
        key,
        reqs[0].fault_injected->0@,
    ) {
        let j = choose|j: int|
            0 <= j < rest.len() && has_session(#[trigger] rest[j], key) && qualifies_spec(
                reqs[0].fault_injected->0@,
                rest[j],
            );
        assert(reqs[j + 1] == rest[j]);
    }
    lemma_count_idx_shift(n, in_session_pred(reqs, key), in_session_pred(rest, key));
    lemma_count_idx_shift(n, session_fault_pred(reqs, key), session_fault_pred(rest, key));
    lemma_count_idx_shift(n, session_recovery_pred(reqs, key), session_recovery_pred(rest, key));
}

/// The records of session `key`, in order.
pub open spec fn session_records(reqs: Seq<RequestRecord>, key: Seq<char>) -> Seq<RequestRecord> {
    reqs.filter(|r: RequestRecord| has_session(r, key))
}

proof fn lemma_any_recovery_filter(reqs: Seq<RequestRecord>, key: Seq<char>, scenario: Seq<char>)
    ensures
        any_recovery_in(reqs, key, scenario) == any_recovery_in(session_records(reqs, key), key, scenario),
{
    let p = |r: RequestRecord| has_session(r, key);
    let f = reqs.filter(p);
    broadcast use vstd::seq_lib::group_filter_ensures;

    if any_recovery_in(reqs, key, scenario) {
        let j = choose|j: int| 0 <= j < reqs.len() && has_session(#[trigger] reqs[j], key) && qualifies_spec(scenario, reqs[j]);
        assert(p(reqs[j]));
        assert(f.contains(reqs[j]));
        let k = choose|k: int| 0 <= k < f.len() && f[k] == reqs[j];
        assert(has_session(f[k], key) && qualifies_spec(scenario, f[k]));
    }
    if any_recovery_in(f, key, scenario) {
        let k = choose|k: int| 0 <= k < f.len() && has_session(#[trigger] f[k], key) && qualifies_spec(scenario, f[k]);
        lemma_filter_in_source(reqs, p, k);
        let j = choose|j: int| 0 <= j < reqs.len() && reqs[j] == f[k];
        assert(has_session(reqs[j], key) && qualifies_spec(scenario, reqs[j]));
    }
}

/// A session's counters are those of its own records alone.
proof fn lemma_session_counts_own_records(reqs: Seq<RequestRecord>, key: Seq<char>)
    ensures
        session_request_count(reqs, key) == session_request_count(session_records(reqs, key), key),
        session_fault_count(reqs, key) == session_fault_count(session_records(reqs, key), key),
        session_recovery_count(reqs, key) == session_recovery_count(session_records(reqs, key), key),
    decreases reqs.len(),
{
    broadcast use Seq::filter_distributes_over_add;

    let p = |r: RequestRecord| has_session(r, key);
    let g = session_records(reqs, key);
    if reqs.len() == 0 {
        assert(g =~= Seq::<RequestRecord>::empty()) by {
            reveal(Seq::filter);
        }
    } else {
        let r0 = reqs[0];
        let rest = reqs.drop_first();
        lemma_session_counts_own_records(rest, key);
        lemma_session_counts_shift(reqs, key);
        assert(reqs =~= seq![r0] + rest);
        assert(g == seq![r0].filter(p) + rest.filter(p));
        assert(seq![r0].filter(p) =~= if p(r0) { seq![r0] } else { Seq::<RequestRecord>::empty() }) by {
            reveal_with_fuel(Seq::filter, 2);
            assert(seq![r0].drop_last() =~= Seq::<RequestRecord>::empty());
        }
        if p(r0) {
            assert(g =~= seq![r0] + rest.filter(p));
            assert(g[0] == r0);
            assert(g.drop_first() =~= rest.filter(p));
            lemma_session_counts_shift(g, key);
            lemma_any_recovery_filter(rest, key, r0.fault_injected->0@);
            let gr = rest.filter(p);
            assert(session_records(gr, key) == gr.filter(p));
            broadcast use vstd::seq_lib::group_filter_ensures;
            assert(gr.filter(p) =~= gr) by {
                lemma_filter_all(gr, p);
            }
        } else {
            assert(g =~= rest.filter(p));
        }
    }
}

/// Every record kept by a filter comes from the filtered sequence.
proof fn lemma_filter_in_source(s: Seq<RequestRecord>, pred: spec_fn(RequestRecord) -> bool, i: int)
    requires
        0 <= i < s.filter(pred).len(),
    ensures
        exists|j: int| 0 <= j < s.len() && s[j] == s.filter(pred)[i],
    decreases s.len(),
{
    reveal(Seq::filter);
    if s.len() > 0 {
        let prev = s.drop_last().filter(pred);
        if i < prev.len() {
            lemma_filter_in_source(s.drop_last(), pred, i);
            let j = choose|j: int| 0 <= j < s.drop_last().len() && s.drop_last()[j] == prev[i];
            assert(s[j] == s.filter(pred)[i]);
        } else {
            assert(s[s.len() - 1] == s.filter(pred)[i]);
        }
    }
}

proof fn lemma_filter_all(s: Seq<RequestRecord>, p: spec_fn(RequestRecord) -> bool)
    requires
        forall|i: int| 0 <= i < s.len() ==> p(#[trigger] s[i]),
    ensures
        s.filter(p) == s,
    decreases s.len(),
{
    reveal(Seq::filter);
    if s.len() > 0 {
        lemma_filter_all(s.drop_last(), p);
        assert(s.drop_last().push(s.last()) =~= s);
    } else {
        assert(s.filter(p) =~= s);
    }
}

/// A session's counters depend on its own records alone: two runs whose
/// records of session `key` are the same, in the same order, give the
/// session the same request, fault and recovery counts and the same
/// recovery flag, however other sessions' and unattributed records are
/// interleaved among them.
pub proof fn law_session_independent_of_interleaving(a: Seq<RequestRecord>, b: Seq<RequestRecord>, key: Seq<char>)
    requires
        session_records(a, key) == session_records(b, key),
    ensures
        session_request_count(a, key) == session_request_count(b, key),
        session_fault_count(a, key) == session_fault_count(b, key),
        session_recovery_count(a, key) == session_recovery_count(b, key),
        session_recovered(a, key) == session_recovered(b, key),
{
    lemma_session_counts_own_records(a, key);
    lemma_session_counts_own_records(b, key);
}

/// Every session in the order is the session of some record.
proof fn lemma_session_order_from_records(reqs: Seq<RequestRecord>)
    ensures
        forall|k: int|
            0 <= k < session_order(reqs).len() ==> exists|i: int|
                0 <= i < reqs.len() && has_session(reqs[i], #[trigger] session_order(reqs)[k]),
    decreases reqs.len(),
{
    if reqs.len() > 0 {
        let prev = reqs.drop_last();
        lemma_session_order_from_records(prev);
        let po = session_order(prev);
        let o = session_order(reqs);
        assert forall|k: int| 0 <= k < o.len() implies exists|i: int|
            0 <= i < reqs.len() && has_session(reqs[i], #[trigger] o[k]) by {
            if k < po.len() {
                assert(o[k] == po[k]);
                let i = choose|i: int| 0 <= i < prev.len() && has_session(prev[i], po[k]);
                assert(reqs[i] == prev[i]);
            } else {
                assert(has_session(reqs[reqs.len() - 1], o[k]));
            }
        }
    }
}

/// `m` interleaves `a` and `b`: both appear in it in their own order, and
/// nothing else does.
pub open spec fn is_interleaving(m: Seq<RequestRecord>, a: Seq<RequestRecord>, b: Seq<RequestRecord>) -> bool
    decreases m.len(),
{
    if m.len() == 0 {
        a.len() == 0 && b.len() == 0
    } else {
        ||| a.len() > 0 && m.last() == a.last() && is_interleaving(m.drop_last(), a.drop_last(), b)
        ||| b.len() > 0 && m.last() == b.last() && is_interleaving(m.drop_last(), a, b.drop_last())
    }
}

/// Interleaving records of other sessions leaves a session's own records,
/// in order, as they were.
proof fn lemma_interleaving_records(m: Seq<RequestRecord>, a: Seq<RequestRecord>, b: Seq<RequestRecord>, key: Seq<char>)
    requires
        is_interleaving(m, a, b),
        forall|j: int| 0 <= j < b.len() ==> !has_session(#[trigger] b[j], key),
    ensures
        session_records(m, key) == session_records(a, key),
    decreases m.len(),
{
    broadcast use Seq::lemma_filter_push;

    let p = |r: RequestRecord| has_session(r, key);
    if m.len() == 0 {
        assert(m =~= a);
    } else if a.len() > 0 && m.last() == a.last() && is_interleaving(m.drop_last(), a.drop_last(), b) {
        lemma_interleaving_records(m.drop_last(), a.drop_last(), b, key);
        assert(m == m.drop_last().push(m.last()));
        assert(a == a.drop_last().push(a.last()));
        assert(m.filter(p) == m.drop_last().filter(p).push(m.last()) || m.filter(p) == m.drop_last().filter(p));
    } else {
        let b2 = b.drop_last();
        assert forall|j: int| 0 <= j < b2.len() implies !has_session(#[trigger] b2[j], key) by {
            assert(b2[j] == b[j]);
        }
        lemma_interleaving_records(m.drop_last(), a, b2, key);
        assert(m == m.drop_last().push(m.last()));
        assert(!has_session(b[b.len() - 1], key));
    }
}

/// Two session summaries for the same session with the same counts and
/// recovery flag.
pub open spec fn same_summary(s: SessionSummary, t: SessionSummary) -> bool {
    &&& t.session_id@ == s.session_id@
    &&& t.request_count == s.request_count
    &&& t.fault_events == s.fault_events
    &&& t.recovery_events == s.recovery_events
    &&& t.recovered == s.recovered
}

/// Merging a run with records of other sessions (or none) changes none of
/// its session summaries: every summary of the run occurs, with the same
/// session and the same counts and recovery flag, among those of the
/// merged run.
pub proof fn law_run_interleaving_keeps_summaries(
    requests: Seq<RequestRecord>,
    extras: Seq<RequestRecord>,
    merged: Seq<RequestRecord>,
    a: SessionAggregation,
    b: SessionAggregation,
)
    requires
        is_interleaving(merged, requests, extras),
        forall|i: int, j: int|
            0 <= i < requests.len() && 0 <= j < extras.len() ==> !(#[trigger] extras[j].session_id matches Some(y)
                && has_session(#[trigger] requests[i], y@)),
        aggregation_matches(a, requests),
        aggregation_matches(b, merged),
    ensures
        forall|k: int|
            0 <= k < a.sessions@.len() ==> exists|k2: int|
                0 <= k2 < b.sessions@.len() && same_summary(#[trigger] a.sessions@[k], b.sessions@[k2]),
{
    broadcast use vstd::seq_lib::group_filter_ensures;

    let oa = session_order(requests);
    let ob = session_order(merged);
    lemma_session_order_from_records(requests);
    lemma_session_order_props(merged);
    assert forall|k: int| 0 <= k < a.sessions@.len() implies exists|k2: int|
        0 <= k2 < b.sessions@.len() && same_summary(#[trigger] a.sessions@[k], b.sessions@[k2]) by {
        let key = oa[k];
        let i = choose|i: int| 0 <= i < requests.len() && has_session(requests[i], key);
        assert forall|j: int| 0 <= j < extras.len() implies !has_session(#[trigger] extras[j], key) by {
            if has_session(extras[j], key) {
                assert(extras[j].session_id matches Some(y) && has_session(requests[i], y@));
            }
        }
        lemma_interleaving_records(merged, requests, extras, key);
        let p = |r: RequestRecord| has_session(r, key);
        assert(p(requests[i]));
        assert(session_records(requests, key).contains(requests[i]));
        let f = session_records(merged, key);
        let t = choose|t: int| 0 <= t < f.len() && f[t] == requests[i];
        lemma_filter_in_source(merged, p, t);
        let j = choose|j: int| 0 <= j < merged.len() && merged[j] == f[t];
        assert(merged[j].session_id is Some);
        assert(ob.contains(key));
        let k2 = choose|k2: int| 0 <= k2 < ob.len() && ob[k2] == key;
        law_session_independent_of_interleaving(requests, merged, key);
        assert(summary_matches(a.sessions@[k], requests, key));
        assert(summary_matches(b.sessions@[k2], merged, key));
        assert(same_summary(a.sessions@[k], b.sessions@[k2]));
    }
}

/// Counting stops growing past the last index where the predicate holds.
proof fn lemma_count_idx_prefix(m: int, n: int, p: spec_fn(int) -> bool)
    requires
        0 <= n <= m,
        forall|i: int| n <= i < m ==> !#[trigger] p(i),
    ensures
        count_idx(m, p) == count_idx(n, p),
    decreases m - n,
{
    if m > n {
        lemma_count_idx_prefix(m - 1, n, p);
    }
}

// ---------------------------------------------------------------------------
// Observations, events and the collector
// ---------------------------------------------------------------------------

/// Schema version of the reports this collector writes.
pub const REPORT_SCHEMA_VERSION: &'static str = "0.2";

/// The earlier schema version, whose reports stay readable.
pub const REPORT_SCHEMA_VERSION_V01: &'static str = "0.1";

/// Fields collected for one proxy observation before it becomes a
/// [`RequestRecord`]; session attribution is an already validated
/// identifier, or `None` for unattributed traffic.
#[derive(Debug, Clone)]
pub struct RequestObservation {
    pub path: String,
    pub status: u16,
    pub latency_ms: u64,
    pub fault_injected: Option<String>,
    pub billable: bool,
    pub model: Option<String>,
    pub call_number: Option<u64>,
    pub budget_decision: BudgetDecision,
    pub usage: Option<UsageOutcome>,
    pub cost_usd: Option<MicroUsd>,
    pub session_id: Option<String>,
}

impl RequestObservation {
    /// A request that is not an LLM call: no model, call number, usage or cost.
    pub fn non_billable(
        path: String,
        status: u16,
        latency_ms: u64,
        fault_injected: Option<String>,
        session_id: Option<String>,
    ) -> (o: RequestObservation)
        ensures
            o.path == path,
            o.status == status,
            o.latency_ms == latency_ms,
            o.fault_injected == fault_injected,
            !o.billable,
            o.model is None,
            o.call_number is None,
            o.budget_decision == BudgetDecision::NotBillable,
            o.usage is None,
            o.cost_usd is None,
            o.session_id == session_id,
    {
        RequestObservation {
            path,
            status,
            latency_ms,
            fault_injected,
            billable: false,
            model: None,
            call_number: None,
            budget_decision: BudgetDecision::NotBillable,
            usage: None,
            cost_usd: None,
            session_id,
        }
    }

    /// A billable chat-completion request, as the pipeline saw it.
    pub fn billable(
        path: String,
        status: u16,
        latency_ms: u64,
        fault_injected: Option<String>,
        model: Option<String>,
        call_number: Option<u64>,
        budget_decision: BudgetDecision,
        usage: Option<UsageOutcome>,
        cost_usd: Option<MicroUsd>,
        session_id: Option<String>,
    ) -> (o: RequestObservation)
        ensures
            o.path == path,
            o.status == status,
            o.latency_ms == latency_ms,
            o.fault_injected == fault_injected,
            o.billable,
            o.model == model,
            o.call_number == call_number,
            o.budget_decision == budget_decision,
            o.usage == usage,
            o.cost_usd == cost_usd,
            o.session_id == session_id,
    {
        RequestObservation {
            path,
            status,
            latency_ms,
            fault_injected,
            billable: true,
            model,
            call_number,
            budget_decision,
            usage,
            cost_usd,
            session_id,
        }
    }

    /// A billable or a non-billable observation, as `billable` says; the
    /// billable fields are dropped from a non-billable one.
    pub fn from_details(
        path: String,
        status: u16,
        latency_ms: u64,
        fault_injected: Option<String>,
        billable: bool,
        model: Option<String>,
        call_number: Option<u64>,
        budget_decision: BudgetDecision,
        usage: Option<UsageOutcome>,
        cost_usd: Option<MicroUsd>,
        session_id: Option<String>,
    ) -> (o: RequestObservation)
        ensures
            o.path == path,
            o.status == status,
            o.latency_ms == latency_ms,
            o.fault_injected == fault_injected,
            o.billable == billable,
            o.model == if billable { model } else { None },
            o.call_number == if billable { call_number } else { None },
            o.budget_decision == if billable { budget_decision } else { BudgetDecision::NotBillable },
            o.usage == if billable { usage } else { None },
            o.cost_usd == if billable { cost_usd } else { None },
            o.session_id == session_id,
    {
        if billable {
            RequestObservation::billable(
                path,
                status,
                latency_ms,
                fault_injected,
                model,
                call_number,
                budget_decision,
                usage,
                cost_usd,
                session_id,
            )
        } else {
            RequestObservation::non_billable(path, status, latency_ms, fault_injected, session_id)
        }
    }

    /// The record of this observation, not yet numbered.
    pub fn into_record(self) -> (r: RequestRecord)
        ensures
            r.path == self.path,
            r.status == self.status,
            r.latency_ms == self.latency_ms,
            r.fault_injected == self.fault_injected,
            r.billable == self.billable,
            r.model == self.model,
            r.call_number == self.call_number,
            r.budget_decision == self.budget_decision,
            r.usage == self.usage,
            r.cost_usd == self.cost_usd,
            r.session_id == self.session_id,
            r.sequence == 0,
    {
        RequestRecord {
            path: self.path,
            status: self.status,
            latency_ms: self.latency_ms,
            fault_injected: self.fault_injected,
            billable: self.billable,
            model: self.model,
            call_number: self.call_number,
            budget_decision: self.budget_decision,
            usage: self.usage,
            cost_usd: self.cost_usd,
            session_id: self.session_id,
            sequence: 0,
        }
    }
}

/// What the collector receives: a request record, or the request to shut
/// down with the run's final budget and pricing metadata.
#[derive(Debug, Clone)]
pub enum ReportEvent {
    Request { record: RequestRecord },
    Shutdown {
        budget_snapshot: Option<BudgetSnapshot>,
        pricing_registry_version: Option<String>,
    },
}

/// The sequence number of the record accepted at 0-based position `i`:
/// `i + 1`, saturating.
pub open spec fn sequence_at(i: int) -> u64 {
    if i + 1 > u64::MAX {
        u64::MAX
    } else {
        (i + 1) as u64
    }
}

/// Latency of the first `n` records, summed with saturation.
pub open spec fn latency_total(reqs: Seq<RequestRecord>, n: int) -> int
    decreases n,
{
    if n <= 0 {
        0
    } else {
        saturating_add_spec(latency_total(reqs, n - 1), reqs[n - 1].latency_ms as int)
    }
}

/// `r` is `record` numbered `sequence`.
pub open spec fn numbered(r: RequestRecord, record: RequestRecord, sequence: u64) -> bool {
    &&& r.path == record.path
    &&& r.status == record.status
    &&& r.latency_ms == record.latency_ms
    &&& r.fault_injected == record.fault_injected
    &&& r.billable == record.billable
    &&& r.model == record.model
    &&& r.call_number == record.call_number
    &&& r.budget_decision == record.budget_decision
    &&& r.usage == record.usage
    &&& r.cost_usd == record.cost_usd
    &&& r.session_id == record.session_id
    &&& r.sequence == sequence
}

pub open spec fn billable_call_pred(reqs: Seq<RequestRecord>) -> spec_fn(int) -> bool {
    |i: int| reqs[i].call_number is Some
}

/// The report written at shutdown. Latency is kept as its saturating total;
/// the average is that total over `total_proxy_requests`.
#[derive(Debug)]
pub struct ReliabilityReport {
    pub schema_version: String,
    pub run_id: String,
    pub total_proxy_requests: u64,
    pub billable_llm_calls: u64,
    pub faults_injected: u64,
    pub total_latency_ms: u64,
    pub budget_snapshot: Option<BudgetSnapshot>,
    pub pricing_registry_version: Option<String>,
    pub summary: RunSummary,
    pub sessions: Vec<SessionSummary>,
    pub requests: Vec<RequestRecord>,
}

/// The report collector's state: records numbered in arrival order, their
/// total latency, and the metadata of the first shutdown request.
pub struct ReportCollector {
    requests: Vec<RequestRecord>,
    total_latency_ms: u64,
    next_sequence: u64,
    budget_snapshot: Option<BudgetSnapshot>,
    pricing_registry_version: Option<String>,
    shut_down: bool,
}

impl ReportCollector {
    pub closed spec fn records(&self) -> Seq<RequestRecord> {
        self.requests@
    }

    pub closed spec fn total_latency(&self) -> u64 {
        self.total_latency_ms
    }

    pub closed spec fn snapshot_spec(&self) -> Option<BudgetSnapshot> {
        self.budget_snapshot
    }

    pub closed spec fn version_spec(&self) -> Option<String> {
        self.pricing_registry_version
    }

    pub closed spec fn is_shut_down(&self) -> bool {
        self.shut_down
    }

    /// Records are numbered by position, the next number follows the last,
    /// and the total latency is that of the records.
    pub closed spec fn wf(&self) -> bool {
        &&& self.next_sequence == sequence_at(self.requests@.len() as int)
        &&& self.total_latency_ms == latency_total(self.requests@, self.requests@.len() as int)
        &&& forall|i: int| 0 <= i < self.requests@.len() ==> (#[trigger] self.requests@[i]).sequence == sequence_at(i)
    }

    pub fn new() -> (c: ReportCollector)
        ensures
            c.wf(),
            c.records() == Seq::<RequestRecord>::empty(),
            c.total_latency() == 0,
            c.snapshot_spec() is None,
            c.version_spec() is None,
            !c.is_shut_down(),
    {
        ReportCollector {
            requests: Vec::new(),
            total_latency_ms: 0,
            next_sequence: 1,
            budget_snapshot: None,
            pricing_registry_version: None,
            shut_down: false,
        }
    }

    /// Take one event. A request is numbered and kept; the first shutdown
    /// keeps its metadata and ends the receiving phase (`true`); a later
    /// shutdown is ignored.
    pub fn accept(&mut self, event: ReportEvent) -> (ended: bool)
        requires
            old(self).wf(),
        ensures
            final(self).wf(),
            match event {
                ReportEvent::Request { record } => {
                    &&& !ended
                    &&& final(self).records().len() == old(self).records().len() + 1
                    &&& final(self).records().drop_last() == old(self).records()
                    &&& numbered(
                        final(self).records().last(),
                        record,
                        sequence_at(old(self).records().len() as int),
                    )
                    &&& final(self).snapshot_spec() == old(self).snapshot_spec()
                    &&& final(self).version_spec() == old(self).version_spec()
                    &&& final(self).is_shut_down() == old(self).is_shut_down()
                },
                ReportEvent::Shutdown { budget_snapshot, pricing_registry_version } => {
                    &&& ended == !old(self).is_shut_down()
                    &&& final(self).is_shut_down()
                    &&& final(self).records() == old(self).records()
                    &&& final(self).total_latency() == old(self).total_latency()
                    &&& final(self).snapshot_spec() == if old(self).is_shut_down() {
                        old(self).snapshot_spec()
                    } else {
                        budget_snapshot
                    }
                    &&& final(self).version_spec() == if old(self).is_shut_down() {
                        old(self).version_spec()
                    } else {
                        pricing_registry_version
                    }
                },
            },
    {
        match event {
            ReportEvent::Request { record } => {
                let mut record = record;
                let ghost before = self.requests@;
                record.sequence = self.next_sequence;
                self.next_sequence = self.next_sequence.saturating_add(1);
                self.total_latency_ms = self.total_latency_ms.saturating_add(record.latency_ms);
                self.requests.push(record);
                proof {
                    let now = self.requests@;
                    assert(now.drop_last() =~= before);
                    assert forall|i: int| 0 <= i < now.len() implies (#[trigger] now[i]).sequence
                        == sequence_at(i) by {
                        if i < before.len() {
                            assert(now[i] == before[i]);
                        }
                    }
                    assert(latency_total(now, before.len() as int) == latency_total(
                        before,
                        before.len() as int,
                    )) by {
                        lemma_latency_prefix(now, before, before.len() as int);
                    }
                }
                false
            },
            ReportEvent::Shutdown { budget_snapshot, pricing_registry_version } => {
                if self.shut_down {
                    false
                } else {
                    self.budget_snapshot = budget_snapshot;
                    self.pricing_registry_version = pricing_registry_version;
                    self.shut_down = true;
                    true
                }
            },
        }
    }

    /// The report of the records collected, under `run_id`.
    pub fn finish(self, run_id: String) -> (r: ReliabilityReport)
        requires
            self.wf(),
        ensures
            r.schema_version@ == REPORT_SCHEMA_VERSION@,
            r.run_id == run_id,
            r.requests@ == self.records(),
            r.total_proxy_requests == self.records().len(),
            r.billable_llm_calls == count_idx(
                self.records().len() as int,
                billable_call_pred(self.records()),
            ),
            r.faults_injected == count_idx(self.records().len() as int, fault_pred(self.records())),
            r.total_latency_ms == self.total_latency(),
            r.budget_snapshot == self.snapshot_spec(),
            r.pricing_registry_version == self.version_spec(),
            run_summary_matches(r.summary, self.records()),
            r.sessions@.len() == session_order(self.records()).len(),
            forall|k: int|
                0 <= k < r.sessions@.len() ==> summary_matches(
                    #[trigger] r.sessions@[k],
                    self.records(),
                    session_order(self.records())[k],
                ),
    {
        let ghost reqs = self.requests@;
        let n = self.requests.len();
        let mut billable: u64 = 0;
        let mut faults: u64 = 0;
        let mut i: usize = 0;
        while i < n
            invariant
                n == reqs.len(),
                reqs == self.requests@,
                i <= n,
                billable == count_idx(i as int, billable_call_pred(reqs)),
                faults == count_idx(i as int, fault_pred(reqs)),
            decreases n - i,
        {
            proof {
                lemma_count_idx_bound(i as int, billable_call_pred(reqs));
                lemma_count_idx_bound(i as int, fault_pred(reqs));
            }
            if self.requests[i].call_number.is_some() {
                billable = billable + 1;
            }
            if self.requests[i].fault_injected.is_some() {
                faults = faults + 1;
            }
            i = i + 1;
        }
        let summary = summarize(self.requests.as_slice());
        let aggregation = aggregate_sessions(self.requests.as_slice());
        ReliabilityReport {
            schema_version: REPORT_SCHEMA_VERSION.to_owned(),
            run_id,
            total_proxy_requests: n as u64,
            billable_llm_calls: billable,
            faults_injected: faults,
            total_latency_ms: self.total_latency_ms,
            budget_snapshot: self.budget_snapshot,
            pricing_registry_version: self.pricing_registry_version,
            summary,
            sessions: aggregation.sessions,
            requests: self.requests,
        }
    }
}

proof fn lemma_latency_prefix(a: Seq<RequestRecord>, b: Seq<RequestRecord>, n: int)
    requires
        0 <= n <= a.len(),
        n <= b.len(),
        forall|i: int| 0 <= i < n ==> a[i] == b[i],
    ensures
        latency_total(a, n) == latency_total(b, n),
    decreases n,
{
    if n > 0 {
        lemma_latency_prefix(a, b, n - 1);
    }
}

/// Every collected record carries the number of its position in arrival
/// order, counting from one.
pub proof fn law_records_numbered_in_order(c: &ReportCollector)
    requires
        c.wf(),
    ensures
        forall|i: int| 0 <= i < c.records().len() ==> (#[trigger] c.records()[i]).sequence == sequence_at(i),
{
}

/// A run identifier taken from the environment: trimmed, and kept only when
/// it is not empty and at most 128 bytes long.
pub open spec fn run_id_spec(value: Seq<char>) -> Option<Seq<char>> {
    let t = trim_spec(value);
    if t.len() > 0 && encode_utf8(t).len() <= 128 {
        Some(t)
    } else {
        None
    }
}

/// The run identifier a configured value gives, if it is usable; without
/// one, a fresh identifier is generated.
pub fn configured_run_id(value: Option<String>) -> (r: Option<String>)
    ensures
        match value {
            Some(v) => match r {
                Some(id) => run_id_spec(v@) == Some(id@),
                None => run_id_spec(v@) is None,
            },
            None => r is None,
        },
{
    match value {
        Some(v) => {
            let t = trim_str(v.as_str());
            if !t.is_empty() && t.as_bytes().len() <= 128 {
                Some(t.to_owned())
            } else {
                None
            }
        },
        None => None,
    }
}

} // verus!
