//! `maul test` helpers: the agent's base URL, the `--fail-on` thresholds a
//! finished run is held to, and the Markdown summary of its report.

use vstd::prelude::*;

use crate::budget::{micro_usd_display, MicroUsd};
use crate::report::ReliabilityReport;
use crate::text::{decimal_chars, push_decimal, str_eq};

verus! {

/// Environment variables through which an agent is pointed at the proxy.
pub const AGENT_BASE_URL_ENV: [&'static str; 2] = ["MAUL_BASE_URL", "OPENAI_BASE_URL"];

/// Default `--timeout-secs` for agent processes.
pub const DEFAULT_AGENT_TIMEOUT_SECS: u64 = 300;

/// Why a test run failed its orchestration or its thresholds.
#[derive(Debug, Clone)]
pub enum TestOrchestrationError {
    UnsupportedThreshold(String),
    ThresholdFailed(String),
    InvalidConfigDocument,
}

/// Whether the threshold called `name` fails for `report`; `None` for a
/// threshold that does not exist.
pub open spec fn threshold_failed(report: ReliabilityReport, name: Seq<char>) -> Option<bool> {
    if name == "budget"@ {
        Some(report.summary.budget_rejections > 0)
    } else if name == "cost"@ {
        Some(
            match report.budget_snapshot {
                Some(s) => s.cost_limit_usd.0 != 0 && report.summary.observed_cost_usd.0
                    >= s.cost_limit_usd.0,
                None => false,
            },
        )
    } else if name == "resilience"@ {
        Some(report.faults_injected > 0 && report.summary.post_fault_successes == 0)
    } else {
        None
    }
}

/// `budget` fails once any call was refused by a budget cap; `cost` fails
/// once observed cost has reached a nonzero cost limit (never without a
/// snapshot or with a zero limit); `resilience` fails when faults were
/// injected and none was followed by a qualifying success; other names are
/// not thresholds.
pub proof fn law_threshold_meanings(report: ReliabilityReport, name: Seq<char>)
    ensures
        threshold_failed(report, "budget"@) == Some(report.summary.budget_rejections != 0),
        report.budget_snapshot is Some && report.budget_snapshot->0.cost_limit_usd.0 != 0 ==> threshold_failed(
            report,
            "cost"@,
        ) == Some(report.summary.observed_cost_usd.0 >= report.budget_snapshot->0.cost_limit_usd.0),
        report.budget_snapshot is Some && report.budget_snapshot->0.cost_limit_usd.0 == 0 ==> threshold_failed(
            report,
            "cost"@,
        ) == Some(false),
        report.budget_snapshot is None ==> threshold_failed(report, "cost"@) == Some(false),
        threshold_failed(report, "resilience"@) == Some(
            report.faults_injected != 0 && report.summary.post_fault_successes == 0,
        ),
        name != "budget"@ && name != "cost"@ && name != "resilience"@ ==> threshold_failed(report, name) is None,
{
    reveal_strlit("budget");
    reveal_strlit("cost");
    reveal_strlit("resilience");
    assert("budget"@.len() == 6 && "cost"@.len() == 4 && "resilience"@.len() == 10);
}

/// The thresholds checked in order; the first unknown or failed one decides.
pub open spec fn thresholds_outcome(report: ReliabilityReport, names: Seq<String>) -> Result<(), TestOrchestrationError>
    decreases names.len(),
{
    if names.len() == 0 {
        Ok(())
    } else {
        match thresholds_outcome(report, names.drop_last()) {
            Err(e) => Err(e),
            Ok(()) => match threshold_failed(report, names.last()@) {
                None => Err(TestOrchestrationError::UnsupportedThreshold(names.last())),
                Some(true) => Err(TestOrchestrationError::ThresholdFailed(names.last())),
                Some(false) => Ok(()),
            },
        }
    }
}

fn check_threshold(report: &ReliabilityReport, name: &str) -> (r: Option<bool>)
    ensures
        r == threshold_failed(*report, name@),
{
    if str_eq(name, "budget") {
        Some(report.summary.budget_rejections > 0)
    } else if str_eq(name, "cost") {
        Some(
            match report.budget_snapshot {
                Some(s) => s.cost_limit_usd.0 != 0 && report.summary.observed_cost_usd.0
                    >= s.cost_limit_usd.0,
                None => false,
            },
        )
    } else if str_eq(name, "resilience") {
        Some(report.faults_injected > 0 && report.summary.post_fault_successes == 0)
    } else {
        None
    }
}

/// The outcome of a sequence is that of its first prefix that fails.
proof fn lemma_thresholds_prefix(report: ReliabilityReport, names: Seq<String>, n: int)
    requires
        0 <= n <= names.len(),
        thresholds_outcome(report, names.take(n)) is Err,
    ensures
        thresholds_outcome(report, names) == thresholds_outcome(report, names.take(n)),
    decreases names.len(),
{
    if n < names.len() {
        assert(names.drop_last().take(n) =~= names.take(n));
        lemma_thresholds_prefix(report, names.drop_last(), n);
    } else {
        assert(names.take(n) =~= names);
    }
}

/// Hold a flushed report to the `--fail-on` thresholds, in order:
/// `budget` fails on any budget rejection, `cost` when the observed cost
/// reached a set cost limit, `resilience` when faults were injected and
/// none was recovered; any other name is unsupported.
pub fn evaluate_thresholds(report: &ReliabilityReport, thresholds: &Vec<String>) -> (r: Result<(), TestOrchestrationError>)
    ensures
        r == thresholds_outcome(*report, thresholds@),
{
    let ghost names = thresholds@;
    let mut i: usize = 0;
    assert(names.take(0) =~= Seq::<String>::empty());
    while i < thresholds.len()
        invariant
            names == thresholds@,
            i <= names.len(),
            thresholds_outcome(*report, names.take(i as int)) == Ok::<(), TestOrchestrationError>(()),
        decreases names.len() - i,
    {
        let ghost pre = names.take(i as int + 1);
        assert(pre.drop_last() =~= names.take(i as int));
        assert(pre.last() == names[i as int]);
        match check_threshold(report, thresholds[i].as_str()) {
            None => {
                proof {
                    lemma_thresholds_prefix(*report, names, i as int + 1);
                }
                return Err(TestOrchestrationError::UnsupportedThreshold(thresholds[i].clone()));
            },
            Some(true) => {
                proof {
                    lemma_thresholds_prefix(*report, names, i as int + 1);
                }
                return Err(TestOrchestrationError::ThresholdFailed(thresholds[i].clone()));
            },
            Some(false) => {},
        }
        i = i + 1;
    }
    assert(names.take(names.len() as int) =~= names);
    Ok(())
}

/// The Markdown summary of a report.
pub open spec fn report_summary_spec(report: ReliabilityReport) -> Seq<char> {
    "# Maul test summary\n\n- Schema: `"@ + report.schema_version@ + "`\n- Proxy requests: "@
        + decimal_chars(report.total_proxy_requests as nat) + "\n- Billable LLM calls: "@
        + decimal_chars(report.billable_llm_calls as nat) + "\n- Faults injected: "@
        + decimal_chars(report.faults_injected as nat) + "\n- Budget rejections: "@
        + decimal_chars(report.summary.budget_rejections as nat) + "\n- Observed cost: "@
        + micro_usd_display(report.summary.observed_cost_usd.0 as nat) + " (`"@ + decimal_chars(
        report.summary.observed_cost_usd.0 as nat,
    ) + "` micro-USD)\n"@
}

/// The Markdown summary written next to the JSON report for CI logs.
pub fn render_report_summary(report: &ReliabilityReport) -> (s: String)
    ensures
        s@ == report_summary_spec(*report),
{
    let mut s = String::new();
    s.push_str("# Maul test summary\n\n- Schema: `");
    s.push_str(report.schema_version.as_str());
    s.push_str("`\n- Proxy requests: ");
    push_decimal(&mut s, report.total_proxy_requests);
    s.push_str("\n- Billable LLM calls: ");
    push_decimal(&mut s, report.billable_llm_calls);
    s.push_str("\n- Faults injected: ");
    push_decimal(&mut s, report.faults_injected);
    s.push_str("\n- Budget rejections: ");
    push_decimal(&mut s, report.summary.budget_rejections);
    s.push_str("\n- Observed cost: ");
    let cost: MicroUsd = report.summary.observed_cost_usd;
    let shown = cost.to_display_string();
    s.push_str(shown.as_str());
    s.push_str(" (`");
    push_decimal(&mut s, cost.as_u64());
    s.push_str("` micro-USD)\n");
    proof {
        assert(s@ =~= report_summary_spec(*report));
    }
    s
}

/// The OpenAI-compatible base URL handed to the agent.
pub fn agent_base_url(listen_address: &str) -> (r: String)
    ensures
        r@ == "http://"@ + listen_address@ + "/v1"@,
{
    let mut r = String::new();
    r.push_str("http://");
    r.push_str(listen_address);
    r.push_str("/v1");
    r
}

} // verus!
