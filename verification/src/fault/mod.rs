//! Fault injection: the scenarios, the action each one takes, and the
//! response bodies that short-circuit faults fabricate.

pub mod mutate;

pub use mutate::malform_tool_call_json;

use rand::RngExt;
use vstd::prelude::*;

use crate::openai::{envelope_is, OpenAiErrorEnvelope};
use crate::text::str_eq;

verus! {

/// rand's seeded generator, carried through to the scenario draw; opaque
/// to proofs.
#[verifier::external_type_specification]
#[verifier::external_body]
pub struct ExStdRng(rand::rngs::StdRng);

/// Calls `rng.random_range(0..len)` (rand's `RngExt`), which draws a value
/// from `0..len` and panics on an empty range, excluded here. Which value
/// comes out depends on the generator's state, so nothing else is stated.
#[verifier::external_body]
fn random_index(rng: &mut rand::rngs::StdRng, len: usize) -> (i: usize)
    requires
        len > 0,
    ensures
        i < len,
{
    rng.random_range(0..len)
}

pub const FORCE_500: &'static str = "force_500";

pub const FORCE_429: &'static str = "force_429";

pub const MALFORMED_TOOL_CALL_JSON: &'static str = "malformed_tool_call_json";

pub open spec fn is_supported_spec(name: Seq<char>) -> bool {
    name == "force_500"@ || name == "force_429"@ || name == "malformed_tool_call_json"@
}

pub fn is_supported_scenario(name: &str) -> (r: bool)
    ensures
        r == is_supported_spec(name@),
{
    str_eq(name, FORCE_500) || str_eq(name, FORCE_429) || str_eq(name, MALFORMED_TOOL_CALL_JSON)
}

/// A configured fault scenario.
#[derive(Debug, Clone, Copy, PartialEq, Eq, Structural)]
pub enum Scenario {
    Force500,
    Force429,
    MalformedToolCallJson,
}

pub open spec fn scenario_name_spec(s: Scenario) -> Seq<char> {
    match s {
        Scenario::Force500 => "force_500"@,
        Scenario::Force429 => "force_429"@,
        Scenario::MalformedToolCallJson => "malformed_tool_call_json"@,
    }
}

pub open spec fn scenario_from_name_spec(name: Seq<char>) -> Option<Scenario> {
    if name == "force_500"@ {
        Some(Scenario::Force500)
    } else if name == "force_429"@ {
        Some(Scenario::Force429)
    } else if name == "malformed_tool_call_json"@ {
        Some(Scenario::MalformedToolCallJson)
    } else {
        None
    }
}

/// Body of a fabricated fault response.
#[derive(Debug, Clone)]
pub enum FaultBody {
    Text(String),
    Envelope(OpenAiErrorEnvelope),
}

/// A fabricated response: status, body, and an optional `retry-after` value.
#[derive(Debug, Clone)]
pub struct FaultResponse {
    pub status: u16,
    pub body: FaultBody,
    pub retry_after: Option<String>,
}

/// Control flow for a single proxied request.
#[derive(Debug, Clone)]
pub enum Action {
    /// Call the real upstream unchanged.
    Forward,
    /// Return a fabricated response and never call upstream.
    ShortCircuit { scenario: &'static str, response: FaultResponse },
    /// Call upstream, then corrupt the response body before returning it.
    MutateAfter { scenario: &'static str },
}

/// `force_500`: a 500 with an OpenAI `server_error` envelope.
pub open spec fn is_force_500_response(r: FaultResponse) -> bool {
    &&& r.status == 500
    &&& r.body matches FaultBody::Envelope(e) && envelope_is(
        e,
        "maul: injected fault force_500"@,
        "server_error"@,
        "force_500"@,
    )
    &&& r.retry_after is None
}

/// `force_429`: an OpenAI rate-limit envelope with `retry-after: 1`.
pub open spec fn is_force_429_response(r: FaultResponse) -> bool {
    &&& r.status == 429
    &&& r.body matches FaultBody::Envelope(e) && envelope_is(
        e,
        "maul: injected fault force_429"@,
        "rate_limit_error"@,
        "force_429"@,
    )
    &&& r.retry_after matches Some(v) && v@ == "1"@
}

/// The action a scenario takes.
pub open spec fn action_matches(s: Scenario, a: Action) -> bool {
    match s {
        Scenario::Force500 => a matches Action::ShortCircuit { scenario, response } && scenario@
            == "force_500"@ && is_force_500_response(response),
        Scenario::Force429 => a matches Action::ShortCircuit { scenario, response } && scenario@
            == "force_429"@ && is_force_429_response(response),
        Scenario::MalformedToolCallJson => a matches Action::MutateAfter { scenario } && scenario@
            == "malformed_tool_call_json"@,
    }
}

pub fn force_500_response() -> (r: FaultResponse)
    ensures
        is_force_500_response(r),
{
    FaultResponse {
        status: 500,
        body: FaultBody::Envelope(
            OpenAiErrorEnvelope::new("maul: injected fault force_500", "server_error", FORCE_500),
        ),
        retry_after: None,
    }
}

pub fn force_429_response() -> (r: FaultResponse)
    ensures
        is_force_429_response(r),
{
    FaultResponse {
        status: 429,
        body: FaultBody::Envelope(
            OpenAiErrorEnvelope::new("maul: injected fault force_429", "rate_limit_error", FORCE_429),
        ),
        retry_after: Some("1".to_owned()),
    }
}

impl Scenario {
    pub fn from_name(name: &str) -> (r: Option<Scenario>)
        ensures
            r == scenario_from_name_spec(name@),
    {
        if str_eq(name, FORCE_500) {
            Some(Scenario::Force500)
        } else if str_eq(name, FORCE_429) {
            Some(Scenario::Force429)
        } else if str_eq(name, MALFORMED_TOOL_CALL_JSON) {
            Some(Scenario::MalformedToolCallJson)
        } else {
            None
        }
    }

    pub fn name(self) -> (r: &'static str)
        ensures
            r@ == scenario_name_spec(self),
    {
        match self {
            Scenario::Force500 => FORCE_500,
            Scenario::Force429 => FORCE_429,
            Scenario::MalformedToolCallJson => MALFORMED_TOOL_CALL_JSON,
        }
    }

    pub fn into_action(self) -> (a: Action)
        ensures
            action_matches(self, a),
    {
        match self {
            Scenario::Force500 => Action::ShortCircuit { scenario: FORCE_500, response: force_500_response() },
            Scenario::Force429 => Action::ShortCircuit { scenario: FORCE_429, response: force_429_response() },
            Scenario::MalformedToolCallJson => Action::MutateAfter { scenario: MALFORMED_TOOL_CALL_JSON },
        }
    }
}

/// The enabled scenarios, in configuration order, unknown names dropped.
pub open spec fn enabled_spec(names: Seq<Seq<char>>) -> Seq<Scenario>
    decreases names.len(),
{
    if names.len() == 0 {
        Seq::empty()
    } else {
        match scenario_from_name_spec(names.last()) {
            Some(s) => enabled_spec(names.drop_last()).push(s),
            None => enabled_spec(names.drop_last()),
        }
    }
}

/// The scenarios a fault engine draws from.
#[derive(Debug, Clone)]
pub struct FaultPlan {
    enabled: Vec<Scenario>,
}

impl FaultPlan {
    pub closed spec fn enabled_view(&self) -> Seq<Scenario> {
        self.enabled@
    }

    /// Keep the configured names that are known scenarios, in order.
    pub fn from_scenario_names(names: &Vec<String>) -> (p: FaultPlan)
        ensures
            p.enabled_view() == enabled_spec(names@.map_values(|s: String| s@)),
    {
        let ghost views = names@.map_values(|s: String| s@);
        let mut enabled: Vec<Scenario> = Vec::new();
        let mut i: usize = 0;
        while i < names.len()
            invariant
                views == names@.map_values(|s: String| s@),
                i <= names@.len(),
                enabled@ == enabled_spec(views.subrange(0, i as int)),
            decreases names@.len() - i,
        {
            proof {
                assert(views.subrange(0, i as int + 1).drop_last() =~= views.subrange(0, i as int));
            }
            match Scenario::from_name(names[i].as_str()) {
                Some(s) => enabled.push(s),
                None => {},
            }
            i = i + 1;
        }
        assert(views.subrange(0, names@.len() as int) =~= views);
        FaultPlan { enabled }
    }

    pub fn len(&self) -> (n: usize)
        ensures
            n == self.enabled_view().len(),
    {
        self.enabled.len()
    }

    pub fn is_empty(&self) -> (b: bool)
        ensures
            b == (self.enabled_view().len() == 0),
    {
        self.enabled.len() == 0
    }

    /// The action of the scenario drawn at `index`.
    pub fn action_at(&self, index: usize) -> (a: Action)
        requires
            index < self.enabled_view().len(),
        ensures
            action_matches(self.enabled_view()[index as int], a),
    {
        self.enabled[index].into_action()
    }

    /// The action for the next request, given whether the probability roll
    /// fired: forward unless it fired and a scenario is enabled; otherwise
    /// the action of a scenario drawn from `rng`.
    pub fn decide(&self, fired: bool, rng: &mut rand::rngs::StdRng) -> (a: Action)
        ensures
            !fired || self.enabled_view().len() == 0 ==> a is Forward,
            fired && self.enabled_view().len() > 0 ==> exists|i: int|
                0 <= i < self.enabled_view().len() && action_matches(
                    #[trigger] self.enabled_view()[i],
                    a,
                ),
    {
        if !fired || self.enabled.len() == 0 {
            return Action::Forward;
        }
        let index = random_index(rng, self.enabled.len());
        self.action_at(index)
    }
}

} // verus!
