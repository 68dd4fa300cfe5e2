//! The billable-request pipeline, stage by stage: the body is read and
//! checked, the model priced, the call admitted and the request rewritten
//! before the upstream call; after it, the response is metered and, for a
//! mutating fault, corrupted.

use vstd::prelude::*;

use crate::budget::{admission_spec, BudgetAdmission, BudgetTracker, CallPermit, MicroUsd, Price};
use crate::proxy::headers::{headers_view, HeaderEntry, HeaderV};
use crate::json::{spec_json_bytes, spec_parse_json, Json, JsonV};
use crate::openai::{
    chat_metadata_spec, chat_request_error_message, envelope_is, ChatRequestMetadata,
    OpenAiErrorEnvelope,
};
use crate::pricing::PricingRegistry;
use crate::text::{append_bytes, decimal_chars, push_decimal};
use crate::proxy::request_transform::{include_stream_usage, stream_usage_spec};
use crate::report::{BudgetDecision, RequestObservation};
use crate::session::{from_headers, from_headers_and_body, header_session_spec, request_session_spec};
use crate::fault::mutate::{malform_spec, malform_tool_call_json};
use crate::usage::sse::{after_charge, charge_spec};
use crate::usage::json::{extract_usage, extract_usage_spec};
use crate::usage::{transform_error_message, UsageOutcome, UsageUnavailableReason};

verus! {

/// Largest request body read from an agent.
pub const MAX_REQUEST_BODY_BYTES: usize = 8 * 1024 * 1024;

/// Largest response body buffered to meter or mutate it.
pub const MAX_MUTATE_BODY_BYTES: usize = 8 * 1024 * 1024;

/// The characters of an optional string.
pub open spec fn opt_chars(o: Option<String>) -> Option<Seq<char>> {
    match o {
        Some(s) => Some(s@),
        None => None,
    }
}

fn clone_opt(o: &Option<String>) -> (r: Option<String>)
    ensures
        r == *o,
{
    match o {
        Some(s) => Some(s.clone()),
        None => None,
    }
}

/// A billable request refused by a stage: the status and error envelope it
/// is answered with, and what the report records of it.
#[derive(Debug, Clone)]
pub struct StageRejection {
    pub status: u16,
    pub envelope: OpenAiErrorEnvelope,
    pub fault_injected: Option<String>,
    pub model: Option<String>,
    pub call_number: Option<u64>,
    pub budget_decision: BudgetDecision,
    pub session_id: Option<String>,
}

pub open spec fn rejection_is(
    r: StageRejection,
    status: u16,
    message: Seq<char>,
    error_type: Seq<char>,
    code: Seq<char>,
    decision: BudgetDecision,
    fault: Option<Seq<char>>,
    model: Option<Seq<char>>,
    call_number: Option<u64>,
    session: Option<Seq<char>>,
) -> bool {
    &&& r.status == status
    &&& envelope_is(r.envelope, message, error_type, code)
    &&& r.budget_decision == decision
    &&& opt_chars(r.fault_injected) == fault
    &&& opt_chars(r.model) == model
    &&& r.call_number == call_number
    &&& opt_chars(r.session_id) == session
}

fn reject(
    status: u16,
    message: &str,
    error_type: &str,
    code: &str,
    decision: BudgetDecision,
    fault: Option<String>,
    model: Option<String>,
    call_number: Option<u64>,
    session_id: Option<String>,
) -> (r: StageRejection)
    ensures
        rejection_is(
            r,
            status,
            message@,
            error_type@,
            code@,
            decision,
            opt_chars(fault),
            opt_chars(model),
            call_number,
            opt_chars(session_id),
        ),
{
    StageRejection {
        status,
        envelope: OpenAiErrorEnvelope::new(message, error_type, code),
        fault_injected: fault,
        model,
        call_number,
        budget_decision: decision,
        session_id,
    }
}

fn header_session(headers: &Vec<HeaderEntry>) -> (r: Option<String>)
    ensures
        opt_chars(r) == header_session_spec(headers_view(headers@)),
{
    match from_headers(headers) {
        Some(id) => Some(id.into_string()),
        None => None,
    }
}

/// A billable request whose body was read: its JSON, its metadata, and the
/// session it is attributed to.
#[derive(Debug)]
pub struct ParsedRequest {
    pub value: Json,
    pub metadata: ChatRequestMetadata,
    pub session_id: Option<String>,
}

pub open spec fn opt_view(o: Option<Json>) -> Option<JsonV> {
    match o {
        Some(v) => Some(v@),
        None => None,
    }
}

/// What reading a body that parsed into `parsed` gives: a refusal for
/// text that is not JSON or a body that is not a chat completion, else the
/// request with its metadata and session.
pub open spec fn read_outcome(hs: Seq<HeaderV>, parsed: Option<JsonV>, r: Result<ParsedRequest, StageRejection>) -> bool {
    match parsed {
        None => r matches Err(e) && rejection_is(
            e,
            400,
            "maul: chat completion request must be valid JSON"@,
            "invalid_request_error"@,
            "invalid_json"@,
            BudgetDecision::InvalidRequest,
            None,
            None,
            None,
            header_session_spec(hs),
        ),
        Some(v) => match chat_metadata_spec(v) {
            Err(err) => r matches Err(e) && rejection_is(
                e,
                400,
                chat_request_error_message(err),
                "invalid_request_error"@,
                "invalid_chat_request"@,
                BudgetDecision::InvalidRequest,
                None,
                None,
                None,
                header_session_spec(hs),
            ),
            Ok((model, stream)) => r matches Ok(p) && p.value@ == v && p.metadata.model@ == model
                && p.metadata.stream == stream && opt_chars(p.session_id) == request_session_spec(hs, v),
        },
    }
}

/// The answer to a request whose body could not be read within the limit.
pub fn body_too_large(headers: &Vec<HeaderEntry>) -> (r: StageRejection)
    ensures
        rejection_is(
            r,
            413,
            "maul: request body exceeds configured limit"@,
            "invalid_request_error"@,
            "request_body_too_large"@,
            BudgetDecision::InvalidRequest,
            None,
            None,
            None,
            header_session_spec(headers_view(headers@)),
        ),
{
    reject(
        413,
        "maul: request body exceeds configured limit",
        "invalid_request_error",
        "request_body_too_large",
        BudgetDecision::InvalidRequest,
        None,
        None,
        None,
        header_session(headers),
    )
}

/// Check a parsed body (`None`: not JSON) as a chat-completion request.
pub fn read_billable_request(headers: &Vec<HeaderEntry>, parsed: Option<Json>) -> (r: Result<ParsedRequest, StageRejection>)
    ensures
        read_outcome(headers_view(headers@), opt_view(parsed), r),
{
    let value = match parsed {
        Some(v) => v,
        None => {
            return Err(
                reject(
                    400,
                    "maul: chat completion request must be valid JSON",
                    "invalid_request_error",
                    "invalid_json",
                    BudgetDecision::InvalidRequest,
                    None,
                    None,
                    None,
                    header_session(headers),
                ),
            );
        },
    };
    let metadata = match ChatRequestMetadata::try_from_json(&value) {
        Ok(m) => m,
        Err(err) => {
            let message = err.message();
            return Err(
                reject(
                    400,
                    message.as_str(),
                    "invalid_request_error",
                    "invalid_chat_request",
                    BudgetDecision::InvalidRequest,
                    None,
                    None,
                    None,
                    header_session(headers),
                ),
            );
        },
    };
    let session_id = match from_headers_and_body(headers, &value) {
        Some(id) => Some(id.into_string()),
        None => None,
    };
    Ok(ParsedRequest { value, metadata, session_id })
}

/// Parse a request body and check it as a chat-completion request.
pub fn parse_billable_request(headers: &Vec<HeaderEntry>, body: &[u8]) -> (r: Result<ParsedRequest, StageRejection>)
    ensures
        read_outcome(headers_view(headers@), opt_view(spec_parse_json(body@)), r),
{
    read_billable_request(headers, Json::parse(body))
}

/// The message refusing a model without a price.
pub open spec fn unpriced_message(model: Seq<char>) -> Seq<char> {
    "maul: no price configured for model `"@ + model + "`"@
}

/// The model's price. Where a cost limit is set, a model without a price
/// is refused: its cost could not be counted.
pub fn resolve_price(registry: &PricingRegistry, budget: &BudgetTracker, request: &ParsedRequest) -> (r: Result<Option<Price>, StageRejection>)
    requires
        budget.wf(),
    ensures
        ({
            let model = request.metadata.model@;
            let price = registry.price_of(model);
            if budget.limits_spec().max_cost_usd.0 != 0 && price is None {
                r matches Err(e) && rejection_is(
                    e,
                    422,
                    unpriced_message(model),
                    "invalid_request_error"@,
                    "model_unpriced"@,
                    BudgetDecision::ModelUnpriced,
                    None,
                    Some(model),
                    None,
                    opt_chars(request.session_id),
                )
            } else {
                r == Ok::<Option<Price>, StageRejection>(price)
            }
        }),
{
    let model = request.metadata.model.as_str();
    let price = registry.lookup(model);
    if budget.snapshot().cost_limit_usd.0 != 0 && price.is_none() {
        let mut message = String::new();
        message.push_str("maul: no price configured for model `");
        message.push_str(model);
        message.push_str("`");
        return Err(
            reject(
                422,
                message.as_str(),
                "invalid_request_error",
                "model_unpriced",
                BudgetDecision::ModelUnpriced,
                None,
                Some(model.to_owned()),
                None,
                clone_opt(&request.session_id),
            ),
        );
    }
    Ok(price)
}

/// What admission gives: the permit, or a refusal naming the exhausted cap.
pub open spec fn admit_outcome(adm: BudgetAdmission, model: Seq<char>, session: Option<Seq<char>>, r: Result<CallPermit, StageRejection>) -> bool {
    match adm {
        BudgetAdmission::Allowed(p) => r == Ok::<CallPermit, StageRejection>(p),
        BudgetAdmission::CallCapExceeded { .. } => r matches Err(e) && rejection_is(
            e,
            429,
            "maul: max_llm_calls budget exceeded"@,
            "maul_budget_error"@,
            "max_llm_calls"@,
            BudgetDecision::CallCapExceeded,
            Some("budget_exceeded"@),
            Some(model),
            None,
            session,
        ),
        BudgetAdmission::CostCapExceeded { .. } => r matches Err(e) && rejection_is(
            e,
            429,
            "maul: max_cost_usd budget exceeded"@,
            "maul_budget_error"@,
            "max_cost_usd"@,
            BudgetDecision::CostCapExceeded,
            Some("budget_exceeded"@),
            Some(model),
            None,
            session,
        ),
    }
}

/// Reserve the call in the budget, or refuse it at the cap it would pass.
pub fn admit_call(budget: &mut BudgetTracker, request: &ParsedRequest) -> (r: Result<CallPermit, StageRejection>)
    requires
        old(budget).wf(),
    ensures
        final(budget).wf(),
        final(budget).limits_spec() == old(budget).limits_spec(),
        final(budget).observed_cost_spec() == old(budget).observed_cost_spec(),
        final(budget).calls_reserved_spec() == if r is Ok {
            old(budget).calls_reserved_spec() + 1
        } else {
            old(budget).calls_reserved_spec() as int
        },
        admit_outcome(
            admission_spec(
                old(budget).limits_spec(),
                old(budget).calls_reserved_spec(),
                old(budget).observed_cost_spec(),
            ),
            request.metadata.model@,
            opt_chars(request.session_id),
            r,
        ),
{
    match budget.try_admit() {
        BudgetAdmission::Allowed(permit) => Ok(permit),
        BudgetAdmission::CallCapExceeded { .. } => Err(
            reject(
                429,
                "maul: max_llm_calls budget exceeded",
                "maul_budget_error",
                "max_llm_calls",
                BudgetDecision::CallCapExceeded,
                Some("budget_exceeded".to_owned()),
                Some(request.metadata.model.as_str().to_owned()),
                None,
                clone_opt(&request.session_id),
            ),
        ),
        BudgetAdmission::CostCapExceeded { .. } => Err(
            reject(
                429,
                "maul: max_cost_usd budget exceeded",
                "maul_budget_error",
                "max_cost_usd",
                BudgetDecision::CostCapExceeded,
                Some("budget_exceeded".to_owned()),
                Some(request.metadata.model.as_str().to_owned()),
                None,
                clone_opt(&request.session_id),
            ),
        ),
    }
}

/// What rewriting an admitted request gives: the bytes sent upstream, or a
/// refusal of `stream_options` that cannot take the usage flag.
pub open spec fn transform_outcome(
    v: JsonV,
    model: Seq<char>,
    call_number: u64,
    session: Option<Seq<char>>,
    r: Result<Vec<u8>, StageRejection>,
) -> bool {
    match stream_usage_spec(v).1 {
        Ok(_) => r matches Ok(b) && b@ == spec_json_bytes(stream_usage_spec(v).0),
        Err(err) => r matches Err(e) && rejection_is(
            e,
            400,
            transform_error_message(err),
            "invalid_request_error"@,
            "invalid_stream_options"@,
            BudgetDecision::Allowed,
            None,
            Some(model),
            Some(call_number),
            session,
        ),
    }
}

/// Ask for usage on a streamed request and print the body sent upstream.
pub fn transform_outbound(value: Json, metadata: &ChatRequestMetadata, permit: CallPermit, session_id: &Option<String>) -> (r: Result<Vec<u8>, StageRejection>)
    ensures
        transform_outcome(value@, metadata.model@, permit.call_number, opt_chars(*session_id), r),
{
    let mut value = value;
    match include_stream_usage(&mut value) {
        Ok(_) => Ok(value.to_bytes()),
        Err(err) => {
            let message = err.message();
            Err(
                reject(
                    400,
                    message.as_str(),
                    "invalid_request_error",
                    "invalid_stream_options",
                    BudgetDecision::Allowed,
                    None,
                    Some(metadata.model.as_str().to_owned()),
                    Some(permit.call_number),
                    clone_opt(session_id),
                ),
            )
        },
    }
}

/// An admitted request ready to send upstream.
#[derive(Debug)]
pub struct PreparedCall {
    pub body: Vec<u8>,
    pub metadata: ChatRequestMetadata,
    pub price: Option<Price>,
    pub permit: CallPermit,
    pub session_id: Option<String>,
}

/// The two ledgers hold the same limits, reservations and observed cost.
pub open spec fn same_ledger(a: BudgetTracker, b: BudgetTracker) -> bool {
    &&& a.limits_spec() == b.limits_spec()
    &&& a.calls_reserved_spec() == b.calls_reserved_spec()
    &&& a.observed_cost_spec() == b.observed_cost_spec()
}

/// What the stages before the upstream call give for a request with headers
/// `hs` and body `body` (`None`: not readable within the limit), priced by
/// `registry`, with the ledger going from `b0` to `b1`. Each stage refuses
/// in turn: an unreadable body, a body that is not JSON, one that is not a
/// chat completion, a model without a price under a cost limit, a call
/// past a cap, and `stream_options` that cannot take the usage flag.
pub open spec fn prepared_outcome(
    hs: Seq<HeaderV>,
    body: Option<Seq<u8>>,
    registry: PricingRegistry,
    b0: BudgetTracker,
    b1: BudgetTracker,
    r: Result<PreparedCall, StageRejection>,
) -> bool {
    match body {
        None => same_ledger(b0, b1) && (r matches Err(e) && rejection_is(
            e,
            413,
            "maul: request body exceeds configured limit"@,
            "invalid_request_error"@,
            "request_body_too_large"@,
            BudgetDecision::InvalidRequest,
            None,
            None,
            None,
            header_session_spec(hs),
        )),
        Some(bytes) => match spec_parse_json(bytes) {
            None => same_ledger(b0, b1) && (r matches Err(e) && rejection_is(
                e,
                400,
                "maul: chat completion request must be valid JSON"@,
                "invalid_request_error"@,
                "invalid_json"@,
                BudgetDecision::InvalidRequest,
                None,
                None,
                None,
                header_session_spec(hs),
            )),
            Some(v) => match chat_metadata_spec(v@) {
                Err(err) => same_ledger(b0, b1) && (r matches Err(e) && rejection_is(
                    e,
                    400,
                    chat_request_error_message(err),
                    "invalid_request_error"@,
                    "invalid_chat_request"@,
                    BudgetDecision::InvalidRequest,
                    None,
                    None,
                    None,
                    header_session_spec(hs),
                )),
                Ok((model, stream)) => {
                    let session = request_session_spec(hs, v@);
                    let price = registry.price_of(model);
                    if b0.limits_spec().max_cost_usd.0 != 0 && price is None {
                        same_ledger(b0, b1) && (r matches Err(e) && rejection_is(
                            e,
                            422,
                            unpriced_message(model),
                            "invalid_request_error"@,
                            "model_unpriced"@,
                            BudgetDecision::ModelUnpriced,
                            None,
                            Some(model),
                            None,
                            session,
                        ))
                    } else {
                        match admission_spec(
                            b0.limits_spec(),
                            b0.calls_reserved_spec(),
                            b0.observed_cost_spec(),
                        ) {
                            BudgetAdmission::Allowed(permit) => {
                                &&& b1.limits_spec() == b0.limits_spec()
                                &&& b1.observed_cost_spec() == b0.observed_cost_spec()
                                &&& b1.calls_reserved_spec() == b0.calls_reserved_spec() + 1
                                &&& match stream_usage_spec(v@).1 {
                                    Ok(_) => r matches Ok(c) && c.body@ == spec_json_bytes(
                                        stream_usage_spec(v@).0,
                                    ) && c.metadata.model@ == model && c.metadata.stream == stream
                                        && c.price == price && c.permit == permit && opt_chars(
                                        c.session_id,
                                    ) == session,
                                    Err(err) => r matches Err(e) && rejection_is(
                                        e,
                                        400,
                                        transform_error_message(err),
                                        "invalid_request_error"@,
                                        "invalid_stream_options"@,
                                        BudgetDecision::Allowed,
                                        None,
                                        Some(model),
                                        Some(permit.call_number),
                                        session,
                                    ),
                                }
                            },
                            BudgetAdmission::CallCapExceeded { .. } => same_ledger(b0, b1) && (r matches Err(
                                e,
                            ) && rejection_is(
                                e,
                                429,
                                "maul: max_llm_calls budget exceeded"@,
                                "maul_budget_error"@,
                                "max_llm_calls"@,
                                BudgetDecision::CallCapExceeded,
                                Some("budget_exceeded"@),
                                Some(model),
                                None,
                                session,
                            )),
                            BudgetAdmission::CostCapExceeded { .. } => same_ledger(b0, b1) && (r matches Err(
                                e,
                            ) && rejection_is(
                                e,
                                429,
                                "maul: max_cost_usd budget exceeded"@,
                                "maul_budget_error"@,
                                "max_cost_usd"@,
                                BudgetDecision::CostCapExceeded,
                                Some("budget_exceeded"@),
                                Some(model),
                                None,
                                session,
                            )),
                        }
                    }
                },
            },
        },
    }
}

pub open spec fn opt_bytes(o: Option<&[u8]>) -> Option<Seq<u8>> {
    match o {
        Some(b) => Some(b@),
        None => None,
    }
}

/// Run the stages before the upstream call for one billable request.
pub fn prepare_billable(
    headers: &Vec<HeaderEntry>,
    body: Option<&[u8]>,
    registry: &PricingRegistry,
    budget: &mut BudgetTracker,
) -> (r: Result<PreparedCall, StageRejection>)
    requires
        old(budget).wf(),
    ensures
        final(budget).wf(),
        prepared_outcome(headers_view(headers@), opt_bytes(body), *registry, *old(budget), *final(budget), r),
{
    let bytes = match body {
        Some(b) => b,
        None => {
            return Err(body_too_large(headers));
        },
    };
    let parsed = match parse_billable_request(headers, bytes) {
        Ok(p) => p,
        Err(e) => {
            return Err(e);
        },
    };
    let price = match resolve_price(registry, budget, &parsed) {
        Ok(p) => p,
        Err(e) => {
            return Err(e);
        },
    };
    let permit = match admit_call(budget, &parsed) {
        Ok(p) => p,
        Err(e) => {
            return Err(e);
        },
    };
    let ParsedRequest { value, metadata, session_id } = parsed;
    match transform_outbound(value, &metadata, permit, &session_id) {
        Ok(body) => Ok(PreparedCall { body, metadata, price, permit, session_id }),
        Err(e) => Err(e),
    }
}

/// A request refused before it was admitted, or at admission, reserves no
/// call; one refused after admission keeps the call it reserved; and no
/// stage before the upstream call charges any cost.
pub proof fn law_refusals_reserve_nothing(
    hs: Seq<HeaderV>,
    body: Option<Seq<u8>>,
    registry: PricingRegistry,
    b0: BudgetTracker,
    b1: BudgetTracker,
    r: Result<PreparedCall, StageRejection>,
)
    requires
        prepared_outcome(hs, body, registry, b0, b1, r),
    ensures
        b1.observed_cost_spec() == b0.observed_cost_spec(),
        b1.limits_spec() == b0.limits_spec(),
        (r matches Err(e) && e.budget_decision != BudgetDecision::Allowed) ==> same_ledger(b0, b1),
        (r is Ok || (r matches Err(e) && e.budget_decision == BudgetDecision::Allowed))
            ==> b1.calls_reserved_spec() == b0.calls_reserved_spec() + 1,
{
}

// ---------------------------------------------------------------------------
// After the upstream call
// ---------------------------------------------------------------------------

/// How an upstream response is metered.
#[derive(Debug, Clone, Copy, PartialEq, Eq, Structural)]
pub enum MeterPlan {
    /// Nothing to meter: no price, and no stream.
    Unmetered,
    /// The upstream failed: usage is unavailable and nothing is charged.
    UpstreamError,
    /// A stream: a tap meters it as it passes.
    Stream,
    /// A body buffered whole: usage is read from it and charged.
    Buffered,
}

pub open spec fn meter_plan_spec(price: Option<Price>, success: bool, stream: bool) -> MeterPlan {
    match price {
        None => if stream {
            MeterPlan::Stream
        } else {
            MeterPlan::Unmetered
        },
        Some(_) => if !success {
            MeterPlan::UpstreamError
        } else if stream {
            MeterPlan::Stream
        } else {
            MeterPlan::Buffered
        },
    }
}

/// Choose how a response is metered from the call's price, whether the
/// upstream status was a success, and whether the request streamed.
pub fn meter_plan(price: Option<Price>, success: bool, stream: bool) -> (p: MeterPlan)
    ensures
        p == meter_plan_spec(price, success, stream),
{
    match price {
        None => if stream {
            MeterPlan::Stream
        } else {
            MeterPlan::Unmetered
        },
        Some(_) => if !success {
            MeterPlan::UpstreamError
        } else if stream {
            MeterPlan::Stream
        } else {
            MeterPlan::Buffered
        },
    }
}

/// What a call whose upstream answered with an error records: usage
/// unavailable because of the upstream error, and no cost.
pub fn upstream_error_outcome() -> (r: (UsageOutcome, Option<MicroUsd>))
    ensures
        r == (UsageOutcome::Unavailable(UsageUnavailableReason::UpstreamError), None::<MicroUsd>),
{
    (UsageOutcome::Unavailable(UsageUnavailableReason::UpstreamError), None)
}

/// The answer when a response body to meter exceeds the buffering limit:
/// a 502 envelope, and usage recorded as unavailable.
pub fn metered_body_too_large() -> (r: (u16, OpenAiErrorEnvelope, UsageOutcome))
    ensures
        r.0 == 502,
        envelope_is(
            r.1,
            "maul: response body exceeded metering limit"@,
            "server_error"@,
            "response_body_too_large"@,
        ),
        r.2 == UsageOutcome::Unavailable(UsageUnavailableReason::ResponseTooLarge),
{
    (
        502,
        OpenAiErrorEnvelope::new(
            "maul: response body exceeded metering limit",
            "server_error",
            "response_body_too_large",
        ),
        UsageOutcome::Unavailable(UsageUnavailableReason::ResponseTooLarge),
    )
}

/// Meter a buffered response body: its usage, and the cost committed to
/// the budget when the usage is metered and its cost fits.
pub fn meter_buffered_body(body: &[u8], price: Price, budget: &mut BudgetTracker) -> (r: (
    UsageOutcome,
    Option<MicroUsd>,
))
    requires
        old(budget).wf(),
    ensures
        final(budget).wf(),
        final(budget).limits_spec() == old(budget).limits_spec(),
        final(budget).calls_reserved_spec() == old(budget).calls_reserved_spec(),
        r.0 == extract_usage_spec(body@),
        r.1 == charge_spec(r.0, Some(price)),
        final(budget).observed_cost_spec() == after_charge(old(budget).observed_cost_spec(), r.1),
{
    let usage = extract_usage(body);
    let cost = match usage {
        UsageOutcome::Metered(t) => match price.calculate(&t) {
            Ok(c) => {
                budget.commit_cost(c);
                Some(c)
            },
            Err(_) => None,
        },
        _ => None,
    };
    (usage, cost)
}

/// The usage and cost recorded for a metered call: those a stream tap
/// latched when there is a latch (nothing when it never fired), otherwise
/// those metered directly.
pub fn take_metered_outcome(
    latch: Option<Option<(UsageOutcome, Option<MicroUsd>)>>,
    usage: Option<UsageOutcome>,
    cost_usd: Option<MicroUsd>,
) -> (r: (Option<UsageOutcome>, Option<MicroUsd>))
    ensures
        r == match latch {
            Some(Some((u, c))) => (Some(u), c),
            Some(None) => (None, None),
            None => (usage, cost_usd),
        },
{
    match latch {
        Some(Some((u, c))) => (Some(u), c),
        Some(None) => (None, None),
        None => (usage, cost_usd),
    }
}

/// What a mutating fault does to an upstream response body.
#[derive(Debug)]
pub enum MutateAfterOutcome {
    /// The body could not be buffered: a 502 with this text.
    BufferFailed { message: String },
    /// The body to send, and the scenario when it was corrupted.
    Body { bytes: Vec<u8>, injected: Option<&'static str> },
}

/// Corrupt the tool calls of a buffered response body (`None`: it could not
/// be buffered); a body that is neither JSON nor SSE passes through.
pub fn apply_mutate_after(scenario: &'static str, body: Option<&[u8]>) -> (r: MutateAfterOutcome)
    ensures
        match body {
            None => r matches MutateAfterOutcome::BufferFailed { message } && message@
                == "maul: failed to buffer response for "@ + scenario@,
            Some(b) => match malform_spec(b@) {
                Some(m) => r matches MutateAfterOutcome::Body { bytes, injected } && bytes@ == m
                    && injected == Some(scenario),
                None => r matches MutateAfterOutcome::Body { bytes, injected } && bytes@ == b@
                    && injected is None,
            },
        },
{
    match body {
        None => {
            let mut message = String::new();
            message.push_str("maul: failed to buffer response for ");
            message.push_str(scenario);
            MutateAfterOutcome::BufferFailed { message }
        },
        Some(b) => match malform_tool_call_json(b) {
            Some(m) => MutateAfterOutcome::Body { bytes: m, injected: Some(scenario) },
            None => MutateAfterOutcome::Body { bytes: copy_all(b), injected: None },
        },
    }
}

fn copy_all(b: &[u8]) -> (r: Vec<u8>)
    ensures
        r@ == b@,
{
    let mut r: Vec<u8> = Vec::new();
    append_bytes(&mut r, b);
    r
}

// ---------------------------------------------------------------------------
// What the report records, and the plain-text answers
// ---------------------------------------------------------------------------

impl StageRejection {
    /// The report's observation of the refused request.
    pub fn observation(self, path: String, latency_ms: u64) -> (o: RequestObservation)
        ensures
            o.path == path,
            o.status == self.status,
            o.latency_ms == latency_ms,
            o.fault_injected == self.fault_injected,
            o.billable,
            o.model == self.model,
            o.call_number == self.call_number,
            o.budget_decision == self.budget_decision,
            o.usage is None,
            o.cost_usd is None,
            o.session_id == self.session_id,
    {
        RequestObservation::billable(
            path,
            self.status,
            latency_ms,
            self.fault_injected,
            self.model,
            self.call_number,
            self.budget_decision,
            None,
            None,
            self.session_id,
        )
    }
}

impl PreparedCall {
    /// The report's observation of the admitted call once it was answered:
    /// recorded as allowed, under its model and call number.
    pub fn observation(
        &self,
        path: String,
        status: u16,
        latency_ms: u64,
        fault_injected: Option<String>,
        usage: Option<UsageOutcome>,
        cost_usd: Option<MicroUsd>,
    ) -> (o: RequestObservation)
        ensures
            o.path == path,
            o.status == status,
            o.latency_ms == latency_ms,
            o.fault_injected == fault_injected,
            o.billable,
            o.model matches Some(m) && m@ == self.metadata.model@,
            o.call_number == Some(self.permit.call_number),
            o.budget_decision == BudgetDecision::Allowed,
            o.usage == usage,
            o.cost_usd == cost_usd,
            o.session_id == self.session_id,
    {
        RequestObservation::billable(
            path,
            status,
            latency_ms,
            fault_injected,
            Some(self.metadata.model.as_str().to_owned()),
            Some(self.permit.call_number),
            BudgetDecision::Allowed,
            usage,
            cost_usd,
            clone_opt(&self.session_id),
        )
    }
}

/// The text of the 413 a proxied request gets when its body passes the limit.
pub fn request_too_large_message() -> (s: String)
    ensures
        s@ == "maul: request body exceeds "@ + decimal_chars(MAX_REQUEST_BODY_BYTES as nat)
            + " byte limit"@,
{
    let mut s = String::new();
    s.push_str("maul: request body exceeds ");
    push_decimal(&mut s, MAX_REQUEST_BODY_BYTES as u64);
    s.push_str(" byte limit");
    s
}

/// The text of the 502 a proxied request gets when the upstream call fails.
pub fn upstream_error_message(detail: &str) -> (s: String)
    ensures
        s@ == "maul: upstream error: "@ + detail@,
{
    let mut s = String::new();
    s.push_str("maul: upstream error: ");
    s.push_str(detail);
    s
}

} // verus!
