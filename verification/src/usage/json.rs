//! Usage of a non-streaming completion body.

use vstd::prelude::*;

use crate::json::{get_spec, spec_parse_json, Json, JsonNumberV, JsonV};
use crate::openai::TokenUsage;
use crate::usage::{
    token_usage_spec, usage_fields_from_json, usage_fields_spec, UsageOutcome,
    UsageUnavailableReason,
};

verus! {

/// Metering outcome of a parsed non-streaming completion body.
pub open spec fn usage_outcome_spec(v: JsonV) -> UsageOutcome {
    match get_spec(v, "usage"@) {
        Some(JsonV::Object(es)) => match usage_fields_spec(JsonV::Object(es)) {
            Some(f) => match token_usage_spec(f) {
                Some(t) => UsageOutcome::Metered(t),
                None => UsageOutcome::Unavailable(UsageUnavailableReason::MalformedUsage),
            },
            None => UsageOutcome::Unavailable(UsageUnavailableReason::MalformedUsage),
        },
        Some(JsonV::Null) | None => UsageOutcome::Unavailable(UsageUnavailableReason::MissingUsage),
        Some(_) => UsageOutcome::Unavailable(UsageUnavailableReason::MalformedUsage),
    }
}

/// Metering outcome of a raw non-streaming completion body.
pub open spec fn extract_usage_spec(body: Seq<u8>) -> UsageOutcome {
    match spec_parse_json(body) {
        Some(v) => usage_outcome_spec(v@),
        None => UsageOutcome::Unavailable(UsageUnavailableReason::MalformedUsage),
    }
}

/// Usage of a parsed non-streaming completion.
pub fn extract_usage_from_value(value: &Json) -> (r: UsageOutcome)
    ensures
        r == usage_outcome_spec(value@),
{
    match value.get("usage") {
        Some(u) => match u {
            Json::Object(_) => match usage_fields_from_json(u) {
                Some(fields) => match fields.to_token_usage() {
                    Ok(usage) => UsageOutcome::Metered(usage),
                    Err(reason) => UsageOutcome::Unavailable(reason),
                },
                None => UsageOutcome::Unavailable(UsageUnavailableReason::MalformedUsage),
            },
            Json::Null => UsageOutcome::Unavailable(UsageUnavailableReason::MissingUsage),
            _ => UsageOutcome::Unavailable(UsageUnavailableReason::MalformedUsage),
        },
        None => UsageOutcome::Unavailable(UsageUnavailableReason::MissingUsage),
    }
}

/// Usage of a raw non-streaming completion body; a body that is not JSON is
/// malformed usage.
pub fn extract_usage(body: &[u8]) -> (r: UsageOutcome)
    ensures
        r == extract_usage_spec(body@),
{
    match Json::parse(body) {
        Some(value) => extract_usage_from_value(&value),
        None => UsageOutcome::Unavailable(UsageUnavailableReason::MalformedUsage),
    }
}

/// `u` is a JSON object whose members `prompt_tokens`, `completion_tokens`
/// and `total_tokens` are the non-negative integers `p`, `c` and `t`; it may
/// have any other members.
pub open spec fn usage_object_with(u: JsonV, p: u64, c: u64, t: u64) -> bool {
    &&& u is Object
    &&& get_spec(u, "prompt_tokens"@) == Some(JsonV::Number(JsonNumberV::PosInt(p)))
    &&& get_spec(u, "completion_tokens"@) == Some(JsonV::Number(JsonNumberV::PosInt(c)))
    &&& get_spec(u, "total_tokens"@) == Some(JsonV::Number(JsonNumberV::PosInt(t)))
}

/// A completion whose `usage` object holds the three counters, the total
/// being prompt plus completion, is metered with exactly those counters,
/// whatever other members the object has; counters that do not add up make
/// the usage malformed.
pub proof fn law_usage_object_counters(v: JsonV, u: JsonV, p: u64, c: u64, t: u64)
    requires
        get_spec(v, "usage"@) == Some(u),
        usage_object_with(u, p, c, t),
    ensures
        p + c == t ==> usage_outcome_spec(v) == UsageOutcome::Metered(
            TokenUsage { prompt_tokens: p, completion_tokens: c, total_tokens: t },
        ),
        p + c != t ==> usage_outcome_spec(v) == UsageOutcome::Unavailable(
            UsageUnavailableReason::MalformedUsage,
        ),
{
}

/// A completion without `usage`, or with a null one, has missing usage.
pub proof fn law_usage_missing(v: JsonV)
    requires
        get_spec(v, "usage"@) is None || get_spec(v, "usage"@) == Some(JsonV::Null),
    ensures
        usage_outcome_spec(v) == UsageOutcome::Unavailable(UsageUnavailableReason::MissingUsage),
{
}

/// The same over a raw body that parses as such a completion.
pub proof fn law_usage_body_counters(body: Seq<u8>, u: JsonV, p: u64, c: u64, t: u64)
    requires
        spec_parse_json(body) matches Some(x) && get_spec(x@, "usage"@) == Some(u),
        usage_object_with(u, p, c, t),
        p + c == t,
    ensures
        extract_usage_spec(body) == UsageOutcome::Metered(
            TokenUsage { prompt_tokens: p, completion_tokens: c, total_tokens: t },
        ),
{
    law_usage_object_counters(spec_parse_json(body)->0@, u, p, c, t);
}

} // verus!
