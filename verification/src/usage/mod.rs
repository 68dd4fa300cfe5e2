//! Bounded token-usage extraction for OpenAI-compatible responses.

use vstd::prelude::*;

pub mod json;
pub mod sse;

use crate::json::{get_spec, lemma_array_view, Json, JsonNumber, JsonNumberV, JsonV};
use crate::openai::TokenUsage;

verus! {

/// Why a response's token usage could not be metered.
#[derive(Debug, Clone, Copy, PartialEq, Eq, Structural)]
pub enum UsageUnavailableReason {
    MissingUsage,
    MalformedUsage,
    MalformedSse,
    ResponseTooLarge,
    StreamInterrupted,
    UpstreamError,
}

/// Result of metering one response.
#[derive(Debug, Clone, Copy, PartialEq, Eq, Structural)]
pub enum UsageOutcome {
    Metered(TokenUsage),
    Unavailable(UsageUnavailableReason),
}

/// The three counters an OpenAI `usage` object carries.
#[derive(Debug, Clone, Copy, PartialEq, Eq, Structural)]
pub struct UsageFields {
    pub prompt_tokens: u64,
    pub completion_tokens: u64,
    pub total_tokens: u64,
}

/// A request body that the billable transform cannot rewrite.
#[derive(Debug, Clone, Copy, PartialEq, Eq, Structural)]
pub enum RequestTransformError {
    NotObject,
    InvalidStreamOptions,
}

pub open spec fn transform_error_message(e: RequestTransformError) -> Seq<char> {
    match e {
        RequestTransformError::NotObject => "request body is not a JSON object"@,
        RequestTransformError::InvalidStreamOptions => "stream_options must be a JSON object when present"@,
    }
}

impl RequestTransformError {
    /// The error's message.
    pub fn message(&self) -> (s: String)
        ensures
            s@ == transform_error_message(*self),
    {
        match self {
            RequestTransformError::NotObject => "request body is not a JSON object".to_owned(),
            RequestTransformError::InvalidStreamOptions => "stream_options must be a JSON object when present".to_owned(),
        }
    }
}

/// A JSON number that reads as a `u64`.
pub open spec fn as_u64_spec(v: JsonV) -> Option<u64> {
    match v {
        JsonV::Number(JsonNumberV::PosInt(u)) => Some(u),
        _ => None,
    }
}

/// The `u64` under `key`, where present and a non-negative integer.
pub open spec fn u64_field(v: JsonV, key: Seq<char>) -> Option<u64> {
    match get_spec(v, key) {
        Some(x) => as_u64_spec(x),
        None => None,
    }
}

/// Reading a JSON value as the three usage counters, as a derived
/// deserializer does: an object with the three named `u64` fields (other
/// keys ignored), or an array of exactly three `u64`s in field order.
pub open spec fn usage_fields_spec(v: JsonV) -> Option<UsageFields> {
    match v {
        JsonV::Object(_) => match (
            u64_field(v, "prompt_tokens"@),
            u64_field(v, "completion_tokens"@),
            u64_field(v, "total_tokens"@),
        ) {
            (Some(p), Some(c), Some(t)) => Some(
                UsageFields { prompt_tokens: p, completion_tokens: c, total_tokens: t },
            ),
            _ => None,
        },
        JsonV::Array(xs) => if xs.len() == 3 {
            match (as_u64_spec(xs[0]), as_u64_spec(xs[1]), as_u64_spec(xs[2])) {
                (Some(p), Some(c), Some(t)) => Some(
                    UsageFields { prompt_tokens: p, completion_tokens: c, total_tokens: t },
                ),
                _ => None,
            }
        } else {
            None
        },
        _ => None,
    }
}

/// Usage counters are consistent when the total is exactly prompt plus completion.
pub open spec fn token_usage_spec(f: UsageFields) -> Option<TokenUsage> {
    if f.prompt_tokens + f.completion_tokens == f.total_tokens {
        Some(
            TokenUsage {
                prompt_tokens: f.prompt_tokens,
                completion_tokens: f.completion_tokens,
                total_tokens: f.total_tokens,
            },
        )
    } else {
        None
    }
}

fn json_as_u64(v: &Json) -> (r: Option<u64>)
    ensures
        r == as_u64_spec(v@),
{
    match v {
        Json::Number(JsonNumber::PosInt(u)) => Some(*u),
        _ => None,
    }
}

fn field_u64(v: &Json, key: &str) -> (r: Option<u64>)
    ensures
        r == u64_field(v@, key@),
{
    match v.get(key) {
        Some(x) => json_as_u64(x),
        None => None,
    }
}

/// Read a JSON value as usage counters.
pub fn usage_fields_from_json(v: &Json) -> (r: Option<UsageFields>)
    ensures
        r == usage_fields_spec(v@),
{
    match v {
        Json::Object(_) => {
            let p = field_u64(v, "prompt_tokens");
            let c = field_u64(v, "completion_tokens");
            let t = field_u64(v, "total_tokens");
            match (p, c, t) {
                (Some(p), Some(c), Some(t)) => Some(
                    UsageFields { prompt_tokens: p, completion_tokens: c, total_tokens: t },
                ),
                _ => None,
            }
        },
        Json::Array(xs) => {
            proof {
                lemma_array_view(*xs);
            }
            if xs.len() == 3 {
                match (json_as_u64(&xs[0]), json_as_u64(&xs[1]), json_as_u64(&xs[2])) {
                    (Some(p), Some(c), Some(t)) => Some(
                        UsageFields { prompt_tokens: p, completion_tokens: c, total_tokens: t },
                    ),
                    _ => None,
                }
            } else {
                None
            }
        },
        _ => None,
    }
}

impl UsageFields {
    /// Accept the counters only when the total adds up.
    pub fn to_token_usage(self) -> (r: Result<TokenUsage, UsageUnavailableReason>)
        ensures
            match token_usage_spec(self) {
                Some(t) => r == Ok::<TokenUsage, UsageUnavailableReason>(t),
                None => r == Err::<TokenUsage, UsageUnavailableReason>(
                    UsageUnavailableReason::MalformedUsage,
                ),
            },
    {
        let expected_total = match self.prompt_tokens.checked_add(self.completion_tokens) {
            Some(t) => t,
            None => return Err(UsageUnavailableReason::MalformedUsage),
        };
        if self.total_tokens != expected_total {
            return Err(UsageUnavailableReason::MalformedUsage);
        }
        Ok(
            TokenUsage {
                prompt_tokens: self.prompt_tokens,
                completion_tokens: self.completion_tokens,
                total_tokens: self.total_tokens,
            },
        )
    }
}

} // verus!
