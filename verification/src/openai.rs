//! OpenAI-compatible protocol types, route classification, request metadata
//! and error envelopes.

use vstd::prelude::*;

use crate::json::{get_spec, Json, JsonV};
use crate::text::{is_whitespace, is_whitespace_spec, str_chars, str_eq};

verus! {

pub const CHAT_COMPLETIONS_PATH: &'static str = "/v1/chat/completions";

/// Routes whose requests consume the call budget.
#[derive(Debug, Clone, Copy, PartialEq, Eq, Structural)]
pub enum BillableRoute {
    ChatCompletions,
}

/// Only `POST` to the chat-completions path (with or without a trailing
/// slash) is billable.
pub open spec fn billable_route_spec(method: Seq<char>, path: Seq<char>) -> Option<BillableRoute> {
    if method == "POST"@ && (path == "/v1/chat/completions"@ || path == "/v1/chat/completions/"@) {
        Some(BillableRoute::ChatCompletions)
    } else {
        None
    }
}

/// Exactly `POST` requests to `/v1/chat/completions`, with or without one
/// trailing slash, are billable chat completions.
pub proof fn law_only_chat_completions_billable(method: Seq<char>, path: Seq<char>)
    ensures
        billable_route_spec(method, path) is Some <==> (method == "POST"@ && (path == "/v1/chat/completions"@
            || path == "/v1/chat/completions/"@)),
        billable_route_spec(method, path) is Some ==> billable_route_spec(method, path) == Some(
            BillableRoute::ChatCompletions,
        ),
{
}

/// Classify a request by its method name and URI path.
pub fn classify_billable_route(method: &str, path: &str) -> (r: Option<BillableRoute>)
    ensures
        r == billable_route_spec(method@, path@),
{
    if !str_eq(method, "POST") {
        return None;
    }
    if str_eq(path, "/v1/chat/completions") || str_eq(path, "/v1/chat/completions/") {
        Some(BillableRoute::ChatCompletions)
    } else {
        None
    }
}

/// A model identifier: non-empty, without whitespace.
#[derive(Debug, Clone)]
pub struct ModelId {
    id: String,
}

/// Why a model identifier was refused.
#[derive(Debug, Clone, Copy, PartialEq, Eq, Structural)]
pub enum ModelIdError {
    Empty,
    Whitespace,
}

impl ModelIdError {
    /// The error's message.
    pub fn message(&self) -> (s: String)
        ensures
            s@ == model_id_error_message(*self),
    {
        match self {
            ModelIdError::Empty => "model identifier cannot be empty".to_owned(),
            ModelIdError::Whitespace => "model identifier cannot contain whitespace".to_owned(),
        }
    }
}

pub open spec fn model_id_error_message(e: ModelIdError) -> Seq<char> {
    match e {
        ModelIdError::Empty => "model identifier cannot be empty"@,
        ModelIdError::Whitespace => "model identifier cannot contain whitespace"@,
    }
}

/// Validation of a model identifier.
pub open spec fn model_id_spec(s: Seq<char>) -> Result<Seq<char>, ModelIdError> {
    if s.len() == 0 {
        Err(ModelIdError::Empty)
    } else if exists|i: int| 0 <= i < s.len() && is_whitespace_spec(#[trigger] s[i]) {
        Err(ModelIdError::Whitespace)
    } else {
        Ok(s)
    }
}

impl View for ModelId {
    type V = Seq<char>;

    closed spec fn view(&self) -> Seq<char> {
        self.id@
    }
}

fn any_whitespace(s: &str) -> (r: bool)
    ensures
        r == exists|i: int| 0 <= i < s@.len() && is_whitespace_spec(#[trigger] s@[i]),
{
    let v = str_chars(s);
    let mut i: usize = 0;
    while i < v.len()
        invariant
            v@ == s@,
            i <= v@.len(),
            forall|k: int| 0 <= k < i ==> !is_whitespace_spec(#[trigger] s@[k]),
        decreases v@.len() - i,
    {
        if is_whitespace(v[i]) {
            assert(is_whitespace_spec(s@[i as int]));
            return true;
        }
        i = i + 1;
    }
    false
}

impl ModelId {
    /// Accept a model identifier that is non-empty and holds no whitespace.
    pub fn try_from_string(value: String) -> (r: Result<ModelId, ModelIdError>)
        ensures
            match r {
                Ok(m) => model_id_spec(value@) == Ok::<Seq<char>, ModelIdError>(m@),
                Err(e) => model_id_spec(value@) == Err::<Seq<char>, ModelIdError>(e),
            },
    {
        if value.as_str().is_empty() {
            return Err(ModelIdError::Empty);
        }
        if any_whitespace(value.as_str()) {
            return Err(ModelIdError::Whitespace);
        }
        Ok(ModelId { id: value })
    }

    pub fn as_str(&self) -> (r: &str)
        ensures
            r@ == self@,
    {
        self.id.as_str()
    }
}

/// What the pipeline needs from a chat-completion request body.
#[derive(Debug, Clone)]
pub struct ChatRequestMetadata {
    pub model: ModelId,
    pub stream: bool,
}

/// Why a chat-completion request body was refused.
#[derive(Debug, Clone, Copy, PartialEq, Eq, Structural)]
pub enum ChatRequestError {
    NotObject,
    MissingModel,
    InvalidModel(ModelIdError),
}

pub open spec fn chat_request_error_message(e: ChatRequestError) -> Seq<char> {
    match e {
        ChatRequestError::NotObject => "chat completion request must be a JSON object"@,
        ChatRequestError::MissingModel => "chat completion request is missing a model"@,
        ChatRequestError::InvalidModel(m) => model_id_error_message(m),
    }
}

impl ChatRequestError {
    /// The error's message.
    pub fn message(&self) -> (s: String)
        ensures
            s@ == chat_request_error_message(*self),
    {
        match self {
            ChatRequestError::NotObject => "chat completion request must be a JSON object".to_owned(),
            ChatRequestError::MissingModel => "chat completion request is missing a model".to_owned(),
            ChatRequestError::InvalidModel(m) => m.message(),
        }
    }
}

/// Metadata of a parsed chat-completion body: the model (a string, valid as
/// a model identifier) and `stream` (false unless a boolean `true`).
pub open spec fn chat_metadata_spec(v: JsonV) -> Result<(Seq<char>, bool), ChatRequestError> {
    match v {
        JsonV::Object(_) => match get_spec(v, "model"@) {
            Some(JsonV::Str(m)) => match model_id_spec(m) {
                Ok(id) => Ok(
                    (
                        id,
                        match get_spec(v, "stream"@) {
                            Some(JsonV::Bool(b)) => b,
                            _ => false,
                        },
                    ),
                ),
                Err(e) => Err(ChatRequestError::InvalidModel(e)),
            },
            _ => Err(ChatRequestError::MissingModel),
        },
        _ => Err(ChatRequestError::NotObject),
    }
}

impl ChatRequestMetadata {
    pub fn try_from_json(value: &Json) -> (r: Result<ChatRequestMetadata, ChatRequestError>)
        ensures
            match r {
                Ok(m) => chat_metadata_spec(value@) == Ok::<(Seq<char>, bool), ChatRequestError>(
                    (m.model@, m.stream),
                ),
                Err(e) => chat_metadata_spec(value@) == Err::<(Seq<char>, bool), ChatRequestError>(e),
            },
    {
        if !value.is_object() {
            return Err(ChatRequestError::NotObject);
        }
        let model = match value.get("model") {
            Some(m) => match m.as_str() {
                Some(s) => s,
                None => return Err(ChatRequestError::MissingModel),
            },
            None => return Err(ChatRequestError::MissingModel),
        };
        let model = match ModelId::try_from_string(model.clone()) {
            Ok(id) => id,
            Err(e) => return Err(ChatRequestError::InvalidModel(e)),
        };
        let stream = match value.get("stream") {
            Some(s) => match s.as_bool() {
                Some(b) => b,
                None => false,
            },
            None => false,
        };
        Ok(ChatRequestMetadata { model, stream })
    }
}

/// Token accounting reported by an OpenAI-compatible response.
#[derive(Debug, Clone, Copy, PartialEq, Eq, Structural)]
pub struct TokenUsage {
    pub prompt_tokens: u64,
    pub completion_tokens: u64,
    pub total_tokens: u64,
}

/// The `error` object of an OpenAI-compatible error body.
#[derive(Debug, Clone)]
pub struct OpenAiError {
    pub message: String,
    pub error_type: String,
    pub code: String,
}

/// An OpenAI-compatible error body: `{"error": {...}}`.
#[derive(Debug, Clone)]
pub struct OpenAiErrorEnvelope {
    pub error: OpenAiError,
}

/// The envelope carries exactly these three strings.
pub open spec fn envelope_is(e: OpenAiErrorEnvelope, message: Seq<char>, error_type: Seq<char>, code: Seq<char>) -> bool {
    e.error.message@ == message && e.error.error_type@ == error_type && e.error.code@ == code
}

impl OpenAiErrorEnvelope {
    pub fn new(message: &str, error_type: &str, code: &str) -> (e: OpenAiErrorEnvelope)
        ensures
            envelope_is(e, message@, error_type@, code@),
    {
        OpenAiErrorEnvelope {
            error: OpenAiError {
                message: message.to_owned(),
                error_type: error_type.to_owned(),
                code: code.to_owned(),
            },
        }
    }
}

} // verus!
