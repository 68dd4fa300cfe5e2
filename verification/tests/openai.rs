use axum::http::{Method, Uri};
use maul::json::Json;
use maul::openai::{
    CHAT_COMPLETIONS_PATH, ChatRequestError, ChatRequestMetadata, ModelId, ModelIdError,
    OpenAiErrorEnvelope, classify_billable_route,
};

#[test]
fn classifies_only_post_chat_completions_requests() {
    let uri: Uri = format!("{CHAT_COMPLETIONS_PATH}?stream=true")
        .parse()
        .unwrap();
    assert!(classify_billable_route(Method::POST.as_str(), uri.path()).is_some());
    assert!(classify_billable_route(Method::GET.as_str(), uri.path()).is_none());

    let trailing_slash: Uri = format!("{CHAT_COMPLETIONS_PATH}/").parse().unwrap();
    assert!(classify_billable_route(Method::POST.as_str(), trailing_slash.path()).is_some());

    let models: Uri = "/v1/models".parse().unwrap();
    assert!(classify_billable_route(Method::POST.as_str(), models.path()).is_none());
}

#[test]
fn model_ids_reject_empty_and_whitespace() {
    assert!(matches!(
        ModelId::try_from_string(String::new()),
        Err(ModelIdError::Empty)
    ));
    assert!(matches!(
        ModelId::try_from_string("gpt 4o".to_owned()),
        Err(ModelIdError::Whitespace)
    ));

    let model = ModelId::try_from_string("gpt-4o-mini".to_owned()).unwrap();
    assert_eq!(model.as_str(), "gpt-4o-mini");
}

#[test]
fn error_envelope_serializes_openai_compatible_shape() {
    let envelope = OpenAiErrorEnvelope::new(
        "maul: injected fault force_429",
        "rate_limit_error",
        "force_429",
    );

    assert_eq!(envelope.error.message, "maul: injected fault force_429");
    assert_eq!(envelope.error.error_type, "rate_limit_error");
    assert_eq!(envelope.error.code, "force_429");
}

#[test]
fn chat_metadata_reads_model_and_stream_flag() {
    let body = Json::parse(br#"{"model":"gpt-4o-mini","stream":true}"#).unwrap();
    let metadata = ChatRequestMetadata::try_from_json(&body).unwrap();
    assert_eq!(metadata.model.as_str(), "gpt-4o-mini");
    assert!(metadata.stream);

    let no_stream = Json::parse(br#"{"model":"gpt-4o","stream":"yes"}"#).unwrap();
    assert!(!ChatRequestMetadata::try_from_json(&no_stream).unwrap().stream);
}

#[test]
fn chat_metadata_errors_name_what_is_wrong() {
    let not_object = Json::parse(b"[1,2]").unwrap();
    let error = ChatRequestMetadata::try_from_json(&not_object).unwrap_err();
    assert_eq!(error, ChatRequestError::NotObject);
    assert_eq!(error.message(), "chat completion request must be a JSON object");

    let missing = Json::parse(br#"{"model":7}"#).unwrap();
    let error = ChatRequestMetadata::try_from_json(&missing).unwrap_err();
    assert_eq!(error, ChatRequestError::MissingModel);

    let spaced = Json::parse(br#"{"model":"gpt 4o"}"#).unwrap();
    let error = ChatRequestMetadata::try_from_json(&spaced).unwrap_err();
    assert_eq!(error, ChatRequestError::InvalidModel(ModelIdError::Whitespace));
    assert_eq!(error.message(), "model identifier cannot contain whitespace");
}
