use arka::json::{JsonNumber, JsonValue};
use arka::llm::error::{LlmFailure, LlmFailureCode, LlmServiceError, ProviderErrorDetails};
use arka::llm::{LlmConfigError, LlmProvider};
use reqwest::StatusCode;
/// Converts serde_json's document model into the library's.
fn to_json(value: &serde_json::Value) -> JsonValue {
    match value {
        serde_json::Value::Null => JsonValue::Null,
        serde_json::Value::Bool(b) => JsonValue::Bool(*b),
        serde_json::Value::Number(n) => JsonValue::Number(JsonNumber { as_u64: n.as_u64(), text: n.to_string() }),
        serde_json::Value::String(s) => JsonValue::String(s.clone()),
        serde_json::Value::Array(items) => JsonValue::Array(items.iter().map(to_json).collect()),
        serde_json::Value::Object(map) => {
            JsonValue::Object(map.iter().map(|(k, v)| (k.clone(), to_json(v))).collect())
        }
    }
}

/// Parses JSON text; `None` when the text is not JSON.
fn json(text: &str) -> Option<JsonValue> {
    serde_json::from_str::<serde_json::Value>(text).ok().map(|v| to_json(&v))
}

/// Parses a provider error body given as text.
fn parse_provider_error(provider: LlmProvider, body: &str) -> Option<ProviderErrorDetails> {
    let value = json(body);
    arka::llm::error::parse_provider_error(provider, value.as_ref())
}

/// Classifies a non-success reply given its status and body text.
fn classify_provider_error(provider: LlmProvider, status: StatusCode, body: &str) -> LlmServiceError {
    let value = json(body);
    arka::llm::error::classify_provider_error(provider, status.as_u16(), value.as_ref())
}

/// Maps a status to its failure.
fn failure_from_http_status(status: StatusCode) -> LlmFailure {
    arka::llm::error::failure_from_http_status(status.as_u16())
}

/// Bounds a provider message.
fn bounded_provider_message(message: &str) -> String {
    arka::llm::error::bounded_provider_message(message)
}

#[test]
fn error_parses_ollama_error_envelope() {
    let details = parse_provider_error(
        LlmProvider::Ollama,
        r#"{"error":"model 'qwen2.5' not found"}"#,
    )
    .expect("Ollama error response should parse");

    assert_eq!(details.code, None);
    assert_eq!(details.message, "model 'qwen2.5' not found");
}

#[test]
fn error_parses_openrouter_error_envelope() {
    let details = parse_provider_error(
        LlmProvider::OpenRouter,
        r#"{
            "error": {
                "code": 429,
                "message": "Rate limit exceeded",
                "metadata": { "provider_name": "Example" }
            }
        }"#,
    )
    .expect("OpenRouter error response should parse");

    assert_eq!(details.code.as_deref(), Some("429"));
    assert_eq!(details.message, "Rate limit exceeded");
}

#[test]
fn parses_openai_error_envelope() {
    let details = parse_provider_error(
        LlmProvider::OpenAi,
        r#"{
            "error": {
                "code": "invalid_request_error",
                "message": "Invalid response format"
            }
        }"#,
    )
    .expect("OpenAI error response should parse");

    assert_eq!(details.code.as_deref(), Some("invalid_request_error"));
    assert_eq!(details.message, "Invalid response format");
}

#[test]
fn error_rejects_unrecognized_or_empty_provider_error_envelopes() {
    assert!(parse_provider_error(LlmProvider::Ollama, r#"{"error":"  "}"#).is_none());
    assert!(parse_provider_error(LlmProvider::OpenAi, "not-json").is_none());
    assert!(parse_provider_error(LlmProvider::OpenRouter, "not-json").is_none());
}

#[test]
fn error_central_classifier_uses_http_status_when_provider_body_is_unknown() {
    let error = classify_provider_error(
        LlmProvider::OpenRouter,
        StatusCode::UNAUTHORIZED,
        "not-json",
    );
    let failure = error.to_failure();

    assert_eq!(failure.code, LlmFailureCode::Account);
    assert!(!failure.retryable);
    assert_eq!(
        failure.message,
        "LLM provider request failed (provider=openrouter, status=401 Unauthorized, code=unknown): The LLM provider rejected the API key. Check the key in Models."
    );
}

#[test]
fn error_central_classifier_returns_parsed_openrouter_message() {
    let error = classify_provider_error(
        LlmProvider::OpenRouter,
        StatusCode::BAD_REQUEST,
        r#"{"error":{"code":429,"message":"  Request   is invalid  "}}"#,
    );
    let failure = error.to_failure();

    assert_eq!(failure.code, LlmFailureCode::RequestRejected);
    assert!(!failure.retryable);
    assert_eq!(
        failure.message,
        "LLM provider request failed (provider=openrouter, status=400 Bad Request, code=429): Request is invalid"
    );
    assert_eq!(error.to_string(), failure.message);
    assert!(!error.to_string().contains(r#"{"error"#));
}

#[test]
fn error_central_classifier_returns_parsed_ollama_message() {
    let error = classify_provider_error(
        LlmProvider::Ollama,
        StatusCode::BAD_REQUEST,
        r#"{"error":"model 'private-model-name' not found"}"#,
    );
    let failure = error.to_failure();

    assert_eq!(failure.code, LlmFailureCode::RequestRejected);
    assert!(!failure.retryable);
    assert_eq!(
        failure.message,
        "LLM provider request failed (provider=ollama, status=400 Bad Request, code=unknown): model 'private-model-name' not found"
    );
}

#[test]
fn error_bounded_provider_message_is_limited_to_300_characters() {
    let message = "a".repeat(400);
    let truncated = bounded_provider_message(&message);

    assert_eq!(truncated.chars().count(), 300);
    assert!(truncated.ends_with("..."));
}

#[test]
fn error_classifies_supported_http_statuses_into_the_contract() {
    let cases = [
        (StatusCode::UNAUTHORIZED, LlmFailureCode::Account, false),
        (StatusCode::PAYMENT_REQUIRED, LlmFailureCode::Account, false),
        (StatusCode::FORBIDDEN, LlmFailureCode::Account, false),
        (StatusCode::NOT_FOUND, LlmFailureCode::Setup, false),
        (
            StatusCode::TOO_MANY_REQUESTS,
            LlmFailureCode::RateLimited,
            true,
        ),
        (
            StatusCode::BAD_GATEWAY,
            LlmFailureCode::ProviderUnavailable,
            true,
        ),
        (
            StatusCode::SERVICE_UNAVAILABLE,
            LlmFailureCode::ProviderUnavailable,
            true,
        ),
        (
            StatusCode::BAD_REQUEST,
            LlmFailureCode::RequestRejected,
            false,
        ),
    ];

    for (status, expected_code, expected_retryable) in cases {
        let failure = failure_from_http_status(status);
        assert_eq!(failure.code, expected_code, "status={status}");
        assert_eq!(failure.retryable, expected_retryable, "status={status}");
        assert_eq!(failure.retry_after_secs, None, "status={status}");
        assert!(!failure.message.trim().is_empty(), "status={status}");
    }
}

#[test]
fn error_classifies_unhandled_http_status_as_unknown() {
    let failure = failure_from_http_status(StatusCode::IM_A_TEAPOT);

    assert_eq!(failure.code, LlmFailureCode::Unknown);
    assert!(!failure.retryable);
}

#[test]
fn error_classifies_missing_configuration_as_setup_failure() {
    let failure = LlmConfigError::NotConfigured.to_failure();

    assert_eq!(failure.code, LlmFailureCode::Setup);
    assert!(!failure.retryable);
    assert!(failure.message.contains("Models"));
}

