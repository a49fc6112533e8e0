//! The user-facing failure contract of LLM operations, the detailed
//! configuration and service errors behind it, and the central
//! classification of non-success provider responses.
use vstd::prelude::*;

use crate::json::{get_member, JsonNumber, JsonValue};
use crate::llm::default_generation_schema::{schema_error_text, LlmSchemaError};
use crate::llm::{provider_name, LlmProvider};
use crate::text::{
    chars_of, collapse_whitespace_chars, collapse_ws, decimal, is_blank, push_chars, push_decimal,
    string_of_chars, trim, trim_seq,
};

verus! {

// =====================================================================
// User-facing failure contract
// =====================================================================
pub const NOT_CONFIGURED_MESSAGE: &'static str = "Choose an LLM provider and model in Models, then save your settings before generating questions.";

pub const INVALID_SETTINGS_MESSAGE: &'static str = "The saved model settings are invalid. Review and save them again in Models.";

pub const CLIENT_INIT_MESSAGE: &'static str = "ARKA could not initialize the LLM client. Restart the app and try again.";

pub const CONNECT_MESSAGE: &'static str = "ARKA could not reach the configured LLM provider. Check the provider URL and your network connection.";

pub const TIMEOUT_MESSAGE: &'static str = "The LLM connection failed or timed out. Check the provider and try again.";

pub const HTTP_MESSAGE: &'static str = "The LLM request failed unexpectedly. Try again.";

pub const MODEL_NOT_FOUND_MESSAGE: &'static str = "The selected model was not found. Choose an available model in Models.";

pub const MISSING_KEY_MESSAGE: &'static str = "The OpenRouter API key is missing. Add it in Models and save your settings.";

pub const INVALID_RESPONSE_MESSAGE: &'static str = "The model did not return a valid response. Try again or choose another model.";

pub const SERIALIZE_MESSAGE: &'static str = "ARKA could not prepare the LLM request.";

pub const UNAUTHORIZED_MESSAGE: &'static str = "The LLM provider rejected the API key. Check the key in Models.";

pub const PAYMENT_MESSAGE: &'static str = "The LLM account has insufficient credits. Add credits or choose another provider.";

pub const FORBIDDEN_MESSAGE: &'static str = "The LLM provider denied this request. Check the API key permissions and provider account.";

pub const NOT_FOUND_MESSAGE: &'static str = "The selected model or provider endpoint was not found. Review the settings in Models.";

pub const RATE_LIMIT_MESSAGE: &'static str = "The LLM provider is rate limiting requests. Wait briefly and try again.";

pub const UNAVAILABLE_MESSAGE: &'static str = "The LLM provider is temporarily unavailable. Try again shortly.";

pub const REJECTED_MESSAGE: &'static str = "The LLM provider rejected the request. Try a smaller note or choose another model.";

pub const UNEXPECTED_STATUS_MESSAGE: &'static str = "The LLM provider returned an unexpected error. Try again.";

/// Longest provider message shown, in characters.
pub const MAX_PROVIDER_MESSAGE_CHARS: usize = 300;

/// Stable, user-facing categories shared by backend commands and the
/// frontend.
#[derive(Debug, Clone, Copy, PartialEq, Eq, Structural)]
pub enum LlmFailureCode {
    /// Model settings are missing, invalid, or name an unavailable model.
    Setup,
    /// Provider credentials, credits, or account permissions need attention.
    Account,
    /// The configured provider could not be reached.
    Connection,
    /// The provider is rate limiting requests.
    RateLimited,
    /// The provider or upstream model is temporarily unavailable.
    ProviderUnavailable,
    /// The provider rejected the request parameters, content, or size.
    RequestRejected,
    /// The model returned empty, malformed, or schema-incompatible output.
    InvalidResponse,
    /// The failure matches no known actionable category.
    Unknown,
}

/// The error contract returned to callers when an LLM operation fails.
#[derive(Debug)]
pub struct LlmFailure {
    /// Stable category the frontend chooses its response by.
    pub code: LlmFailureCode,
    /// Safe, actionable message that may be shown to the user.
    pub message: String,
    /// Whether retrying the same operation may succeed unchanged.
    pub retryable: bool,
    /// Provider-supplied retry delay, when one is available.
    pub retry_after_secs: Option<u64>,
}

pub struct LlmFailureView {
    pub code: LlmFailureCode,
    pub message: Seq<char>,
    pub retryable: bool,
    pub retry_after_secs: Option<u64>,
}

impl View for LlmFailure {
    type V = LlmFailureView;

    open spec fn view(&self) -> LlmFailureView {
        LlmFailureView {
            code: self.code,
            message: self.message@,
            retryable: self.retryable,
            retry_after_secs: self.retry_after_secs,
        }
    }
}

/// A failure without a provider retry delay.
pub open spec fn failure(code: LlmFailureCode, message: Seq<char>, retryable: bool) -> LlmFailureView {
    LlmFailureView { code, message, retryable, retry_after_secs: None }
}

impl LlmFailure {
    /// Creates a failure without a provider-specific retry delay.
    pub fn new(code: LlmFailureCode, message: &str, retryable: bool) -> (r: Self)
        ensures
            r@ == failure(code, message@, retryable),
    {
        LlmFailure { code, message: String::from_str(message), retryable, retry_after_secs: None }
    }

    /// A field-by-field copy.
    pub fn duplicate(&self) -> (r: Self)
        ensures
            r@ == self@,
    {
        LlmFailure {
            code: self.code,
            message: self.message.clone(),
            retryable: self.retryable,
            retry_after_secs: self.retry_after_secs,
        }
    }
}

// =====================================================================
// Configuration errors
// =====================================================================
/// Detailed errors from loading, validating, or applying configuration.
#[derive(Debug)]
pub enum LlmConfigError {
    /// No LLM provider and model have been configured.
    NotConfigured,
    /// A numeric configuration value could not be parsed.
    InvalidInteger { key: String, value: String },
    /// A configuration value failed validation.
    InvalidValue { key: String, value: String, reason: String },
    /// The shared runtime configuration is unavailable.
    RuntimeConfigPoisoned,
    /// The HTTP client could not be built; holds the client's error text.
    HttpClientBuild(String),
}

pub enum LlmConfigErrorView {
    NotConfigured,
    InvalidInteger { key: Seq<char>, value: Seq<char> },
    InvalidValue { key: Seq<char>, value: Seq<char>, reason: Seq<char> },
    RuntimeConfigPoisoned,
    HttpClientBuild(Seq<char>),
}

impl View for LlmConfigError {
    type V = LlmConfigErrorView;

    open spec fn view(&self) -> LlmConfigErrorView {
        match self {
            LlmConfigError::NotConfigured => LlmConfigErrorView::NotConfigured,
            LlmConfigError::InvalidInteger { key, value } => LlmConfigErrorView::InvalidInteger {
                key: key@,
                value: value@,
            },
            LlmConfigError::InvalidValue { key, value, reason } => LlmConfigErrorView::InvalidValue {
                key: key@,
                value: value@,
                reason: reason@,
            },
            LlmConfigError::RuntimeConfigPoisoned => LlmConfigErrorView::RuntimeConfigPoisoned,
            LlmConfigError::HttpClientBuild(detail) => LlmConfigErrorView::HttpClientBuild(detail@),
        }
    }
}

/// The user-facing failure of a configuration error.
pub open spec fn config_failure(e: LlmConfigErrorView) -> LlmFailureView {
    match e {
        LlmConfigErrorView::NotConfigured => failure(LlmFailureCode::Setup, NOT_CONFIGURED_MESSAGE@, false),
        LlmConfigErrorView::InvalidInteger { .. } => failure(LlmFailureCode::Setup, INVALID_SETTINGS_MESSAGE@, false),
        LlmConfigErrorView::InvalidValue { .. } => failure(LlmFailureCode::Setup, INVALID_SETTINGS_MESSAGE@, false),
        _ => failure(LlmFailureCode::Unknown, CLIENT_INIT_MESSAGE@, false),
    }
}

/// The developer-facing description of a configuration error.
pub open spec fn config_error_text(e: LlmConfigErrorView) -> Seq<char> {
    match e {
        LlmConfigErrorView::NotConfigured => "No LLM provider and model have been configured"@,
        LlmConfigErrorView::InvalidInteger { key, value } => "Invalid integer for "@ + key + ": "@ + value,
        LlmConfigErrorView::InvalidValue { key, value, reason } => "Invalid value for "@ + key + " ('"@ + value
            + "'): "@ + reason,
        LlmConfigErrorView::RuntimeConfigPoisoned => "Runtime LLM config state is unavailable"@,
        LlmConfigErrorView::HttpClientBuild(detail) => "Failed to build HTTP client: "@ + detail,
    }
}

impl LlmConfigError {
    /// Converts a detailed configuration error into the stable user-facing
    /// contract, hiding technical details.
    pub fn to_failure(&self) -> (r: LlmFailure)
        ensures
            r@ == config_failure(self@),
    {
        match self {
            LlmConfigError::NotConfigured => LlmFailure::new(LlmFailureCode::Setup, NOT_CONFIGURED_MESSAGE, false),
            LlmConfigError::InvalidInteger { .. } => LlmFailure::new(
                LlmFailureCode::Setup,
                INVALID_SETTINGS_MESSAGE,
                false,
            ),
            LlmConfigError::InvalidValue { .. } => LlmFailure::new(
                LlmFailureCode::Setup,
                INVALID_SETTINGS_MESSAGE,
                false,
            ),
            _ => LlmFailure::new(LlmFailureCode::Unknown, CLIENT_INIT_MESSAGE, false),
        }
    }

    /// The developer-facing description used in logs.
    pub fn to_string(&self) -> (r: String)
        ensures
            r@ == config_error_text(self@),
    {
        match self {
            LlmConfigError::NotConfigured => String::from_str("No LLM provider and model have been configured"),
            LlmConfigError::InvalidInteger { key, value } => {
                let mut out = String::from_str("Invalid integer for ");
                out.append(key.as_str());
                out.append(": ");
                out.append(value.as_str());
                out
            },
            LlmConfigError::InvalidValue { key, value, reason } => {
                let mut out = String::from_str("Invalid value for ");
                out.append(key.as_str());
                out.append(" ('");
                out.append(value.as_str());
                out.append("'): ");
                out.append(reason.as_str());
                out
            },
            LlmConfigError::RuntimeConfigPoisoned => String::from_str("Runtime LLM config state is unavailable"),
            LlmConfigError::HttpClientBuild(detail) => {
                let mut out = String::from_str("Failed to build HTTP client: ");
                out.append(detail.as_str());
                out
            },
        }
    }
}

// =====================================================================
// Service errors
// =====================================================================
/// Detailed errors from sending an LLM request or processing its reply.
///
/// Transport errors carry the client's error text and the two facts the
/// classification reads from it.
#[derive(Debug)]
pub enum LlmServiceError {
    /// The endpoint could not be reached.
    Connect { url: String, detail: String },
    /// The request failed in transport; whether by timeout or connection.
    Http { detail: String, timeout_or_connect: bool },
    /// The provider answered with a non-success status.
    HttpStatus { failure: LlmFailure },
    /// The reply envelope could not be decoded.
    ResponseDecode(String),
    /// The requested model is not offered by the provider.
    ModelNotFound { model: String },
    /// The provider needs an API key and none is configured.
    MissingApiKey,
    /// The request could not be serialized.
    Serialize(String),
    /// The model returned no content.
    EmptyModelResponse,
    /// The model output failed schema decoding or validation.
    Schema(LlmSchemaError),
    /// The model output broke a semantic rule.
    InvalidOutput(String),
}

/// The user-facing failure of a service error.
pub open spec fn service_failure(e: LlmServiceError) -> LlmFailureView {
    match e {
        LlmServiceError::Connect { .. } => failure(LlmFailureCode::Connection, CONNECT_MESSAGE@, true),
        LlmServiceError::Http { timeout_or_connect, .. } => if timeout_or_connect {
            failure(LlmFailureCode::Connection, TIMEOUT_MESSAGE@, true)
        } else {
            failure(LlmFailureCode::Unknown, HTTP_MESSAGE@, false)
        },
        LlmServiceError::HttpStatus { failure } => failure@,
        LlmServiceError::ModelNotFound { .. } => failure(LlmFailureCode::Setup, MODEL_NOT_FOUND_MESSAGE@, false),
        LlmServiceError::MissingApiKey => failure(LlmFailureCode::Account, MISSING_KEY_MESSAGE@, false),
        LlmServiceError::Serialize(_) => failure(LlmFailureCode::Unknown, SERIALIZE_MESSAGE@, false),
        _ => failure(LlmFailureCode::InvalidResponse, INVALID_RESPONSE_MESSAGE@, true),
    }
}

/// The developer-facing description of a service error.
pub open spec fn service_error_text(e: LlmServiceError) -> Seq<char> {
    match e {
        LlmServiceError::Connect { url, detail } => "Cannot reach LLM endpoint at "@ + url@ + ": "@ + detail@
            + ". Ensure the provider endpoint is reachable and credentials are valid."@,
        LlmServiceError::Http { detail, .. } => "LLM request failed: "@ + detail@,
        LlmServiceError::HttpStatus { failure } => failure.message@,
        LlmServiceError::ResponseDecode(detail) => "Failed to decode LLM response envelope: "@ + detail@,
        LlmServiceError::ModelNotFound { model } => "Model '"@ + model@
            + "' was not found on this provider URL. Try fetching all models first."@,
        LlmServiceError::MissingApiKey => "Missing API key for provider request. Set OPENROUTER_API_KEY in your environment."@,
        LlmServiceError::Serialize(detail) => "Failed to serialize LLM request context: "@ + detail@,
        LlmServiceError::EmptyModelResponse => "LLM returned an empty response message"@,
        LlmServiceError::Schema(err) => schema_error_text(err),
        LlmServiceError::InvalidOutput(detail) => "LLM returned invalid output: "@ + detail@,
    }
}

impl LlmServiceError {
    /// Converts an LLM operation error into a safe, actionable failure.
    pub fn to_failure(&self) -> (r: LlmFailure)
        ensures
            r@ == service_failure(*self),
    {
        match self {
            LlmServiceError::Connect { .. } => LlmFailure::new(LlmFailureCode::Connection, CONNECT_MESSAGE, true),
            LlmServiceError::Http { timeout_or_connect, .. } => if *timeout_or_connect {
                LlmFailure::new(LlmFailureCode::Connection, TIMEOUT_MESSAGE, true)
            } else {
                LlmFailure::new(LlmFailureCode::Unknown, HTTP_MESSAGE, false)
            },
            LlmServiceError::HttpStatus { failure } => failure.duplicate(),
            LlmServiceError::ModelNotFound { .. } => LlmFailure::new(
                LlmFailureCode::Setup,
                MODEL_NOT_FOUND_MESSAGE,
                false,
            ),
            LlmServiceError::MissingApiKey => LlmFailure::new(LlmFailureCode::Account, MISSING_KEY_MESSAGE, false),
            LlmServiceError::Serialize(_) => LlmFailure::new(LlmFailureCode::Unknown, SERIALIZE_MESSAGE, false),
            _ => LlmFailure::new(LlmFailureCode::InvalidResponse, INVALID_RESPONSE_MESSAGE, true),
        }
    }

    /// The developer-facing description used in logs.
    pub fn to_string(&self) -> (r: String)
        ensures
            r@ == service_error_text(*self),
    {
        match self {
            LlmServiceError::Connect { url, detail } => {
                let mut out = String::from_str("Cannot reach LLM endpoint at ");
                out.append(url.as_str());
                out.append(": ");
                out.append(detail.as_str());
                out.append(". Ensure the provider endpoint is reachable and credentials are valid.");
                out
            },
            LlmServiceError::Http { detail, .. } => {
                let mut out = String::from_str("LLM request failed: ");
                out.append(detail.as_str());
                out
            },
            LlmServiceError::HttpStatus { failure } => failure.message.clone(),
            LlmServiceError::ResponseDecode(detail) => {
                let mut out = String::from_str("Failed to decode LLM response envelope: ");
                out.append(detail.as_str());
                out
            },
            LlmServiceError::ModelNotFound { model } => {
                let mut out = String::from_str("Model '");
                out.append(model.as_str());
                out.append("' was not found on this provider URL. Try fetching all models first.");
                out
            },
            LlmServiceError::MissingApiKey => String::from_str(
                "Missing API key for provider request. Set OPENROUTER_API_KEY in your environment.",
            ),
            LlmServiceError::Serialize(detail) => {
                let mut out = String::from_str("Failed to serialize LLM request context: ");
                out.append(detail.as_str());
                out
            },
            LlmServiceError::EmptyModelResponse => String::from_str("LLM returned an empty response message"),
            LlmServiceError::Schema(err) => err.to_string(),
            LlmServiceError::InvalidOutput(detail) => {
                let mut out = String::from_str("LLM returned invalid output: ");
                out.append(detail.as_str());
                out
            },
        }
    }
}

/// Whether the same request may succeed when attempted again.
pub fn is_retryable_error(error: &LlmServiceError) -> (r: bool)
    ensures
        r == service_failure(*error).retryable,
{
    error.to_failure().retryable
}

// =====================================================================
// Provider error envelopes
// =====================================================================
/// Provider-neutral details of a provider error reply.
#[derive(Debug, Clone, PartialEq, Eq)]
pub struct ProviderErrorDetails {
    pub code: Option<String>,
    pub message: String,
}

pub struct ProviderErrorDetailsView {
    pub code: Option<Seq<char>>,
    pub message: Seq<char>,
}

impl View for ProviderErrorDetails {
    type V = ProviderErrorDetailsView;

    open spec fn view(&self) -> ProviderErrorDetailsView {
        ProviderErrorDetailsView {
            code: match self.code {
                Some(c) => Some(c@),
                None => None,
            },
            message: self.message@,
        }
    }
}

/// Views of optional details.
pub open spec fn details_view(d: Option<ProviderErrorDetails>) -> Option<ProviderErrorDetailsView> {
    match d {
        Some(x) => Some(x@),
        None => None,
    }
}

/// A parsed reply body, when the body was JSON.
pub open spec fn body_value(body: Option<&JsonValue>) -> Option<JsonValue> {
    match body {
        Some(v) => Some(*v),
        None => None,
    }
}

/// A provider error code: a non-blank string as written, or a number's
/// text; nothing for other values.
pub open spec fn error_code_of(v: JsonValue) -> Option<Seq<char>> {
    match v {
        JsonValue::String(c) => if trim_seq(c@).len() == 0 {
            None
        } else {
            Some(c@)
        },
        JsonValue::Number(n) => Some(n.text@),
        _ => None,
    }
}

/// Ollama's `{ "error": "..." }` reply, with a non-blank message.
pub open spec fn ollama_error_details(body: JsonValue) -> Option<ProviderErrorDetailsView> {
    match get_member(body, "error"@) {
        Some(JsonValue::String(m)) => if trim_seq(m@).len() == 0 {
            None
        } else {
            Some(ProviderErrorDetailsView { code: None, message: trim_seq(m@) })
        },
        _ => None,
    }
}

/// The OpenAI-compatible `{ "error": { "code", "message" } }` reply, with a
/// string message that is not blank and an optional code.
pub open spec fn openai_compatible_error_details(body: JsonValue) -> Option<ProviderErrorDetailsView> {
    match get_member(body, "error"@) {
        Some(err) => match get_member(err, "message"@) {
            Some(JsonValue::String(m)) => if trim_seq(m@).len() == 0 {
                None
            } else {
                Some(
                    ProviderErrorDetailsView {
                        code: match get_member(err, "code"@) {
                            Some(c) => error_code_of(c),
                            None => None,
                        },
                        message: trim_seq(m@),
                    },
                )
            },
            _ => None,
        },
        None => None,
    }
}

/// The details of a provider's error reply; nothing when the body is not
/// JSON or not the provider's error envelope.
pub open spec fn provider_error_details(provider: LlmProvider, body: Option<JsonValue>) -> Option<
    ProviderErrorDetailsView,
> {
    match body {
        None => None,
        Some(b) => match provider {
            LlmProvider::Ollama => ollama_error_details(b),
            _ => openai_compatible_error_details(b),
        },
    }
}

/// Converts a JSON string or number error code into its text.
pub fn provider_error_code(value: &JsonValue) -> (r: Option<String>)
    ensures
        match r {
            Some(c) => error_code_of(*value) == Some(c@),
            None => error_code_of(*value) is None,
        },
{
    match value {
        JsonValue::String(code) => {
            if is_blank(code.as_str()) {
                None
            } else {
                Some(code.clone())
            }
        },
        JsonValue::Number(n) => Some(n.text.clone()),
        _ => None,
    }
}

/// Parses Ollama's `{ "error": "..." }` reply.
pub fn parse_ollama_error(body: &JsonValue) -> (r: Option<ProviderErrorDetails>)
    ensures
        details_view(r) == ollama_error_details(*body),
{
    match body.get("error") {
        Some(v) => match v.as_str() {
            Some(m) => {
                if is_blank(m) {
                    None
                } else {
                    Some(ProviderErrorDetails { code: None, message: trim(m) })
                }
            },
            None => None,
        },
        None => None,
    }
}

/// Parses the OpenAI-compatible `{ "error": { "code", "message" } }` reply
/// used by OpenAI and OpenRouter.
pub fn parse_openai_compatible_error(body: &JsonValue) -> (r: Option<ProviderErrorDetails>)
    ensures
        details_view(r) == openai_compatible_error_details(*body),
{
    match body.get("error") {
        Some(err) => match err.get("message") {
            Some(v) => match v.as_str() {
                Some(m) => {
                    if is_blank(m) {
                        None
                    } else {
                        let code = match err.get("code") {
                            Some(c) => provider_error_code(c),
                            None => None,
                        };
                        Some(ProviderErrorDetails { code, message: trim(m) })
                    }
                },
                None => None,
            },
            None => None,
        },
        None => None,
    }
}

/// Parses a provider's error reply into normalized details; `None` stands
/// for a body that is not JSON.
pub fn parse_provider_error(provider: LlmProvider, body: Option<&JsonValue>) -> (r: Option<ProviderErrorDetails>)
    ensures
        details_view(r) == provider_error_details(provider, body_value(body)),
{
    match body {
        None => None,
        Some(b) => match provider {
            LlmProvider::Ollama => parse_ollama_error(b),
            _ => parse_openai_compatible_error(b),
        },
    }
}

/// The provider message as shown: white space collapsed to single spaces,
/// and at most 300 characters, the last three `...` when it was cut.
pub open spec fn bounded_message(message: Seq<char>) -> Seq<char> {
    let normalized = collapse_ws(message);
    if normalized.len() <= 300 {
        normalized
    } else {
        normalized.take(297) + "..."@
    }
}

/// Produces one compact provider message for logs and the frontend.
pub fn bounded_provider_message(message: &str) -> (r: String)
    ensures
        r@ == bounded_message(message@),
        r@.len() <= MAX_PROVIDER_MESSAGE_CHARS,
{
    let chars = chars_of(message);
    let normalized = collapse_whitespace_chars(&chars);
    if normalized.len() <= MAX_PROVIDER_MESSAGE_CHARS {
        return string_of_chars(&normalized);
    }
    let mut kept: Vec<char> = Vec::new();
    for i in 0..297
        invariant
            normalized@.len() > 300,
            kept@ == normalized@.take(i as int),
    {
        kept.push(normalized[i]);
        assert(kept@ =~= normalized@.take(i + 1));
    }
    let mut out = string_of_chars(&kept);
    out.append("...");
    proof {
        reveal_strlit("...");
    }
    out
}

// =====================================================================
// Status classification
// =====================================================================
/// The user-facing failure of a non-success HTTP status.
pub open spec fn status_failure(status: u16) -> LlmFailureView {
    if status == 401 {
        failure(LlmFailureCode::Account, UNAUTHORIZED_MESSAGE@, false)
    } else if status == 402 {
        failure(LlmFailureCode::Account, PAYMENT_MESSAGE@, false)
    } else if status == 403 {
        failure(LlmFailureCode::Account, FORBIDDEN_MESSAGE@, false)
    } else if status == 404 {
        failure(LlmFailureCode::Setup, NOT_FOUND_MESSAGE@, false)
    } else if status == 429 {
        failure(LlmFailureCode::RateLimited, RATE_LIMIT_MESSAGE@, true)
    } else if status == 500 || status == 502 || status == 503 || status == 504 {
        failure(LlmFailureCode::ProviderUnavailable, UNAVAILABLE_MESSAGE@, true)
    } else if status == 400 || status == 413 || status == 422 {
        failure(LlmFailureCode::RequestRejected, REJECTED_MESSAGE@, false)
    } else {
        failure(LlmFailureCode::Unknown, UNEXPECTED_STATUS_MESSAGE@, false)
    }
}

/// Maps an HTTP status code to its user-facing failure.
pub fn failure_from_http_status(status: u16) -> (r: LlmFailure)
    ensures
        r@ == status_failure(status),
{
    if status == 401 {
        LlmFailure::new(LlmFailureCode::Account, UNAUTHORIZED_MESSAGE, false)
    } else if status == 402 {
        LlmFailure::new(LlmFailureCode::Account, PAYMENT_MESSAGE, false)
    } else if status == 403 {
        LlmFailure::new(LlmFailureCode::Account, FORBIDDEN_MESSAGE, false)
    } else if status == 404 {
        LlmFailure::new(LlmFailureCode::Setup, NOT_FOUND_MESSAGE, false)
    } else if status == 429 {
        LlmFailure::new(LlmFailureCode::RateLimited, RATE_LIMIT_MESSAGE, true)
    } else if status == 500 || status == 502 || status == 503 || status == 504 {
        LlmFailure::new(LlmFailureCode::ProviderUnavailable, UNAVAILABLE_MESSAGE, true)
    } else if status == 400 || status == 413 || status == 422 {
        LlmFailure::new(LlmFailureCode::RequestRejected, REJECTED_MESSAGE, false)
    } else {
        LlmFailure::new(LlmFailureCode::Unknown, UNEXPECTED_STATUS_MESSAGE, false)
    }
}

/// The failure of a classified non-success reply: the status decides the
/// category and retry behavior; a recognized provider envelope replaces the
/// status message with its bounded message and supplies the code.
pub open spec fn classified_failure(
    provider: LlmProvider,
    status: u16,
    status_text: Seq<char>,
    body: Option<JsonValue>,
) -> LlmFailureView {
    let base = status_failure(status);
    let details = provider_error_details(provider, body);
    let shown = match details {
        Some(d) => bounded_message(d.message),
        None => base.message,
    };
    let code = match details {
        Some(d) => match d.code {
            Some(c) => c,
            None => "unknown"@,
        },
        None => "unknown"@,
    };
    LlmFailureView {
        code: base.code,
        message: "LLM provider request failed (provider="@ + provider_name(provider) + ", status="@ + status_text
            + ", code="@ + code + "): "@ + shown,
        retryable: base.retryable,
        retry_after_secs: None,
    }
}

/// Classifies a non-success reply given the status line the HTTP client
/// displays for it (such as `401 Unauthorized`).
pub fn classify_provider_response(
    provider: LlmProvider,
    status: u16,
    status_text: &str,
    body: Option<&JsonValue>,
) -> (r: LlmServiceError)
    ensures
        r matches LlmServiceError::HttpStatus { failure } && failure@ == classified_failure(
            provider,
            status,
            status_text@,
            body_value(body),
        ),
{
    let base = failure_from_http_status(status);
    let details = parse_provider_error(provider, body);
    let mut message = String::from_str("LLM provider request failed (provider=");
    message.append(provider.as_str());
    message.append(", status=");
    message.append(status_text);
    message.append(", code=");
    match &details {
        Some(d) => {
            match &d.code {
                Some(c) => message.append(c.as_str()),
                None => message.append("unknown"),
            }
            message.append("): ");
            let shown = bounded_provider_message(d.message.as_str());
            message.append(shown.as_str());
        },
        None => {
            message.append("unknown");
            message.append("): ");
            message.append(base.message.as_str());
        },
    }
    LlmServiceError::HttpStatus {
        failure: LlmFailure {
            code: base.code,
            message,
            retryable: base.retryable,
            retry_after_secs: None,
        },
    }
}

/// The text the HTTP client's status type displays for a code.
pub uninterp spec fn status_line(code: u16) -> Seq<char>;

/// Wraps `Display` of `reqwest::StatusCode` (built by `StatusCode::from_u16`,
/// which accepts exactly the codes 100 to 999): the code and its canonical
/// reason phrase, a function of the code alone.
#[verifier::external_body]
fn status_text(code: u16) -> (r: String)
    requires
        100 <= code <= 999,
    ensures
        r@ == status_line(code),
{
    match reqwest::StatusCode::from_u16(code) {
        Ok(status) => status.to_string(),
        Err(_) => String::new(),
    }
}

/// Centrally classifies a non-success reply from any supported provider.
///
/// The HTTP status supplies the broad code and retry behavior. A recognized
/// provider error envelope replaces the generic status message after
/// normalization and truncation; other bodies are never shown.
pub fn classify_provider_error(provider: LlmProvider, status: u16, body: Option<&JsonValue>) -> (r: LlmServiceError)
    requires
        100 <= status <= 999,
    ensures
        r matches LlmServiceError::HttpStatus { failure } && failure@ == classified_failure(
            provider,
            status,
            status_line(status),
            body_value(body),
        ),
{
    let line = status_text(status);
    classify_provider_response(provider, status, line.as_str(), body)
}

} // verus!
