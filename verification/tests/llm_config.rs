use arka::json::{JsonNumber, JsonValue};
use arka::llm::error::{LlmFailureCode, LlmServiceError};
use arka::llm::{
    chat_reply_text, choices_reply_text, extract_text_content, next_retry_delay, parse_u64_env, resolve_llm_config, retry_delay,
    set_runtime_llm_config, strip_markdown_fences, LlmConfig, LlmConfigError, LlmEnv, LlmProvider,
};

/// Converts serde_json's document model into the library's.
fn to_json(value: &serde_json::Value) -> JsonValue {
    match value {
        serde_json::Value::Null => JsonValue::Null,
        serde_json::Value::Bool(b) => JsonValue::Bool(*b),
        serde_json::Value::Number(n) => JsonValue::Number(JsonNumber { as_u64: n.as_u64(), text: n.to_string() }),
        serde_json::Value::String(s) => JsonValue::String(s.clone()),
        serde_json::Value::Array(items) => JsonValue::Array(items.iter().map(to_json).collect()),
        serde_json::Value::Object(map) => {
            JsonValue::Object(map.iter().map(|(k, v)| (k.clone(), to_json(v))).collect())
        }
    }
}

/// Parses JSON text; `None` when the text is not JSON.
fn json(text: &str) -> Option<JsonValue> {
    serde_json::from_str::<serde_json::Value>(text).ok().map(|v| to_json(&v))
}

fn env(provider: Option<&str>, model: Option<&str>) -> LlmEnv {
    LlmEnv {
        llm_provider: provider.map(String::from),
        llm_base_url: None,
        openrouter_base_url: None,
        llm_model: model.map(String::from),
        llm_timeout_secs: None,
        openrouter_api_key: None,
    }
}

#[test]
fn provider_names_round_trip_case_insensitively() {
    assert_eq!(LlmProvider::from_str("  OLLAMA ").unwrap(), LlmProvider::Ollama);
    assert_eq!(LlmProvider::from_str("OpenRouter").unwrap(), LlmProvider::OpenRouter);
    assert_eq!(LlmProvider::Ollama.as_str(), "ollama");
    assert_eq!(LlmProvider::OpenRouter.as_str(), "openrouter");
    match LlmProvider::from_str("openai") {
        Err(LlmConfigError::InvalidValue { key, value, reason }) => {
            assert_eq!(key, "LLM_PROVIDER");
            assert_eq!(value, "openai");
            assert_eq!(reason, "expected 'ollama' or 'openrouter'");
        }
        other => panic!("unexpected result: {:?}", other),
    }
}

#[test]
fn environment_defaults_and_overrides() {
    let config = LlmConfig::from_env(&env(Some("ollama"), Some("qwen"))).unwrap();
    assert_eq!(config.base_url, "http://127.0.0.1:11434");
    assert_eq!(config.timeout_secs, 60);
    assert!(config.api_key.is_none());
    assert_eq!(config.chat_url(), "http://127.0.0.1:11434/api/chat");

    let mut openrouter = env(Some("openrouter"), Some("model"));
    openrouter.openrouter_api_key = Some(String::from("  key  "));
    openrouter.llm_timeout_secs = Some(String::from("+30"));
    openrouter.llm_base_url = Some(String::from("https://example.test/v1//"));
    let config = LlmConfig::from_env(&openrouter).unwrap();
    assert_eq!(config.api_key.as_deref(), Some("key"));
    assert_eq!(config.timeout_secs, 30);
    assert_eq!(config.chat_url(), "https://example.test/v1/chat/completions");
}

#[test]
fn environment_errors_follow_the_documented_order() {
    assert!(matches!(LlmConfig::from_env(&env(None, Some("m"))), Err(LlmConfigError::NotConfigured)));
    assert!(matches!(LlmConfig::from_env(&env(Some("ollama"), Some("   "))), Err(LlmConfigError::NotConfigured)));
    let mut bad_timeout = env(Some("ollama"), Some("m"));
    bad_timeout.llm_timeout_secs = Some(String::from("-5"));
    match LlmConfig::from_env(&bad_timeout) {
        Err(LlmConfigError::InvalidInteger { key, value }) => {
            assert_eq!(key, "LLM_TIMEOUT_SECS");
            assert_eq!(value, "-5");
        }
        other => panic!("unexpected result: {:?}", other),
    }
    match LlmConfig::from_env(&env(Some("openrouter"), Some("m"))) {
        Err(LlmConfigError::InvalidValue { key, value, .. }) => {
            assert_eq!(key, "OPENROUTER_API_KEY");
            assert_eq!(value, "");
        }
        other => panic!("unexpected result: {:?}", other),
    }
}

#[test]
fn runtime_settings_are_trimmed_and_validated() {
    let config = set_runtime_llm_config(" Ollama ", "  http://host:1/  ", " model ", 10, None).unwrap();
    assert_eq!(config.base_url, "http://host:1/");
    assert_eq!(config.model, "model");
    assert_eq!(config.chat_url(), "http://host:1/api/chat");
    match set_runtime_llm_config("ollama", "http://host", "model", 0, None) {
        Err(LlmConfigError::InvalidValue { key, value, reason }) => {
            assert_eq!(key, "timeout_secs");
            assert_eq!(value, "0");
            assert_eq!(reason, "must be greater than 0");
        }
        other => panic!("unexpected result: {:?}", other),
    }
    assert!(set_runtime_llm_config("openrouter", "http://host", "model", 5, Some("  ")).is_err());
    let keyed = set_runtime_llm_config("openrouter", "http://host", "model", 5, Some(" k ")).unwrap();
    assert_eq!(keyed.api_key.as_deref(), Some("k"));
    let installed = resolve_llm_config(Some(&keyed), &env(None, None)).unwrap();
    assert_eq!(installed.model, "model");
    assert!(matches!(resolve_llm_config(None, &env(None, None)), Err(LlmConfigError::NotConfigured)));
}

#[test]
fn configuration_errors_describe_themselves() {
    let error = LlmConfigError::InvalidValue {
        key: String::from("model"),
        value: String::from(" "),
        reason: String::from("must be non-empty"),
    };
    assert_eq!(error.to_string(), "Invalid value for model (' '): must be non-empty");
    assert_eq!(error.to_failure().code, LlmFailureCode::Setup);
    assert_eq!(
        LlmConfigError::RuntimeConfigPoisoned.to_failure().code,
        LlmFailureCode::Unknown
    );
}

#[test]
fn retry_delays_double_and_stop_growing() {
    assert_eq!(retry_delay(1), 300);
    assert_eq!(retry_delay(2), 600);
    assert_eq!(retry_delay(3), 1200);
    assert_eq!(retry_delay(11), 307200);
    assert_eq!(retry_delay(50), 307200);
    assert_eq!(next_retry_delay(1, &LlmServiceError::EmptyModelResponse), Some(300));
    assert_eq!(next_retry_delay(4, &LlmServiceError::EmptyModelResponse), None);
    assert_eq!(next_retry_delay(1, &LlmServiceError::MissingApiKey), None);
}

#[test]
fn markdown_fences_are_removed() {
    assert_eq!(strip_markdown_fences("  {\"a\":1}  "), "{\"a\":1}");
    assert_eq!(strip_markdown_fences("```json\n{\"a\":1}\n```"), "{\"a\":1}");
    assert_eq!(strip_markdown_fences("```\r\n{\"a\":1}\r\n  ```  "), "{\"a\":1}");
    assert_eq!(strip_markdown_fences("```"), "");
}

#[test]
fn message_content_shapes_become_text() {
    let blocks = json(r#"[{"type":"text","text":"first"},"second",{"text":3}]"#).unwrap();
    assert_eq!(extract_text_content(&blocks), "first\nsecond");
    let object = json(r#"{"text":"hello"}"#).unwrap();
    assert_eq!(extract_text_content(&object), "hello");
    assert_eq!(extract_text_content(&JsonValue::Null), "");
    assert_eq!(chat_reply_text(Some(" ```\n{}\n``` ")).unwrap(), "{}");
    assert!(matches!(chat_reply_text(None), Err(LlmServiceError::EmptyModelResponse)));
    let choices = vec![None, json(r#""{ \"ok\": true }""#)];
    assert_eq!(choices_reply_text(&choices).unwrap(), "{ \"ok\": true }");
}

#[test]
fn ollama_tags_url_trims_the_base_url() {
    assert_eq!(
        arka::llm::ollama_tags_url("  http://127.0.0.1:11434//  "),
        "http://127.0.0.1:11434/api/tags"
    );
    assert_eq!(arka::llm::ollama_tags_url("http://host"), "http://host/api/tags");
}

#[test]
fn numeric_settings_parse_like_u64_from_str() {
    assert!(matches!(parse_u64_env("K", None, 7), Ok(7)));
    assert!(matches!(parse_u64_env("K", Some("42"), 7), Ok(42)));
    assert!(matches!(parse_u64_env("K", Some("+42"), 7), Ok(42)));
    assert!(matches!(parse_u64_env("K", Some("18446744073709551615"), 7), Ok(u64::MAX)));
    for bad in ["", "+", "-1", " 4", "4a", "18446744073709551616", "++1"] {
        match parse_u64_env("K", Some(bad), 7) {
            Err(LlmConfigError::InvalidInteger { key, value }) => {
                assert_eq!(key, "K");
                assert_eq!(value, bad);
            }
            other => panic!("unexpected result for {:?}: {:?}", bad, other),
        }
    }
}
