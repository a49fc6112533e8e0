use arka::graph::entity_resolution::context_builder::EntityContext;
use arka::graph::entity_resolution::semantic_verifier::{
    build_verification_prompt, parse_verification, validate_inputs, verification_schema, EntityMatchDecision, EntityVerificationError, VerifierCandidate, VerifierConfig,
};
use arka::json::JsonValue;
use arka::llm::error::LlmServiceError;

fn context(id: &str, name: &str, aliases: &[&str], points: &[&str]) -> EntityContext {
    EntityContext {
        entity_id: id.to_string(),
        canonical_name: name.to_string(),
        aliases: aliases.iter().map(|value| value.to_string()).collect(),
        knowledge_points: points.iter().map(|value| value.to_string()).collect(),
    }
}

/// A candidate pair with the given similarity, checked as the embedding
/// stage checks it.
fn candidate_with_similarity(left: &str, right: &str, similarity: f32) -> VerifierCandidate {
    VerifierCandidate {
        entity_id: left.to_string(),
        candidate_entity_id: right.to_string(),
        similarity_in_range: similarity.is_finite() && (-1.0..=1.0).contains(&similarity),
    }
}

fn candidate(left: &str, right: &str) -> VerifierCandidate {
    candidate_with_similarity(left, right, 0.82)
}

#[test]
fn parses_all_supported_decisions() {
    let config = VerifierConfig::default();
    let cases = [
        ("same_entity", EntityMatchDecision::SameEntity),
        ("different_entity", EntityMatchDecision::DifferentEntity),
        ("uncertain", EntityMatchDecision::Uncertain),
    ];

    for (wire_value, expected) in cases {
        let payload = format!(
            r#"{{"decision":"{wire_value}","reason":"Evidence supports this decision."}}"#
        );
        let parsed = parse_verification(&payload, &config).expect("decision should parse");
        assert_eq!(parsed.decision, expected);
    }
}

#[test]
fn rejects_unknown_decisions_empty_reasons_and_extra_fields() {
    let config = VerifierConfig::default();
    assert!(
        parse_verification(r#"{"decision":"merge","reason":"Looks similar."}"#, &config)
            .is_err()
    );
    assert!(parse_verification(r#"{"decision":"uncertain","reason":"  "}"#, &config).is_err());
    assert!(parse_verification(
        r#"{"decision":"same_entity","reason":"Same.","merge":true}"#,
        &config
    )
    .is_err());
}

#[test]
fn rejects_reasons_over_the_configured_character_limit() {
    let config = VerifierConfig {
        max_reason_chars: 4,
        ..VerifierConfig::default()
    };
    let error = parse_verification(r#"{"decision":"uncertain","reason":"12345"}"#, &config)
        .expect_err("long reasons must fail validation");

    assert!(matches!(error, LlmServiceError::InvalidOutput(_)));
}

#[test]
fn validates_contexts_candidate_pairs_similarity_and_config() {
    let contexts = vec![context("a", "A", &[], &[]), context("b", "B", &[], &[])];
    let config = VerifierConfig::default();

    assert_eq!(config.max_concurrency, 5);
    assert!(validate_inputs(&[candidate("a", "b")], &contexts, &config).is_ok());
    assert!(matches!(
        validate_inputs(&[candidate("a", "a")], &contexts, &config),
        Err(EntityVerificationError::SelfCandidate { .. })
    ));
    assert!(matches!(
        validate_inputs(&[candidate("a", "missing")], &contexts, &config),
        Err(EntityVerificationError::MissingEntityContext { .. })
    ));

    let invalid_similarity = candidate_with_similarity("a", "b", f32::NAN);
    assert!(matches!(
        validate_inputs(&[invalid_similarity], &contexts, &config),
        Err(EntityVerificationError::InvalidSimilarity { .. })
    ));

    assert!(matches!(
        validate_inputs(
            &[],
            &contexts,
            &VerifierConfig {
                max_reason_chars: 0,
                ..VerifierConfig::default()
            }
        ),
        Err(EntityVerificationError::InvalidMaxReasonChars { value: 0 })
    ));
    assert!(matches!(
        validate_inputs(
            &[],
            &contexts,
            &VerifierConfig {
                max_concurrency: 0,
                ..VerifierConfig::default()
            }
        ),
        Err(EntityVerificationError::InvalidMaxConcurrency { value: 0 })
    ));
}

#[test]
fn rejects_duplicate_context_ids_and_reverse_candidate_pairs() {
    let duplicate_contexts = vec![
        context("a", "First A", &[], &[]),
        context("a", "Second A", &[], &[]),
    ];
    assert!(matches!(
        validate_inputs(&[], &duplicate_contexts, &VerifierConfig::default()),
        Err(EntityVerificationError::DuplicateContextEntityId { .. })
    ));

    let contexts = vec![context("a", "A", &[], &[]), context("b", "B", &[], &[])];
    assert!(matches!(
        validate_inputs(
            &[candidate("a", "b"), candidate("b", "a")],
            &contexts,
            &VerifierConfig::default()
        ),
        Err(EntityVerificationError::DuplicateCandidatePair { .. })
    ));
}

/// Converts the library's JSON model into serde_json's.
fn to_serde(value: &JsonValue) -> serde_json::Value {
    match value {
        JsonValue::Null => serde_json::Value::Null,
        JsonValue::Bool(b) => serde_json::Value::Bool(*b),
        JsonValue::Number(n) => serde_json::from_str(&n.text).unwrap(),
        JsonValue::String(s) => serde_json::Value::String(s.clone()),
        JsonValue::Array(items) => serde_json::Value::Array(items.iter().map(to_serde).collect()),
        JsonValue::Object(fields) => serde_json::Value::Object(
            fields.iter().map(|(k, v)| (k.clone(), to_serde(v))).collect(),
        ),
    }
}

#[test]
fn verification_schema_caps_the_reason_at_the_configured_length() {
    let mut config = VerifierConfig::default();
    config.max_reason_chars = 120;
    let expected: serde_json::Value = serde_json::from_str(
        r#"{
        "type": "object",
        "properties": {
            "decision": {
                "type": "string",
                "enum": ["same_entity", "different_entity", "uncertain"],
                "description": "The semantic identity decision"
            },
            "reason": {
                "type": "string",
                "description": "A concise evidence-based explanation",
                "minLength": 1,
                "maxLength": 120
            }
        },
        "required": ["decision", "reason"],
        "additionalProperties": false
    }"#,
    )
    .unwrap();
    assert_eq!(to_serde(&verification_schema(&config)), expected);
}

#[test]
fn verifier_text_that_is_not_json_is_a_schema_error() {
    let config = VerifierConfig::default();
    assert!(matches!(
        parse_verification("{\"decision\": ", &config),
        Err(LlmServiceError::Schema(arka::llm::default_generation_schema::LlmSchemaError::Parse(_)))
    ));
}

#[test]
fn verification_prompt_carries_both_entities_as_indented_json() {
    let left = context("co2", "CO2", &["carbon dioxide"], &["CO2 is a gas."]);
    let right = context("carbon-dioxide", "Carbon dioxide", &[], &["Plants fix carbon dioxide."]);
    let evidence: serde_json::Value = serde_json::from_str(
        r#"{
        "entity_a": {
            "entity_id": "co2",
            "canonical_name": "CO2",
            "aliases": ["carbon dioxide"],
            "knowledge_points": ["CO2 is a gas."]
        },
        "entity_b": {
            "entity_id": "carbon-dioxide",
            "canonical_name": "Carbon dioxide",
            "aliases": [],
            "knowledge_points": ["Plants fix carbon dioxide."]
        }
    }"#,
    )
    .unwrap();
    let expected = format!(
        "Classify this entity pair using only the supplied names, aliases, and evidence.\n\n{}",
        serde_json::to_string_pretty(&evidence).unwrap()
    );
    assert_eq!(build_verification_prompt(&left, &right), expected);
}
