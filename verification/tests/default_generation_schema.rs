use arka::json::JsonValue;
use arka::llm::default_generation_schema::{parse_stage_a_output, stage_a_format_schema, stage_b_format_schema};

#[test]
fn parses_stage_a_wrapper() {
    let payload = r#"
            {
                "key_points": [
                    { "knowledge_point": "Ownership defines who can access data." },
                    { "knowledge_point": "Borrowing avoids moving ownership." }
                ]
            }
            "#;

    let parsed = parse_stage_a_output(payload).expect("stage A JSON should parse");
    assert_eq!(parsed.key_points.len(), 2);
    assert_eq!(
        parsed.key_points[0].knowledge_point,
        "Ownership defines who can access data."
    );
}

#[test]
fn allows_stage_a_when_key_points_empty() {
    let payload = r#"{ "key_points": [] }"#;
    let parsed = parse_stage_a_output(payload).expect("stage A should allow empty key points");
    assert!(parsed.key_points.is_empty());
}

/// Converts the library's JSON model into serde_json's.
fn to_serde(value: &JsonValue) -> serde_json::Value {
    match value {
        JsonValue::Null => serde_json::Value::Null,
        JsonValue::Bool(b) => serde_json::Value::Bool(*b),
        JsonValue::Number(n) => serde_json::from_str(&n.text).unwrap(),
        JsonValue::String(s) => serde_json::Value::String(s.clone()),
        JsonValue::Array(items) => serde_json::Value::Array(items.iter().map(to_serde).collect()),
        JsonValue::Object(fields) => serde_json::Value::Object(
            fields.iter().map(|(k, v)| (k.clone(), to_serde(v))).collect(),
        ),
    }
}

#[test]
fn stage_a_key_point_schema_has_the_documented_shape() {
    let expected: serde_json::Value = serde_json::from_str(
        r#"{
        "type": "object",
        "properties": {
            "key_points": {
                "type": "array",
                "items": {
                    "type": "object",
                    "properties": { "knowledge_point": { "type": "string" } },
                    "required": ["knowledge_point"],
                    "additionalProperties": false
                }
            }
        },
        "required": ["key_points"],
        "additionalProperties": false
    }"#,
    )
    .unwrap();
    assert_eq!(to_serde(&stage_a_format_schema()), expected);
}

#[test]
fn stage_b_item_schema_has_the_documented_shape() {
    let expected: serde_json::Value = serde_json::from_str(
        r#"{
        "type": "object",
        "properties": {
            "items": {
                "type": "array",
                "maxItems": 4,
                "items": {
                    "type": "object",
                    "properties": {
                        "knowledge_point_id": { "type": "string" },
                        "target": { "type": "string" },
                        "answer": { "type": "string" },
                        "explanation": { "type": ["string", "null"] },
                        "flashcard": {
                            "type": "object",
                            "properties": { "prompt": { "type": "string" } },
                            "required": ["prompt"],
                            "additionalProperties": false
                        },
                        "mcq": {
                            "anyOf": [
                                {
                                    "type": "object",
                                    "properties": {
                                        "prompt": { "type": ["string", "null"] },
                                        "distractors": {
                                            "type": "array",
                                            "minItems": 3,
                                            "maxItems": 3,
                                            "items": { "type": "string" }
                                        }
                                    },
                                    "required": ["prompt", "distractors"],
                                    "additionalProperties": false
                                },
                                { "type": "null" }
                            ]
                        },
                        "mcq_omission_reason": { "type": ["string", "null"] }
                    },
                    "required": [
                        "knowledge_point_id", "target", "answer", "explanation",
                        "flashcard", "mcq", "mcq_omission_reason"
                    ],
                    "additionalProperties": false
                }
            }
        },
        "required": ["items"],
        "additionalProperties": false
    }"#,
    )
    .unwrap();
    assert_eq!(to_serde(&stage_b_format_schema()), expected);
}

#[test]
fn stage_a_text_that_is_not_json_is_a_parse_error() {
    assert!(matches!(
        parse_stage_a_output("key points: none"),
        Err(arka::llm::default_generation_schema::LlmSchemaError::Parse(_))
    ));
}
