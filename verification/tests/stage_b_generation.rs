use arka::graph::stage_b_generation::{parse_and_validate_mcq, schema_for_generated_mcq};
use arka::json::JsonValue;
use arka::graph::types::{
    EntityNode, GraphContextBundle, KnowledgePoint, KnowledgeType, QuestionType, Relation, RelationType,
};
use arka::llm::error::LlmServiceError;

fn make_entity(id: &str, name: &str) -> EntityNode {
    EntityNode {
        id: id.to_string(),
        canonical_name: name.to_string(),
        aliases: vec![name.to_string()],
        chunk_ids: vec!["c1".to_string()],
    }
}

fn make_point(id: &str, text: &str) -> KnowledgePoint {
    KnowledgePoint {
        id: id.to_string(),
        chunk_id: "c1".to_string(),
        point: text.to_string(),
        knowledge_type: KnowledgeType::Fact,
        raw_entity_names: vec![],
        raw_relations: vec![],
        entity_ids: vec![],
    }
}

fn make_bundle_recall() -> GraphContextBundle {
    GraphContextBundle {
        root_point: make_point(
            "p1",
            "JWT is a self-contained token for stateless authentication",
        ),
        related_points: vec![make_point(
            "p2",
            "Tokens eliminate server-side session storage",
        )],
        question_type: QuestionType::Recall,
        supporting_entities: vec![
            make_entity("e1", "JWT"),
            make_entity("e2", "Authentication"),
        ],
        supporting_relations: vec![],
    }
}

fn make_bundle_relational() -> GraphContextBundle {
    GraphContextBundle {
        root_point: make_point(
            "p1",
            "JWT is a self-contained token for stateless authentication",
        ),
        related_points: vec![make_point(
            "p2",
            "Cookies require server-side session storage",
        )],
        question_type: QuestionType::Relational,
        supporting_entities: vec![make_entity("e1", "JWT"), make_entity("e2", "Cookies")],
        supporting_relations: vec![Relation {
            source_id: "e1".to_string(),
            target_id: "e2".to_string(),
            relation_type: RelationType::Contrasts,
        }],
    }
}

#[test]
fn test_parse_and_validate_valid_mcq() {
    let json = r#"{
        "question": "What is JWT used for?",
        "options": ["Stateless auth", "Session storage", "Compression", "Encryption"],
        "correct_index": 0,
        "explanation": "JWT tokens are self-contained and used for stateless authentication"
    }"#;

    let result = parse_and_validate_mcq(json, QuestionType::Recall);
    assert!(result.is_ok());
    let mcq = result.unwrap();
    assert_eq!(mcq.question, "What is JWT used for?");
    assert_eq!(mcq.options.len(), 4);
    assert_eq!(mcq.correct_index, 0);
}

#[test]
fn test_parse_and_validate_invalid_json() {
    let json = r#"{ "question": "What is JWT?" }"#;
    let result = parse_and_validate_mcq(json, QuestionType::Recall);
    assert!(result.is_err());
    match result.unwrap_err() {
        LlmServiceError::Schema(_) => {}
        other => panic!("Expected Schema error, got {:?}", other),
    }
}

#[test]
fn test_parse_and_validate_wrong_option_count() {
    let json = r#"{
        "question": "What is JWT?",
        "options": ["A", "B", "C"],
        "correct_index": 0,
        "explanation": "JWT is a token format for stateless authentication"
    }"#;

    let result = parse_and_validate_mcq(json, QuestionType::Recall);
    assert!(result.is_err());
}

#[test]
fn test_parse_and_validate_correct_index_out_of_range() {
    let json = r#"{
        "question": "What is JWT?",
        "options": ["A", "B", "C", "D"],
        "correct_index": 5,
        "explanation": "JWT is a token format for stateless authentication"
    }"#;

    let result = parse_and_validate_mcq(json, QuestionType::Recall);
    assert!(result.is_err());
}

#[test]
fn test_parse_and_validate_question_too_short() {
    let json = r#"{
        "question": "JWT?",
        "options": ["A", "B", "C", "D"],
        "correct_index": 0,
        "explanation": "JWT is a token format for stateless authentication"
    }"#;

    let result = parse_and_validate_mcq(json, QuestionType::Recall);
    assert!(result.is_err());
}

#[test]
fn test_parse_and_validate_explanation_too_short() {
    let json = r#"{
        "question": "What is JWT used for in web applications?",
        "options": ["A", "B", "C", "D"],
        "correct_index": 0,
        "explanation": "Stateless"
    }"#;

    let result = parse_and_validate_mcq(json, QuestionType::Recall);
    assert!(result.is_err());
}

#[test]
fn test_bundle_recall_has_empty_relations() {
    let bundle = make_bundle_recall();
    assert!(bundle.supporting_relations.is_empty());
    assert_eq!(bundle.question_type, QuestionType::Recall);
}

#[test]
fn test_bundle_relational_has_relations() {
    let bundle = make_bundle_relational();
    assert!(!bundle.supporting_relations.is_empty());
    assert_eq!(bundle.question_type, QuestionType::Relational);
}

/// Converts the library's JSON model into serde_json's.
fn to_serde(value: &JsonValue) -> serde_json::Value {
    match value {
        JsonValue::Null => serde_json::Value::Null,
        JsonValue::Bool(b) => serde_json::Value::Bool(*b),
        JsonValue::Number(n) => serde_json::from_str(&n.text).unwrap(),
        JsonValue::String(s) => serde_json::Value::String(s.clone()),
        JsonValue::Array(items) => serde_json::Value::Array(items.iter().map(to_serde).collect()),
        JsonValue::Object(fields) => serde_json::Value::Object(
            fields.iter().map(|(k, v)| (k.clone(), to_serde(v))).collect(),
        ),
    }
}

#[test]
fn question_schema_states_the_checked_bounds() {
    let expected: serde_json::Value = serde_json::from_str(
        r#"{
        "type": "object",
        "properties": {
            "question": {
                "type": "string",
                "description": "The multiple-choice question (10-500 characters)",
                "minLength": 10,
                "maxLength": 500
            },
            "options": {
                "type": "array",
                "description": "Exactly 4 answer options (each 1-500 characters)",
                "items": { "type": "string", "minLength": 1, "maxLength": 500 },
                "minItems": 4,
                "maxItems": 4
            },
            "correct_index": {
                "type": "integer",
                "description": "Index of correct answer (0-3)",
                "minimum": 0,
                "maximum": 3
            },
            "explanation": {
                "type": "string",
                "description": "Explanation of why the answer is correct (20-1000 characters)",
                "minLength": 20,
                "maxLength": 1000
            }
        },
        "required": ["question", "options", "correct_index", "explanation"],
        "additionalProperties": false
    }"#,
    )
    .unwrap();
    assert_eq!(to_serde(&schema_for_generated_mcq()), expected);
}
