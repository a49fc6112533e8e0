use arka::graph::stage_a_schema::{parse_stage_a_output, stage_a_format_schema};
use arka::json::JsonValue;

#[test]
fn test_valid_stage_a_output() {
    let json = r#"{
        "entities": ["chloroplast", "chlorophyll"],
        "knowledge_points": [
            {
                "point": "Chloroplasts contain chlorophyll pigment",
                "knowledge_type": "fact",
                "raw_entity_names": ["chloroplast", "chlorophyll"],
                "raw_relations": [
                    {
                        "target_entity_name": "chlorophyll",
                        "relation_type": "related_to",
                        "source_quote": null
                    }
                ]
            }
        ]
    }"#;

    let result = parse_stage_a_output(json, "chunk_1".to_string());
    assert!(result.is_ok());

    let extracted = result.unwrap();
    assert_eq!(extracted.chunk_id, "chunk_1");
    assert_eq!(extracted.raw_entities.len(), 2);
    assert_eq!(extracted.knowledge_points.len(), 1);
    let point = &extracted.knowledge_points[0];
    assert_eq!(point.id, "chunk_1-kp-0");
    assert_eq!(point.chunk_id, "chunk_1");
    assert!(point.entity_ids.is_empty());
}

#[test]
fn test_empty_point_rejected() {
    let json = r#"{
        "entities": ["entity1"],
        "knowledge_points": [
            {
                "point": "",
                "knowledge_type": "fact",
                "raw_entity_names": ["entity1"],
                "raw_relations": []
            }
        ]
    }"#;

    let result = parse_stage_a_output(json, "chunk_1".to_string());
    assert!(result.is_err());
}

#[test]
fn test_invalid_knowledge_type_rejected() {
    let json = r#"{
        "entities": ["entity1"],
        "knowledge_points": [
            {
                "point": "A fact",
                "knowledge_type": "invalid_type",
                "raw_entity_names": ["entity1"],
                "raw_relations": []
            }
        ]
    }"#;

    let result = parse_stage_a_output(json, "chunk_1".to_string());
    assert!(result.is_err());
}

#[test]
fn test_empty_raw_entity_names_rejected() {
    let json = r#"{
        "entities": ["entity1"],
        "knowledge_points": [
            {
                "point": "A fact",
                "knowledge_type": "fact",
                "raw_entity_names": [],
                "raw_relations": []
            }
        ]
    }"#;

    let result = parse_stage_a_output(json, "chunk_1".to_string());
    assert!(result.is_err());
}

#[test]
fn test_duplicate_raw_entity_names_rejected() {
    let json = r#"{
        "entities": ["entity1"],
        "knowledge_points": [
            {
                "point": "A fact",
                "knowledge_type": "fact",
                "raw_entity_names": ["entity1", "ENTITY1"],
                "raw_relations": []
            }
        ]
    }"#;

    let result = parse_stage_a_output(json, "chunk_1".to_string());
    assert!(result.is_err());
}

#[test]
fn test_invalid_relation_type_rejected() {
    let json = r#"{
        "entities": ["entity1", "entity2"],
        "knowledge_points": [
            {
                "point": "A fact",
                "knowledge_type": "fact",
                "raw_entity_names": ["entity1"],
                "raw_relations": [
                    {
                        "target_entity_name": "entity2",
                        "relation_type": "invalid_relation",
                        "source_quote": null
                    }
                ]
            }
        ]
    }"#;

    let result = parse_stage_a_output(json, "chunk_1".to_string());
    assert!(result.is_err());
}

#[test]
fn test_hydration_round_trip() {
    let json = r#"{
        "entities": ["chloroplast", "thylakoid"],
        "knowledge_points": [
            {
                "point": "Thylakoids are membranes in chloroplasts",
                "knowledge_type": "definition",
                "raw_entity_names": ["thylakoid", "chloroplast"],
                "raw_relations": []
            },
            {
                "point": "Light reactions occur in thylakoids",
                "knowledge_type": "fact",
                "raw_entity_names": ["thylakoid"],
                "raw_relations": [
                    {
                        "target_entity_name": "chloroplast",
                        "relation_type": "prerequisite",
                        "source_quote": "Thylakoids are inside chloroplasts"
                    }
                ]
            }
        ]
    }"#;

    let result = parse_stage_a_output(json, "photosynthesis_chunk".to_string());
    assert!(result.is_ok());

    let extracted = result.unwrap();
    assert_eq!(extracted.chunk_id, "photosynthesis_chunk");
    assert_eq!(extracted.knowledge_points.len(), 2);

    // Check first point
    let p0 = &extracted.knowledge_points[0];
    assert_eq!(p0.id, "photosynthesis_chunk-kp-0");
    assert_eq!(p0.chunk_id, "photosynthesis_chunk");
    assert!(p0.entity_ids.is_empty());
    assert_eq!(p0.raw_entity_names.len(), 2);

    // Check second point
    let p1 = &extracted.knowledge_points[1];
    assert_eq!(p1.id, "photosynthesis_chunk-kp-1");
    assert_eq!(p1.chunk_id, "photosynthesis_chunk");
    assert_eq!(p1.raw_relations.len(), 1);
    assert_eq!(p1.raw_relations[0].target_entity_name, "chloroplast");
}

#[test]
fn test_empty_relations_array_works() {
    let json = r#"{
        "entities": ["entity1"],
        "knowledge_points": [
            {
                "point": "A fact",
                "knowledge_type": "fact",
                "raw_entity_names": ["entity1"],
                "raw_relations": []
            }
        ]
    }"#;

    let result = parse_stage_a_output(json, "chunk_1".to_string());
    assert!(result.is_ok());
    let extracted = result.unwrap();
    assert_eq!(extracted.knowledge_points[0].raw_relations.len(), 0);
}

#[test]
fn test_missing_relations_field_defaults_to_empty() {
    let json = r#"{
        "entities": ["entity1"],
        "knowledge_points": [
            {
                "point": "A fact",
                "knowledge_type": "fact",
                "raw_entity_names": ["entity1"]
            }
        ]
    }"#;

    let result = parse_stage_a_output(json, "chunk_1".to_string());
    assert!(result.is_ok());
    let extracted = result.unwrap();
    assert_eq!(extracted.knowledge_points[0].raw_relations.len(), 0);
}

#[test]
fn test_missing_source_quote_in_relation_defaults_to_none() {
    let json = r#"{
        "entities": ["entity1", "entity2"],
        "knowledge_points": [
            {
                "point": "A fact",
                "knowledge_type": "fact",
                "raw_entity_names": ["entity1"],
                "raw_relations": [
                    {
                        "target_entity_name": "entity2",
                        "relation_type": "related_to"
                    }
                ]
            }
        ]
    }"#;

    let result = parse_stage_a_output(json, "chunk_1".to_string());
    assert!(result.is_ok());
    let extracted = result.unwrap();
    assert_eq!(extracted.knowledge_points[0].raw_relations.len(), 1);
    assert_eq!(
        extracted.knowledge_points[0].raw_relations[0].target_entity_name,
        "entity2"
    );
    assert!(
        extracted.knowledge_points[0].raw_relations[0].source_quote.is_none(),
        "source_quote should default to None when key is omitted"
    );
}

#[test]
fn test_malformed_root_rejected() {
    let json = r#"[]"#;
    let result = parse_stage_a_output(json, "chunk_1".to_string());
    assert!(result.is_err());
}

#[test]
fn test_undeclared_raw_entity_auto_unioned() {
    // raw_entity_names references "thylakoid" but entities list only has "chloroplast".
    // Hydration should auto-union "thylakoid" rather than reject the chunk.
    let json = r#"{
        "entities": ["chloroplast"],
        "knowledge_points": [
            {
                "point": "Thylakoids are membranes inside chloroplasts",
                "knowledge_type": "fact",
                "raw_entity_names": ["thylakoid", "chloroplast"],
                "raw_relations": []
            }
        ]
    }"#;

    let result = parse_stage_a_output(json, "chunk_1".to_string());
    assert!(result.is_ok(), "should succeed via auto-union, got: {:?}", result);
    let extracted = result.unwrap();
    let entity_names: Vec<&str> = extracted.raw_entities.iter().map(|e| e.name.as_str()).collect();
    assert!(entity_names.contains(&"thylakoid"), "auto-unioned entity should appear in raw_entities");
    assert!(entity_names.contains(&"chloroplast"));
    assert_eq!(extracted.knowledge_points[0].raw_entity_names, vec!["thylakoid", "chloroplast"]);
}

#[test]
fn test_undeclared_relation_target_auto_unioned() {
    // relation target "membrane" is not in the entities list.
    // Hydration should auto-union "membrane" rather than reject the chunk.
    let json = r#"{
        "entities": ["chloroplast"],
        "knowledge_points": [
            {
                "point": "Chloroplasts contain membranes",
                "knowledge_type": "fact",
                "raw_entity_names": ["chloroplast"],
                "raw_relations": [
                    {
                        "target_entity_name": "membrane",
                        "relation_type": "related_to",
                        "source_quote": null
                    }
                ]
            }
        ]
    }"#;

    let result = parse_stage_a_output(json, "chunk_1".to_string());
    assert!(result.is_ok(), "should succeed via auto-union, got: {:?}", result);
    let extracted = result.unwrap();
    let entity_names: Vec<&str> = extracted.raw_entities.iter().map(|e| e.name.as_str()).collect();
    assert!(entity_names.contains(&"membrane"), "auto-unioned relation target should appear in raw_entities");
    assert!(entity_names.contains(&"chloroplast"));
}

/// Converts the library's JSON model into serde_json's.
fn to_serde(value: &JsonValue) -> serde_json::Value {
    match value {
        JsonValue::Null => serde_json::Value::Null,
        JsonValue::Bool(b) => serde_json::Value::Bool(*b),
        JsonValue::Number(n) => serde_json::from_str(&n.text).unwrap(),
        JsonValue::String(s) => serde_json::Value::String(s.clone()),
        JsonValue::Array(items) => serde_json::Value::Array(items.iter().map(to_serde).collect()),
        JsonValue::Object(fields) => serde_json::Value::Object(
            fields.iter().map(|(k, v)| (k.clone(), to_serde(v))).collect(),
        ),
    }
}

#[test]
fn format_schema_lists_the_accepted_types_and_required_fields() {
    let expected: serde_json::Value = serde_json::from_str(
        r#"{
        "type": "object",
        "properties": {
            "entities": {
                "type": "array",
                "items": { "type": "string" },
                "description": "All entities mentioned in this chunk"
            },
            "knowledge_points": {
                "type": "array",
                "items": {
                    "type": "object",
                    "properties": {
                        "point": { "type": "string", "description": "A testable proposition or claim" },
                        "knowledge_type": {
                            "type": "string",
                            "enum": ["definition", "fact", "procedural", "conceptual"],
                            "description": "Category of this knowledge point"
                        },
                        "raw_entity_names": {
                            "type": "array",
                            "items": { "type": "string" },
                            "description": "All entities this point is about (must be non-empty)"
                        },
                        "raw_relations": {
                            "type": "array",
                            "items": {
                                "type": "object",
                                "properties": {
                                    "target_entity_name": { "type": "string", "description": "Entity this point relates to" },
                                    "relation_type": {
                                        "type": "string",
                                        "enum": ["related_to", "contrasts", "prerequisite", "consequence", "example", "counter_example"],
                                        "description": "Type of relationship"
                                    },
                                    "source_quote": {
                                        "type": ["string", "null"],
                                        "description": "Optional text span supporting this relation"
                                    }
                                },
                                "required": ["target_entity_name", "relation_type"]
                            },
                            "description": "Relations to other entities"
                        }
                    },
                    "required": ["point", "knowledge_type", "raw_entity_names", "raw_relations"]
                }
            }
        },
        "required": ["entities", "knowledge_points"]
    }"#,
    )
    .unwrap();
    assert_eq!(to_serde(&stage_a_format_schema()), expected);
}
