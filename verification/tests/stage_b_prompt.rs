use arka::graph::stage_b_prompt::{build_user_prompt, render_bundle_context, system_prompt};
use arka::graph::types::{
    EntityNode, GraphContextBundle, KnowledgePoint, KnowledgeType, QuestionType, Relation, RelationType,
};

fn make_entity(id: &str, name: &str) -> EntityNode {
    EntityNode {
        id: id.to_string(),
        canonical_name: name.to_string(),
        aliases: vec![name.to_string()],
        chunk_ids: vec!["c1".to_string()],
    }
}

fn make_point(id: &str, text: &str) -> KnowledgePoint {
    KnowledgePoint {
        id: id.to_string(),
        point: text.to_string(),
        knowledge_type: KnowledgeType::Fact,
        chunk_id: "c1".to_string(),
        raw_entity_names: vec![],
        entity_ids: vec![],
        raw_relations: vec![],
    }
}

fn make_bundle(root_type: QuestionType) -> GraphContextBundle {
    GraphContextBundle {
        root_point: make_point("kp1", "JWT is used for stateless authentication"),
        related_points: vec![
            make_point("kp2", "Cookies are used to store session state"),
            make_point("kp3", "JWTs can be stored in localStorage or cookies"),
        ],
        question_type: root_type,
        supporting_entities: vec![
            make_entity("e1", "JWT"),
            make_entity("e2", "Cookies"),
            make_entity("e3", "Authentication"),
        ],
        supporting_relations: vec![
            Relation {
                source_id: "e1".to_string(),
                target_id: "e3".to_string(),
                relation_type: RelationType::RelatedTo,
            },
            Relation {
                source_id: "e2".to_string(),
                target_id: "e3".to_string(),
                relation_type: RelationType::RelatedTo,
            },
        ],
    }
}

#[test]
fn test_system_prompt_specifies_mcq_generation_task() {
    let prompt = system_prompt();
    assert!(prompt.contains("exactly ONE"));
    assert!(prompt.contains("primarily assess"));
    assert!(prompt.contains("ROOT KNOWLEDGE POINT"));
}

#[test]
fn test_system_prompt_relational_requires_two_concepts() {
    let prompt = system_prompt();
    assert!(prompt.contains("at least TWO connected concepts"));
    assert!(prompt.contains("reasoning about"));
}

#[test]
fn test_system_prompt_recall_framing_for_retrieval() {
    let prompt = system_prompt();
    assert!(prompt.contains("studied the material"));
    assert!(prompt.contains("retrieval"));
    assert!(prompt.contains("not guessing"));
}

#[test]
fn test_system_prompt_requires_source_examples_to_be_self_contained() {
    let prompt = system_prompt();

    assert!(prompt.contains("self-contained and answerable without access to the source note"));
    assert!(prompt.contains(
        "essential facts from an example, code block, image, diagram, figure, or table"
    ));
    assert!(prompt.contains("Never refer to unspecified context"));
    assert!(prompt.contains("Do not rely on the answer options to supply context"));
    assert!(prompt.contains(
        "Base the question only on source information that can be restated faithfully as text"
    ));
}

#[test]
fn test_render_recall_context_has_proper_structure() {
    let bundle = make_bundle(QuestionType::Recall);
    let context = render_bundle_context(&bundle);

    // Check new section order: ROOT → RELATED → RELATIONSHIPS → ENTITIES
    let root_pos = context.find("ROOT KNOWLEDGE POINT").unwrap();
    let related_pos = context
        .find("RELATED KNOWLEDGE POINTS")
        .unwrap_or(usize::MAX);
    let relations_pos = context.find("KEY RELATIONSHIPS").unwrap_or(usize::MAX);
    let entities_pos = context.find("SUPPORTING ENTITIES").unwrap_or(usize::MAX);

    // Verify order
    assert!(root_pos < related_pos || related_pos == usize::MAX);
    assert!(related_pos < relations_pos || relations_pos == usize::MAX);
    assert!(relations_pos < entities_pos || entities_pos == usize::MAX);
}

#[test]
fn test_render_relational_context_emphasizes_connections() {
    let bundle = make_bundle(QuestionType::Relational);
    let context = render_bundle_context(&bundle);

    assert!(context.contains("RELATIONAL"));
    assert!(context.contains("connections"));
}

#[test]
fn test_render_no_entity_ids_exposed() {
    let bundle = make_bundle(QuestionType::Recall);
    let context = render_bundle_context(&bundle);

    // Should have entity names but NOT the internal IDs
    assert!(context.contains("JWT"));
    assert!(context.contains("Cookies"));
    // IDs should not appear in the final context
    assert!(!context.contains("entity-jwt"));
    assert!(!context.contains("entity-cookies"));
}

#[test]
fn test_render_includes_related_points() {
    let bundle = make_bundle(QuestionType::Recall);
    let context = render_bundle_context(&bundle);

    assert!(context.contains("RELATED KNOWLEDGE POINTS"));
    assert!(context.contains("Cookies are used to store session state"));
}

#[test]
fn test_render_includes_relations() {
    let bundle = make_bundle(QuestionType::Recall);
    let context = render_bundle_context(&bundle);

    assert!(context.contains("KEY RELATIONSHIPS"));
    assert!(context.contains("is related to"));
}

#[test]
fn test_render_explicit_instruction_about_root_point() {
    let bundle = make_bundle(QuestionType::Recall);
    let context = render_bundle_context(&bundle);

    assert!(context.contains("Generate exactly ONE"));
    assert!(context.contains("primarily assess"));
    assert!(context.contains("ROOT KNOWLEDGE POINT"));
    assert!(context.contains("Do not ask about unrelated"));
}

#[test]
fn test_build_user_prompt_combines_context_and_schema() {
    let bundle = make_bundle(QuestionType::Recall);
    let prompt = build_user_prompt(&bundle);

    // Should contain context
    assert!(prompt.contains("ROOT KNOWLEDGE POINT"));
    assert!(prompt.contains("JWT is used"));

    // Should contain JSON schema
    assert!(prompt.contains("\"question\""));
    assert!(prompt.contains("\"options\""));
    assert!(prompt.contains("\"correct_index\""));
    assert!(prompt.contains("\"explanation\""));
}

#[test]
fn test_render_empty_relations_skips_section() {
    let mut bundle = make_bundle(QuestionType::Recall);
    bundle.supporting_relations.clear();
    let context = render_bundle_context(&bundle);

    // Should not have KEY RELATIONSHIPS section
    assert!(!context.contains("KEY RELATIONSHIPS"));
}

#[test]
fn test_render_empty_entities_skips_section() {
    let mut bundle = make_bundle(QuestionType::Recall);
    bundle.supporting_entities.clear();
    let context = render_bundle_context(&bundle);

    // Should not have SUPPORTING ENTITIES section
    assert!(!context.contains("SUPPORTING ENTITIES"));
}
