use arka::graph::entity_resolution::context_builder::{build_entity_contexts, EntityContext};
use arka::graph::types::{EntityNode, KnowledgePoint, KnowledgeType, PropositionGraph, Relation, RelationType};

fn entity(id: &str, name: &str, aliases: &[&str]) -> EntityNode {
    EntityNode {
        id: id.to_string(),
        canonical_name: name.to_string(),
        aliases: aliases.iter().map(|alias| alias.to_string()).collect(),
        chunk_ids: Vec::new(),
    }
}

fn point(id: &str, text: &str, entity_ids: &[&str]) -> KnowledgePoint {
    KnowledgePoint {
        id: id.to_string(),
        point: text.to_string(),
        knowledge_type: KnowledgeType::Fact,
        chunk_id: String::from("chunk-1"),
        raw_entity_names: Vec::new(),
        entity_ids: entity_ids.iter().map(|id| id.to_string()).collect(),
        raw_relations: Vec::new(),
    }
}

fn graph(entities: Vec<EntityNode>, knowledge_points: Vec<KnowledgePoint>) -> PropositionGraph {
    PropositionGraph {
        entities,
        knowledge_points,
        relations: Vec::new(),
    }
}

#[test]
fn selects_only_points_that_reference_the_entity() {
    let graph = graph(
        vec![
            entity("entity-co2", "CO₂", &["CO₂", "CO2"]),
            entity("entity-oxygen", "oxygen", &["oxygen"]),
        ],
        vec![
            point(
                "kp-1",
                "CO₂ is attached to RuBP by RuBisCO.",
                &["entity-co2"],
            ),
            point(
                "kp-2",
                "Oxygen is released when water is split.",
                &["entity-oxygen"],
            ),
        ],
    );

    let contexts = build_entity_contexts(&graph, 3);

    assert_eq!(contexts.len(), 2);
    assert_eq!(
        contexts[0].knowledge_points,
        vec!["CO₂ is attached to RuBP by RuBisCO."]
    );
    assert_eq!(
        contexts[1].knowledge_points,
        vec!["Oxygen is released when water is split."]
    );
}

#[test]
fn preserves_entity_aliases_and_entity_order() {
    let graph = graph(
        vec![
            entity("entity-co2", "CO₂", &["CO₂", "CO2"]),
            entity("entity-g3p", "G3P", &["G3P"]),
        ],
        Vec::new(),
    );

    let contexts = build_entity_contexts(&graph, 3);

    assert_eq!(contexts[0].entity_id, "entity-co2");
    assert_eq!(contexts[0].aliases, vec!["CO₂", "CO2"]);
    assert_eq!(contexts[1].entity_id, "entity-g3p");
}

#[test]
fn limits_points_in_graph_order() {
    let graph = graph(
        vec![entity("entity-co2", "CO₂", &["CO₂"])],
        vec![
            point("kp-1", "First fact.", &["entity-co2"]),
            point("kp-2", "Second fact.", &["entity-co2"]),
            point("kp-3", "Third fact.", &["entity-co2"]),
        ],
    );

    let contexts = build_entity_contexts(&graph, 2);

    assert_eq!(
        contexts[0].knowledge_points,
        vec!["First fact.", "Second fact."]
    );
}

#[test]
fn deduplicates_repeated_point_ids_and_entity_references() {
    let graph = graph(
        vec![entity("entity-co2", "CO₂", &["CO₂"])],
        vec![
            point(
                "kp-1",
                "CO₂ participates in carbon fixation.",
                &["entity-co2", "entity-co2"],
            ),
            point(
                "kp-1",
                "Duplicate extraction of the same point.",
                &["entity-co2"],
            ),
        ],
    );

    let contexts = build_entity_contexts(&graph, 3);

    assert_eq!(
        contexts[0].knowledge_points,
        vec!["CO₂ participates in carbon fixation."]
    );
}

#[test]
fn keeps_entities_without_context_and_supports_a_zero_limit() {
    let graph = graph(
        vec![entity("entity-co2", "CO₂", &["CO₂", "CO2"])],
        vec![point("kp-1", "A fact about CO₂.", &["entity-co2"])],
    );

    let contexts = build_entity_contexts(&graph, 0);

    assert_eq!(contexts.len(), 1);
    assert!(contexts[0].knowledge_points.is_empty());
    assert_eq!(
        contexts[0].embedding_text(),
        "Entity: CO₂\nAliases: CO₂, CO2"
    );
}

#[test]
fn formats_embedding_text_deterministically() {
    let context = EntityContext {
        entity_id: String::from("entity-co2"),
        canonical_name: String::from("CO₂"),
        aliases: vec![String::from("CO₂"), String::from("CO2")],
        knowledge_points: vec![
            String::from("CO₂ is attached to RuBP by RuBisCO."),
            String::from("Carbon fixation incorporates CO₂."),
        ],
    };

    assert_eq!(
        context.embedding_text(),
        "Entity: CO₂\nAliases: CO₂, CO2\nContext:\n- CO₂ is attached to RuBP by RuBisCO.\n- Carbon fixation incorporates CO₂."
    );
}
