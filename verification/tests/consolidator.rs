use std::collections::HashSet;
use arka::graph::consolidator::{consolidate, validate_graph};
use arka::graph::entity_ids::{normalize_for_comparison, to_entity_id};
use arka::graph::types::{
    EntityNode, ExtractedKnowledge, KnowledgePoint, KnowledgeType, PropositionGraph, RawEntityMention, Relation,
    RelationRef, RelationType,
};

// ── normalize_for_comparison ─────────────────────────────────────────

#[test]
fn test_normalize_subscript_digits() {
    assert_eq!(normalize_for_comparison("CO₂"), "co2");
    assert_eq!(normalize_for_comparison("H₂O"), "h2o");
    assert_eq!(normalize_for_comparison("CO2"), "co2"); // already ASCII
}

#[test]
fn test_normalize_superscript_signs() {
    assert_eq!(normalize_for_comparison("H⁺"), "h+");
    assert_eq!(normalize_for_comparison("e⁻"), "e-");
    assert_eq!(normalize_for_comparison("H+"), "h+"); // already ASCII
}

#[test]
fn test_normalize_case_fold() {
    assert_eq!(normalize_for_comparison("Chloroplast"), "chloroplast");
    assert_eq!(normalize_for_comparison("PHOTOSYNTHESIS"), "photosynthesis");
}

#[test]
fn test_normalize_whitespace() {
    assert_eq!(normalize_for_comparison("  Calvin cycle  "), "calvin cycle");
    assert_eq!(
        normalize_for_comparison("light  dependent  reactions"),
        "light dependent reactions"
    );
}

#[test]
fn test_normalize_combined() {
    assert_eq!(
        normalize_for_comparison("CO₂ concentration"),
        "co2 concentration"
    );
    assert_eq!(normalize_for_comparison("H⁺ ions"), "h+ ions");
}

// ── to_entity_id ─────────────────────────────────────────────────────

#[test]
fn test_entity_id_simple() {
    assert_eq!(to_entity_id("chloroplast"), "entity-chloroplast");
}

#[test]
fn test_entity_id_spaces_become_underscores() {
    assert_eq!(to_entity_id("photosystem ii"), "entity-photosystem_ii");
    assert_eq!(to_entity_id("calvin cycle"), "entity-calvin_cycle");
}

#[test]
fn test_entity_id_preserves_plus_minus() {
    assert_eq!(to_entity_id("h+"), "entity-h+");
    assert_eq!(to_entity_id("e-"), "entity-e-");
}

#[test]
fn test_entity_id_collapses_consecutive_underscores() {
    // internal spaces become underscores → collapse consecutive
    assert_eq!(
        to_entity_id("co2 concentration"),
        "entity-co2_concentration"
    );
}

#[test]
fn test_entity_id_uses_fallback_for_punctuation_only_names() {
    assert_eq!(to_entity_id("!!!"), "entity-unnamed");
    assert_eq!(to_entity_id(""), "entity-unnamed");
}

// ── consolidate ───────────────────────────────────────────────────────

fn make_chunk(
    chunk_id: &str,
    entities: &[&str],
    points: Vec<KnowledgePoint>,
) -> ExtractedKnowledge {
    ExtractedKnowledge {
        chunk_id: chunk_id.to_string(),
        raw_entities: entities
            .iter()
            .map(|name| RawEntityMention {
                name: name.to_string(),
                chunk_id: chunk_id.to_string(),
            })
            .collect(),
        knowledge_points: points,
    }
}

fn make_point(id: &str, chunk_id: &str, entity_names: &[&str]) -> KnowledgePoint {
    KnowledgePoint {
        id: id.to_string(),
        point: format!("A fact about {}", entity_names.join(", ")),
        knowledge_type: KnowledgeType::Fact,
        chunk_id: chunk_id.to_string(),
        raw_entity_names: entity_names.iter().map(|s| s.to_string()).collect(),
        entity_ids: Vec::new(),
        raw_relations: Vec::new(),
    }
}

fn make_point_with_relation(
    id: &str,
    chunk_id: &str,
    entity_names: &[&str],
    target: &str,
    relation_type: RelationType,
) -> KnowledgePoint {
    KnowledgePoint {
        id: id.to_string(),
        point: format!("A fact about {}", entity_names.join(", ")),
        knowledge_type: KnowledgeType::Fact,
        chunk_id: chunk_id.to_string(),
        raw_entity_names: entity_names.iter().map(|s| s.to_string()).collect(),
        entity_ids: Vec::new(),
        raw_relations: vec![RelationRef {
            target_entity_name: target.to_string(),
            relation_type,
            source_quote: None,
        }],
    }
}

#[test]
fn test_empty_input() {
    let graph = consolidate(vec![]);
    assert!(graph.entities.is_empty());
    assert!(graph.knowledge_points.is_empty());
    assert!(graph.relations.is_empty());
}

#[test]
fn test_single_chunk_basic() {
    let chunk = make_chunk(
        "c1",
        &["chloroplast", "chlorophyll"],
        vec![make_point("c1-kp-0", "c1", &["chloroplast", "chlorophyll"])],
    );
    let graph = consolidate(vec![chunk]);
    assert_eq!(graph.entities.len(), 2);
    assert_eq!(graph.knowledge_points.len(), 1);
    // entity_ids populated
    assert_eq!(graph.knowledge_points[0].entity_ids.len(), 2);
}

#[test]
fn test_entity_dedup_across_chunks() {
    let c1 = make_chunk("c1", &["chloroplast"], vec![]);
    let c2 = make_chunk("c2", &["chloroplast"], vec![]);
    let graph = consolidate(vec![c1, c2]);
    // Same name in two chunks → one EntityNode with both chunk_ids
    assert_eq!(graph.entities.len(), 1);
    assert_eq!(graph.entities[0].chunk_ids.len(), 2);
    assert!(graph.entities[0].chunk_ids.contains(&"c1".to_string()));
    assert!(graph.entities[0].chunk_ids.contains(&"c2".to_string()));
}

#[test]
fn test_case_insensitive_dedup() {
    let c1 = make_chunk("c1", &["Chloroplast"], vec![]);
    let c2 = make_chunk("c2", &["chloroplast"], vec![]);
    let graph = consolidate(vec![c1, c2]);
    assert_eq!(graph.entities.len(), 1);
    // First-seen raw form is preserved as canonical_name
    assert_eq!(graph.entities[0].canonical_name, "Chloroplast");
    // Both forms in aliases
    assert!(graph.entities[0]
        .aliases
        .contains(&"Chloroplast".to_string()));
    assert!(graph.entities[0]
        .aliases
        .contains(&"chloroplast".to_string()));
}

#[test]
fn test_subscript_normalization_dedup() {
    // CO₂ and CO2 should resolve to the same EntityNode
    let c1 = make_chunk("c1", &["CO₂"], vec![]);
    let c2 = make_chunk("c2", &["CO2"], vec![]);
    let graph = consolidate(vec![c1, c2]);
    assert_eq!(graph.entities.len(), 1);
    assert_eq!(graph.entities[0].id, "entity-co2"); // no spaces → no underscores
    assert_eq!(graph.entities[0].canonical_name, "CO₂"); // first-seen form
    assert!(graph.entities[0].aliases.contains(&"CO2".to_string()));
}

#[test]
fn test_slug_collisions_receive_unique_deterministic_ids() {
    fn collision_chunk() -> ExtractedKnowledge {
        make_chunk(
            "c1",
            &["partition", "!partition"],
            vec![make_point_with_relation(
                "c1-kp-0",
                "c1",
                &["partition"],
                "!partition",
                RelationType::RelatedTo,
            )],
        )
    }

    let graph = consolidate(vec![collision_chunk()]);
    let partition = graph
        .entities
        .iter()
        .find(|entity| entity.canonical_name == "partition")
        .expect("partition entity should exist");
    let punctuated_partition = graph
        .entities
        .iter()
        .find(|entity| entity.canonical_name == "!partition")
        .expect("!partition entity should exist");

    assert_eq!(partition.id, "entity-partition");
    assert!(punctuated_partition.id.starts_with("entity-partition_"));
    assert_ne!(partition.id, punctuated_partition.id);
    assert_eq!(graph.relations.len(), 1);
    assert_eq!(graph.relations[0].source_id, partition.id);
    assert_eq!(graph.relations[0].target_id, punctuated_partition.id);
    assert!(validate_graph(&graph).is_empty());

    // Reprocessing the same ordered graph must allocate the same IDs.
    let repeated = consolidate(vec![collision_chunk()]);
    let entity_ids = graph
        .entities
        .iter()
        .map(|entity| (&entity.canonical_name, &entity.id))
        .collect::<Vec<_>>();
    let repeated_ids = repeated
        .entities
        .iter()
        .map(|entity| (&entity.canonical_name, &entity.id))
        .collect::<Vec<_>>();
    assert_eq!(entity_ids, repeated_ids);
}

#[test]
fn test_entity_ids_populated() {
    let chunk = make_chunk(
        "c1",
        &["ATP", "NADPH"],
        vec![make_point("c1-kp-0", "c1", &["ATP", "NADPH"])],
    );
    let graph = consolidate(vec![chunk]);
    let kp = &graph.knowledge_points[0];
    assert_eq!(kp.entity_ids.len(), 2);
    // Verify IDs point to real entities
    let entity_ids: HashSet<&str> = graph.entities.iter().map(|e| e.id.as_str()).collect();
    for id in &kp.entity_ids {
        assert!(
            entity_ids.contains(id.as_str()),
            "entity_id {id} not found in graph"
        );
    }
}

#[test]
fn test_relation_resolved() {
    let chunk = make_chunk(
        "c1",
        &["ATP", "Calvin cycle"],
        vec![make_point_with_relation(
            "c1-kp-0",
            "c1",
            &["ATP"],
            "Calvin cycle",
            RelationType::Prerequisite,
        )],
    );
    let graph = consolidate(vec![chunk]);
    assert_eq!(graph.relations.len(), 1);
    let rel = &graph.relations[0];
    assert_eq!(rel.relation_type, RelationType::Prerequisite);
    // source is "atp" entity, target is "calvin cycle" entity
    assert_eq!(rel.source_id, "entity-atp");
    assert_eq!(rel.target_id, "entity-calvin_cycle");
}

#[test]
fn test_relation_dedup() {
    // Two chunks each contributing the same source→target→type
    let c1 = make_chunk(
        "c1",
        &["ATP", "Calvin cycle"],
        vec![make_point_with_relation(
            "c1-kp-0",
            "c1",
            &["ATP"],
            "Calvin cycle",
            RelationType::Prerequisite,
        )],
    );
    let c2 = make_chunk(
        "c2",
        &["ATP", "Calvin cycle"],
        vec![make_point_with_relation(
            "c2-kp-0",
            "c2",
            &["ATP"],
            "Calvin cycle",
            RelationType::Prerequisite,
        )],
    );
    let graph = consolidate(vec![c1, c2]);
    assert_eq!(
        graph.relations.len(),
        1,
        "duplicate relation should be collapsed"
    );
}

#[test]
fn test_unresolvable_relation_skipped() {
    // Relation target "membrane" never declared in entities
    let chunk = make_chunk(
        "c1",
        &["chloroplast"],
        vec![make_point_with_relation(
            "c1-kp-0",
            "c1",
            &["chloroplast"],
            "membrane",
            RelationType::RelatedTo,
        )],
    );
    let graph = consolidate(vec![chunk]);
    // No panic; relation silently dropped
    assert_eq!(graph.relations.len(), 0);
    assert_eq!(graph.entities.len(), 1);
}

#[test]
fn test_canonical_name_is_first_seen() {
    // Second chunk introduces a different casing — canonical should be first chunk's form
    let c1 = make_chunk("c1", &["Photosystem II"], vec![]);
    let c2 = make_chunk("c2", &["photosystem ii"], vec![]);
    let graph = consolidate(vec![c1, c2]);
    assert_eq!(graph.entities.len(), 1);
    assert_eq!(graph.entities[0].canonical_name, "Photosystem II");
}

// ── validate_graph ────────────────────────────────────────────────────

#[test]
fn test_validate_graph_clean_output_is_valid() {
    // Any graph produced by consolidate() must pass validate_graph.
    let chunk = make_chunk(
        "c1",
        &["ATP", "NADPH"],
        vec![make_point("c1-kp-0", "c1", &["ATP", "NADPH"])],
    );
    let graph = consolidate(vec![chunk]);
    assert!(validate_graph(&graph).is_empty());
}

#[test]
fn test_validate_graph_duplicate_entity_id() {
    let entity = EntityNode {
        id: "entity-atp".to_string(),
        canonical_name: "ATP".to_string(),
        aliases: vec!["ATP".to_string()],
        chunk_ids: vec!["c1".to_string()],
    };
    let graph = PropositionGraph {
        entities: vec![entity.clone(), entity], // same ID twice
        knowledge_points: vec![],
        relations: vec![],
    };
    let v = validate_graph(&graph);
    assert!(!v.is_empty());
    assert!(v[0].contains("duplicate entity id"));
}

#[test]
fn test_validate_graph_dangling_relation_source() {
    let graph = PropositionGraph {
        entities: vec![EntityNode {
            id: "entity-atp".to_string(),
            canonical_name: "ATP".to_string(),
            aliases: vec!["ATP".to_string()],
            chunk_ids: vec![],
        }],
        knowledge_points: vec![],
        relations: vec![Relation {
            source_id: "entity-ghost".to_string(), // does not exist
            target_id: "entity-atp".to_string(),
            relation_type: RelationType::RelatedTo,
        }],
    };
    let v = validate_graph(&graph);
    assert!(v
        .iter()
        .any(|s| s.contains("source_id") && s.contains("entity-ghost")));
}

#[test]
fn test_validate_graph_dangling_relation_target() {
    let graph = PropositionGraph {
        entities: vec![EntityNode {
            id: "entity-atp".to_string(),
            canonical_name: "ATP".to_string(),
            aliases: vec!["ATP".to_string()],
            chunk_ids: vec![],
        }],
        knowledge_points: vec![],
        relations: vec![Relation {
            source_id: "entity-atp".to_string(),
            target_id: "entity-ghost".to_string(), // does not exist
            relation_type: RelationType::RelatedTo,
        }],
    };
    let v = validate_graph(&graph);
    assert!(v
        .iter()
        .any(|s| s.contains("target_id") && s.contains("entity-ghost")));
}

#[test]
fn test_validate_graph_dangling_kp_entity_id() {
    let graph = PropositionGraph {
        entities: vec![],
        knowledge_points: vec![KnowledgePoint {
            id: "kp-0".to_string(),
            point: "some fact".to_string(),
            knowledge_type: KnowledgeType::Fact,
            chunk_id: "c1".to_string(),
            raw_entity_names: vec![],
            entity_ids: vec!["entity-ghost".to_string()], // not in entities
            raw_relations: vec![],
        }],
        relations: vec![],
    };
    let v = validate_graph(&graph);
    assert!(v.iter().any(|s| s.contains("entity-ghost")));
}

#[test]
fn relations_between_one_pair_are_ordered_by_type() {
    let c1 = make_chunk(
        "c1",
        &["ATP", "Calvin cycle"],
        vec![
            make_point_with_relation("c1-kp-0", "c1", &["ATP"], "Calvin cycle", RelationType::Example),
            make_point_with_relation(
                "c1-kp-1",
                "c1",
                &["ATP"],
                "Calvin cycle",
                RelationType::RelatedTo,
            ),
            make_point_with_relation(
                "c1-kp-2",
                "c1",
                &["ATP"],
                "Calvin cycle",
                RelationType::Prerequisite,
            ),
        ],
    );
    let graph = consolidate(vec![c1]);
    let types: Vec<RelationType> = graph.relations.iter().map(|r| r.relation_type).collect();
    assert_eq!(
        types,
        vec![RelationType::RelatedTo, RelationType::Prerequisite, RelationType::Example]
    );
}
