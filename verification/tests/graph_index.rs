use arka::graph::graph_index::build_index;
use arka::graph::types::{EntityNode, KnowledgePoint, KnowledgeType, PropositionGraph, Relation, RelationType};

fn make_entity(id: &str, name: &str) -> EntityNode {
    EntityNode {
        id: id.to_string(),
        canonical_name: name.to_string(),
        aliases: vec![name.to_string()],
        chunk_ids: vec!["c1".to_string()],
    }
}

fn make_point(id: &str, entity_ids: &[&str]) -> KnowledgePoint {
    KnowledgePoint {
        id: id.to_string(),
        point: "test point".to_string(),
        knowledge_type: KnowledgeType::Fact,
        chunk_id: "c1".to_string(),
        raw_entity_names: vec![],
        entity_ids: entity_ids.iter().map(|s| s.to_string()).collect(),
        raw_relations: vec![],
    }
}

fn make_relation(source_id: &str, target_id: &str, relation_type: RelationType) -> Relation {
    Relation {
        source_id: source_id.to_string(),
        target_id: target_id.to_string(),
        relation_type,
    }
}

#[test]
fn test_empty_graph() {
    let graph = PropositionGraph {
        entities: vec![],
        knowledge_points: vec![],
        relations: vec![],
    };
    let index = build_index(&graph);
    assert!(index.all_entity_ids().is_empty());
}

#[test]
fn test_entity_to_points_single() {
    let graph = PropositionGraph {
        entities: vec![make_entity("e1", "ATP")],
        knowledge_points: vec![make_point("p1", &["e1"])],
        relations: vec![],
    };
    let index = build_index(&graph);
    assert_eq!(index.points_for_entity("e1"), vec!["p1"]);
    assert_eq!(
        index.points_for_entity("e_nonexistent"),
        Vec::<String>::new()
    );
}

#[test]
fn test_entity_to_points_multiple() {
    let graph = PropositionGraph {
        entities: vec![make_entity("e1", "ATP"), make_entity("e2", "Chloroplast")],
        knowledge_points: vec![
            make_point("p1", &["e1", "e2"]), // mentions both
            make_point("p2", &["e1"]),       // mentions e1 only
            make_point("p3", &["e2"]),       // mentions e2 only
        ],
        relations: vec![],
    };
    let index = build_index(&graph);
    assert_eq!(index.points_for_entity("e1"), vec!["p1", "p2"]); // sorted
    assert_eq!(index.points_for_entity("e2"), vec!["p1", "p3"]);
}

#[test]
fn test_edges_from_entity_single() {
    let graph = PropositionGraph {
        entities: vec![make_entity("e1", "ATP"), make_entity("e2", "Energy")],
        knowledge_points: vec![],
        relations: vec![make_relation("e1", "e2", RelationType::RelatedTo)],
    };
    let index = build_index(&graph);
    let edges = index.edges_from_entity("e1");
    assert_eq!(edges.len(), 1);
    assert_eq!(edges[0], (RelationType::RelatedTo, "e2".to_string()));
}

#[test]
fn test_edges_from_entity_multiple() {
    let graph = PropositionGraph {
        entities: vec![
            make_entity("e1", "ATP"),
            make_entity("e2", "Calvin Cycle"),
            make_entity("e3", "Energy"),
        ],
        knowledge_points: vec![],
        relations: vec![
            make_relation("e1", "e2", RelationType::Prerequisite),
            make_relation("e1", "e3", RelationType::RelatedTo),
        ],
    };
    let index = build_index(&graph);
    let edges = index.edges_from_entity("e1");
    assert_eq!(edges.len(), 2);
    // Should be sorted by target_id
    assert_eq!(edges[0].1, "e2");
    assert_eq!(edges[1].1, "e3");
}

#[test]
fn test_edges_nonexistent_entity() {
    let graph = PropositionGraph {
        entities: vec![],
        knowledge_points: vec![],
        relations: vec![],
    };
    let index = build_index(&graph);
    assert_eq!(index.edges_from_entity("e_nonexistent"), vec![]);
}

#[test]
fn test_all_entity_ids() {
    let graph = PropositionGraph {
        entities: vec![
            make_entity("e1", "ATP"),
            make_entity("e2", "Chloroplast"),
            make_entity("e3", "Light"),
        ],
        knowledge_points: vec![make_point("p1", &["e1", "e2"]), make_point("p2", &["e3"])],
        relations: vec![make_relation("e1", "e2", RelationType::RelatedTo)],
    };
    let index = build_index(&graph);
    let all_ids = index.all_entity_ids();
    assert_eq!(all_ids, vec!["e1", "e2", "e3"]);
}

#[test]
fn test_dedup_points_for_same_entity() {
    // A point shouldn't list the same entity twice, but be defensive
    let graph = PropositionGraph {
        entities: vec![make_entity("e1", "ATP")],
        knowledge_points: vec![KnowledgePoint {
            id: "p1".to_string(),
            point: "test".to_string(),
            knowledge_type: KnowledgeType::Fact,
            chunk_id: "c1".to_string(),
            raw_entity_names: vec![],
            entity_ids: vec!["e1".to_string(), "e1".to_string()], // duplicate
            raw_relations: vec![],
        }],
        relations: vec![],
    };
    let index = build_index(&graph);
    assert_eq!(index.points_for_entity("e1"), vec!["p1"]); // p1 appears once
}

#[test]
fn test_edge_type_distribution() {
    let graph = PropositionGraph {
        entities: vec![
            make_entity("e1", "ATP"),
            make_entity("e2", "Calvin Cycle"),
            make_entity("e3", "Light"),
            make_entity("e4", "Membrane"),
        ],
        knowledge_points: vec![],
        relations: vec![
            make_relation("e1", "e2", RelationType::Prerequisite),
            make_relation("e1", "e3", RelationType::RelatedTo),
            make_relation("e1", "e4", RelationType::Consequence),
        ],
    };
    let index = build_index(&graph);
    let edges = index.edges_from_entity("e1");
    assert_eq!(edges.len(), 3);
    // Verify types are present
    let types: Vec<_> = edges.iter().map(|(t, _)| t).collect();
    assert!(types.contains(&&RelationType::Prerequisite));
    assert!(types.contains(&&RelationType::RelatedTo));
    assert!(types.contains(&&RelationType::Consequence));
}

#[test]
fn test_deterministic_order() {
    // Build index twice from same graph, verify deterministic ordering
    let graph = PropositionGraph {
        entities: vec![
            make_entity("e1", "ATP"),
            make_entity("e2", "Energy"),
            make_entity("e3", "Chloroplast"),
        ],
        knowledge_points: vec![
            make_point("p3", &["e1", "e2"]),
            make_point("p1", &["e1"]),
            make_point("p2", &["e2"]),
        ],
        relations: vec![
            make_relation("e1", "e3", RelationType::RelatedTo),
            make_relation("e1", "e2", RelationType::Prerequisite),
        ],
    };

    let idx1 = build_index(&graph);
    let idx2 = build_index(&graph);

    assert_eq!(idx1.points_for_entity("e1"), idx2.points_for_entity("e1"));
    assert_eq!(idx1.edges_from_entity("e1"), idx2.edges_from_entity("e1"));
}
