use arka::graph::bundle_builder::assemble_bundles;
use arka::graph::graph_index::build_index;
use arka::graph::types::{
    EntityNode, KnowledgePoint, KnowledgeType, PropositionGraph, QuestionType, Relation, RelationType,
};

fn make_entity(id: &str, name: &str) -> EntityNode {
    EntityNode {
        id: id.to_string(),
        canonical_name: name.to_string(),
        aliases: vec![name.to_string()],
        chunk_ids: vec!["c1".to_string()],
    }
}

fn make_point(id: &str, entity_ids: &[&str]) -> KnowledgePoint {
    KnowledgePoint {
        id: id.to_string(),
        point: format!("Test point {id}"),
        knowledge_type: KnowledgeType::Fact,
        chunk_id: "c1".to_string(),
        raw_entity_names: vec![],
        entity_ids: entity_ids.iter().map(|s| s.to_string()).collect(),
        raw_relations: vec![],
    }
}

fn make_relation(source_id: &str, target_id: &str) -> Relation {
    Relation {
        source_id: source_id.to_string(),
        target_id: target_id.to_string(),
        relation_type: RelationType::RelatedTo,
    }
}

#[test]
fn test_isolated_point() {
    // Single point with no neighbors
    let graph = PropositionGraph {
        entities: vec![make_entity("e1", "JWT")],
        knowledge_points: vec![make_point("kp1", &["e1"])],
        relations: vec![],
    };
    let index = build_index(&graph);
    let bundles = assemble_bundles(&graph, &index);

    assert_eq!(bundles.len(), 1);
    assert_eq!(bundles[0].root_point.id, "kp1");
    assert!(bundles[0].related_points.is_empty());
    assert_eq!(bundles[0].question_type, QuestionType::Recall);
}

#[test]
fn test_one_neighbour() {
    // Two points sharing one entity
    let graph = PropositionGraph {
        entities: vec![
            make_entity("e1", "JWT"),
            make_entity("e2", "Token"),
        ],
        knowledge_points: vec![
            make_point("kp1", &["e1"]),
            make_point("kp2", &["e1", "e2"]),
        ],
        relations: vec![],
    };
    let index = build_index(&graph);
    let bundles = assemble_bundles(&graph, &index);

    let kp1_bundle = bundles.iter().find(|b| b.root_point.id == "kp1").unwrap();
    assert_eq!(kp1_bundle.related_points.len(), 1);
    assert_eq!(kp1_bundle.related_points[0].id, "kp2");
}

#[test]
fn test_many_neighbours_capped_at_three() {
    // Root point with many neighbors sharing different entities
    let graph = PropositionGraph {
        entities: vec![
            make_entity("e1", "Root"),
            make_entity("e2", "Neighbor1"),
            make_entity("e3", "Neighbor2"),
            make_entity("e4", "Neighbor3"),
            make_entity("e5", "Neighbor4"),
        ],
        knowledge_points: vec![
            make_point("root", &["e1"]),
            make_point("n1", &["e1", "e2"]),
            make_point("n2", &["e1", "e3"]),
            make_point("n3", &["e1", "e4"]),
            make_point("n4", &["e1", "e5"]),
        ],
        relations: vec![],
    };
    let index = build_index(&graph);
    let bundles = assemble_bundles(&graph, &index);

    let root_bundle = bundles.iter().find(|b| b.root_point.id == "root").unwrap();
    assert_eq!(root_bundle.related_points.len(), 3); // capped at MAX_RELATED_POINTS
}

#[test]
fn test_duplicate_neighbour_removed() {
    // Candidate point appears multiple times in candidates set (via different entities)
    // but should only appear once in related_points
    let graph = PropositionGraph {
        entities: vec![
            make_entity("e1", "A"),
            make_entity("e2", "B"),
            make_entity("e3", "C"),
        ],
        knowledge_points: vec![
            make_point("root", &["e1", "e2"]),
            make_point("n1", &["e1", "e2", "e3"]), // shares 2 entities with root
        ],
        relations: vec![],
    };
    let index = build_index(&graph);
    let bundles = assemble_bundles(&graph, &index);

    let root_bundle = bundles.iter().find(|b| b.root_point.id == "root").unwrap();
    assert_eq!(root_bundle.related_points.len(), 1);
    assert_eq!(root_bundle.related_points[0].id, "n1");
}

#[test]
fn test_deterministic_ordering() {
    // Multiple neighbors with same score should be ordered by ID
    let graph = PropositionGraph {
        entities: vec![
            make_entity("e1", "Root"),
            make_entity("e2", "A"),
            make_entity("e3", "B"),
            make_entity("e4", "C"),
        ],
        knowledge_points: vec![
            make_point("root", &["e1"]),
            make_point("z_neighbor", &["e1", "e2"]), // score 1
            make_point("a_neighbor", &["e1", "e3"]), // score 1
            make_point("m_neighbor", &["e1", "e4"]), // score 1
        ],
        relations: vec![],
    };
    let index = build_index(&graph);
    let bundles = assemble_bundles(&graph, &index);

    let root_bundle = bundles.iter().find(|b| b.root_point.id == "root").unwrap();
    assert_eq!(root_bundle.related_points.len(), 3);
    // Should be ordered by ID: a_neighbor, m_neighbor, z_neighbor
    assert_eq!(root_bundle.related_points[0].id, "a_neighbor");
    assert_eq!(root_bundle.related_points[1].id, "m_neighbor");
    assert_eq!(root_bundle.related_points[2].id, "z_neighbor");
}

#[test]
fn test_question_type_relational_on_supporting_relations() {
    // Bundle with supporting relations → Relational
    let graph = PropositionGraph {
        entities: vec![
            make_entity("e1", "JWT"),
            make_entity("e2", "Cookie"),
        ],
        knowledge_points: vec![
            make_point("kp1", &["e1"]),
            make_point("kp2", &["e2"]),
        ],
        relations: vec![make_relation("e1", "e2")],
    };
    let index = build_index(&graph);
    let bundles = assemble_bundles(&graph, &index);

    let kp1_bundle = bundles.iter().find(|b| b.root_point.id == "kp1").unwrap();
    assert_eq!(kp1_bundle.question_type, QuestionType::Relational);
    assert!(!kp1_bundle.supporting_relations.is_empty());
}

#[test]
fn test_incoming_relations_captured() {
    // Bundle should capture relations where root's entity is the TARGET
    let graph = PropositionGraph {
        entities: vec![
            make_entity("e1", "JWT"),
            make_entity("e2", "Cookie"),
        ],
        knowledge_points: vec![
            make_point("kp1", &["e1"]),
            make_point("kp2", &["e2"]),
        ],
        relations: vec![make_relation("e2", "e1")], // e2 → e1 (incoming to root)
    };
    let index = build_index(&graph);
    let bundles = assemble_bundles(&graph, &index);

    let kp1_bundle = bundles.iter().find(|b| b.root_point.id == "kp1").unwrap();
    assert_eq!(kp1_bundle.question_type, QuestionType::Relational);
    assert_eq!(kp1_bundle.supporting_relations.len(), 1);
    assert_eq!(kp1_bundle.supporting_relations[0].source_id, "e2");
    assert_eq!(kp1_bundle.supporting_relations[0].target_id, "e1");
}

#[test]
fn test_question_type_recall_on_empty_supporting_relations() {
    // Bundle with no supporting relations → Recall
    let graph = PropositionGraph {
        entities: vec![make_entity("e1", "Bubble Sort")],
        knowledge_points: vec![make_point("kp1", &["e1"])],
        relations: vec![],
    };
    let index = build_index(&graph);
    let bundles = assemble_bundles(&graph, &index);

    let kp1_bundle = bundles.iter().find(|b| b.root_point.id == "kp1").unwrap();
    assert_eq!(kp1_bundle.question_type, QuestionType::Recall);
    assert!(kp1_bundle.supporting_relations.is_empty());
}

#[test]
fn test_root_never_appears_in_related() {
    // Root should never include itself in related_points
    let graph = PropositionGraph {
        entities: vec![make_entity("e1", "A")],
        knowledge_points: vec![make_point("root", &["e1"])],
        relations: vec![],
    };
    let index = build_index(&graph);
    let bundles = assemble_bundles(&graph, &index);

    let root_bundle = bundles.iter().find(|b| b.root_point.id == "root").unwrap();
    assert!(!root_bundle.related_points.iter().any(|p| p.id == "root"));
}

#[test]
fn test_incoming_relation_neighbours_captured() {
    // Root = Cookies should find JWT via incoming edge (JWT → Cookies)
    let graph = PropositionGraph {
        entities: vec![
            make_entity("e1", "JWT"),
            make_entity("e2", "Cookies"),
        ],
        knowledge_points: vec![
            make_point("kp_jwt", &["e1"]),
            make_point("kp_cookies", &["e2"]),
        ],
        relations: vec![make_relation("e1", "e2")], // JWT → Cookies
    };
    let index = build_index(&graph);
    let bundles = assemble_bundles(&graph, &index);

    // Cookies bundle should include JWT as a relation neighbor
    let cookies_bundle = bundles.iter().find(|b| b.root_point.id == "kp_cookies").unwrap();
    assert_eq!(cookies_bundle.related_points.len(), 1);
    assert_eq!(cookies_bundle.related_points[0].id, "kp_jwt");
}

#[test]
fn test_scoring_by_shared_entities() {
    // Verify candidates are scored by # shared entities
    let graph = PropositionGraph {
        entities: vec![
            make_entity("e1", "JWT"),
            make_entity("e2", "Cookie"),
            make_entity("e3", "Session"),
        ],
        knowledge_points: vec![
            make_point("root", &["e1", "e2"]),
            make_point("c1", &["e1"]), // score 1
            make_point("c2", &["e1", "e2"]), // score 2 → should rank first
            make_point("c3", &["e2", "e3"]), // score 1
        ],
        relations: vec![],
    };
    let index = build_index(&graph);
    let bundles = assemble_bundles(&graph, &index);

    let root_bundle = bundles.iter().find(|b| b.root_point.id == "root").unwrap();
    assert_eq!(root_bundle.related_points.len(), 3);
    // c2 should be first (score 2)
    assert_eq!(root_bundle.related_points[0].id, "c2");
    // Then c1 and c3 (score 1) ordered by ID
    assert_eq!(root_bundle.related_points[1].id, "c1");
    assert_eq!(root_bundle.related_points[2].id, "c3");
}
