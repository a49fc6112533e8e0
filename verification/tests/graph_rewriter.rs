use arka::graph::entity_resolution::graph_rewriter::{rewrite_graph_with_entity_merges, GraphRewriteError};
use arka::graph::entity_resolution::merge_planner::{EntityMerge, EntityMergePlan};
use arka::graph::types::{EntityNode, KnowledgePoint, KnowledgeType, PropositionGraph, Relation, RelationRef, RelationType};

fn entity(id: &str, name: &str, aliases: &[&str], chunks: &[&str]) -> EntityNode {
    EntityNode {
        id: id.to_string(),
        canonical_name: name.to_string(),
        aliases: aliases.iter().map(|value| value.to_string()).collect(),
        chunk_ids: chunks.iter().map(|value| value.to_string()).collect(),
    }
}

fn point(id: &str, entity_ids: &[&str]) -> KnowledgePoint {
    KnowledgePoint {
        id: id.to_string(),
        point: String::from("Test knowledge point."),
        knowledge_type: KnowledgeType::Fact,
        chunk_id: String::from("chunk-1"),
        raw_entity_names: vec![String::from("original wording")],
        entity_ids: entity_ids.iter().map(|value| value.to_string()).collect(),
        raw_relations: vec![RelationRef {
            target_entity_name: String::from("original target wording"),
            relation_type: RelationType::RelatedTo,
            source_quote: None,
        }],
    }
}

fn relation(source: &str, target: &str, relation_type: RelationType) -> Relation {
    Relation {
        source_id: source.to_string(),
        target_id: target.to_string(),
        relation_type,
    }
}

fn merge(canonical: &str, merged: &[&str]) -> EntityMerge {
    EntityMerge {
        canonical_entity_id: canonical.to_string(),
        merged_entity_ids: merged.iter().map(|value| value.to_string()).collect(),
    }
}

fn graph() -> PropositionGraph {
    PropositionGraph {
        entities: vec![
            entity("co2-symbol", "CO₂", &["CO₂", "CO2"], &["chunk-1"]),
            entity(
                "carbon-dioxide",
                "carbon dioxide",
                &["carbon dioxide", "CO2"],
                &["chunk-2"],
            ),
            entity("oxygen", "oxygen", &["oxygen"], &["chunk-3"]),
        ],
        knowledge_points: vec![point("kp-1", &["co2-symbol", "carbon-dioxide", "oxygen"])],
        relations: Vec::new(),
    }
}

#[test]
fn merges_entity_aliases_and_chunks_in_graph_order() {
    let rewritten = rewrite_graph_with_entity_merges(
        &graph(),
        &EntityMergePlan {
            merges: vec![merge("co2-symbol", &["carbon-dioxide"])],
        },
    )
    .expect("valid plan should rewrite entities");

    assert_eq!(rewritten.entities.len(), 2);
    assert_eq!(rewritten.entities[0].id, "co2-symbol");
    assert_eq!(rewritten.entities[0].canonical_name, "CO₂");
    assert_eq!(
        rewritten.entities[0].aliases,
        vec!["CO₂", "CO2", "carbon dioxide"]
    );
    assert_eq!(rewritten.entities[0].chunk_ids, vec!["chunk-1", "chunk-2"]);
    assert_eq!(rewritten.entities[1].id, "oxygen");
}

#[test]
fn rewrites_and_deduplicates_knowledge_point_ids_but_preserves_raw_evidence() {
    let rewritten = rewrite_graph_with_entity_merges(
        &graph(),
        &EntityMergePlan {
            merges: vec![merge("co2-symbol", &["carbon-dioxide"])],
        },
    )
    .expect("valid plan should rewrite knowledge points");
    let point = &rewritten.knowledge_points[0];

    assert_eq!(point.entity_ids, vec!["co2-symbol", "oxygen"]);
    assert_eq!(point.raw_entity_names, vec!["original wording"]);
    assert_eq!(
        point.raw_relations[0].target_entity_name,
        "original target wording"
    );
}

#[test]
fn rewrites_relations_deduplicates_triples_and_removes_created_self_relations() {
    let mut source = graph();
    source.relations = vec![
        relation("co2-symbol", "oxygen", RelationType::RelatedTo),
        relation("carbon-dioxide", "oxygen", RelationType::RelatedTo),
        relation("carbon-dioxide", "oxygen", RelationType::Consequence),
        relation("co2-symbol", "carbon-dioxide", RelationType::RelatedTo),
        relation("oxygen", "oxygen", RelationType::RelatedTo),
    ];
    let rewritten = rewrite_graph_with_entity_merges(
        &source,
        &EntityMergePlan {
            merges: vec![merge("co2-symbol", &["carbon-dioxide"])],
        },
    )
    .expect("valid plan should rewrite relations");

    assert_eq!(
        rewritten
            .relations
            .iter()
            .map(|relation| (
                relation.source_id.as_str(),
                relation.target_id.as_str(),
                relation.relation_type,
            ))
            .collect::<Vec<_>>(),
        vec![
            ("co2-symbol", "oxygen", RelationType::RelatedTo),
            ("co2-symbol", "oxygen", RelationType::Consequence),
            ("oxygen", "oxygen", RelationType::RelatedTo),
        ]
    );
}

#[test]
fn an_empty_plan_returns_an_unchanged_graph() {
    let source = graph();
    let rewritten = rewrite_graph_with_entity_merges(&source, &EntityMergePlan::default())
        .expect("empty plan is valid");

    assert_eq!(rewritten, source);
}

#[test]
fn rejects_unknown_overlapping_empty_and_non_earliest_plan_groups() {
    let source = graph();
    assert!(matches!(
        rewrite_graph_with_entity_merges(
            &source,
            &EntityMergePlan {
                merges: vec![merge("co2-symbol", &["missing"])]
            }
        ),
        Err(GraphRewriteError::UnknownPlanEntityId { entity_id }) if entity_id == "missing"
    ));
    assert!(matches!(
        rewrite_graph_with_entity_merges(
            &source,
            &EntityMergePlan {
                merges: vec![
                    merge("co2-symbol", &["carbon-dioxide"]),
                    merge("oxygen", &["carbon-dioxide"])
                ]
            }
        ),
        Err(GraphRewriteError::EntityAssignedToMultipleMerges { entity_id })
            if entity_id == "carbon-dioxide"
    ));
    assert!(matches!(
        rewrite_graph_with_entity_merges(
            &source,
            &EntityMergePlan {
                merges: vec![merge("co2-symbol", &[])]
            }
        ),
        Err(GraphRewriteError::EmptyMergeGroup { .. })
    ));
    assert!(matches!(
        rewrite_graph_with_entity_merges(
            &source,
            &EntityMergePlan {
                merges: vec![merge("carbon-dioxide", &["co2-symbol"])]
            }
        ),
        Err(GraphRewriteError::CanonicalEntityIsNotEarliest { .. })
    ));
}

#[test]
fn rejects_a_canonical_entity_repeated_inside_its_group() {
    let source = graph();
    let error = rewrite_graph_with_entity_merges(
        &source,
        &EntityMergePlan {
            merges: vec![merge("co2-symbol", &["co2-symbol"])],
        },
    )
    .expect_err("canonical ID cannot also be removed");

    assert_eq!(
        error,
        GraphRewriteError::CanonicalEntityListedAsMerged {
            entity_id: String::from("co2-symbol")
        }
    );
}

#[test]
fn rejects_duplicate_or_dangling_source_graph_ids() {
    let mut duplicate = graph();
    duplicate.entities.push(entity("oxygen", "O₂", &[], &[]));
    assert!(matches!(
        rewrite_graph_with_entity_merges(&duplicate, &EntityMergePlan::default()),
        Err(GraphRewriteError::DuplicateGraphEntityId { entity_id }) if entity_id == "oxygen"
    ));

    let mut dangling_point = graph();
    dangling_point.knowledge_points[0]
        .entity_ids
        .push(String::from("missing"));
    assert!(matches!(
        rewrite_graph_with_entity_merges(&dangling_point, &EntityMergePlan::default()),
        Err(GraphRewriteError::UnknownKnowledgePointEntityId { entity_id, .. })
            if entity_id == "missing"
    ));

    let mut dangling_relation = graph();
    dangling_relation
        .relations
        .push(relation("missing", "oxygen", RelationType::RelatedTo));
    assert!(matches!(
        rewrite_graph_with_entity_merges(&dangling_relation, &EntityMergePlan::default()),
        Err(GraphRewriteError::UnknownRelationEntityId {
            endpoint: "source_id",
            entity_id,
            ..
        }) if entity_id == "missing"
    ));
}
