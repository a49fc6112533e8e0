use arka::graph::entity_resolution::merge_planner::VerifiedEntityPair;
use arka::graph::entity_resolution::pipeline::{resolve_verified_entities, EntityResolutionPipelineError};
use arka::graph::entity_resolution::semantic_verifier::{settle_verification, EntityMatchDecision, WireVerification};
use arka::graph::pipeline::{
    finish_graph_stage_a, finish_graph_stage_b, relation_count, stage_a_chunk_result, stage_a_concurrency,
    stage_b_concurrency, stage_b_item_result, summarize_points, truncate, GraphPipelineError,
};
use arka::graph::stage_b_schema::GeneratedMCQ;
use arka::graph::types::{
    EntityNode, ExtractedKnowledge, GraphContextBundle, KnowledgePoint, KnowledgeType, PropositionGraph,
    QuestionType, RawEntityMention, Relation, RelationRef, RelationType,
};
use arka::llm::error::LlmServiceError;

fn point(id: &str, names: &[&str], relations: usize) -> KnowledgePoint {
    KnowledgePoint {
        id: id.to_string(),
        point: format!("Point {id}"),
        knowledge_type: KnowledgeType::Definition,
        chunk_id: String::from("chunk-0"),
        raw_entity_names: names.iter().map(|n| n.to_string()).collect(),
        entity_ids: Vec::new(),
        raw_relations: (0..relations)
            .map(|_| RelationRef {
                target_entity_name: names[0].to_string(),
                relation_type: RelationType::RelatedTo,
                source_quote: None,
            })
            .collect(),
    }
}

fn extracted() -> ExtractedKnowledge {
    ExtractedKnowledge {
        chunk_id: String::from("chunk-0"),
        raw_entities: vec![
            RawEntityMention { name: String::from("JWT"), chunk_id: String::from("chunk-0") },
            RawEntityMention { name: String::from("Cookie"), chunk_id: String::from("chunk-0") },
        ],
        knowledge_points: vec![point("p1", &["JWT"], 2), point("p2", &["Cookie"], 1)],
    }
}

#[test]
fn concurrency_limits_are_bounded_by_the_work() {
    assert_eq!(stage_a_concurrency(10, 3).unwrap(), 3);
    assert_eq!(stage_a_concurrency(10, 0).unwrap(), 1);
    assert_eq!(stage_b_concurrency(2, 7).unwrap(), 2);
    assert!(matches!(stage_a_concurrency(0, 3), Err(GraphPipelineError::InvalidStageAConcurrency { value: 0 })));
    assert_eq!(
        stage_b_concurrency(0, 3).unwrap_err().to_string(),
        "Graph Stage B max concurrency must be greater than zero; received 0"
    );
}

#[test]
fn previews_are_truncated_by_characters() {
    assert_eq!(truncate("short", 200), "short");
    assert_eq!(truncate("ääääh", 3), "äää...");
}

#[test]
fn chunk_outcomes_are_summarized() {
    let x = extracted();
    assert_eq!(relation_count(&x), 3);
    let summaries = summarize_points(&x);
    assert_eq!(summaries.len(), 2);
    assert_eq!(summaries[0].knowledge_type, "Definition");
    assert_eq!(summaries[0].relation_count, 2);

    let ok = stage_a_chunk_result(0, String::from("Intro"), "Body", Ok((extracted(), String::from("{}"), 2)));
    assert_eq!(ok.status, "success");
    assert_eq!(ok.relation_count, Some(3));
    assert_eq!(ok.entities, Some(vec![String::from("JWT"), String::from("Cookie")]));
    let failed = stage_a_chunk_result(1, String::from("Next"), "Body", Err(String::from("boom")));
    assert_eq!(failed.status, "llm_error");
    assert_eq!(failed.error.as_deref(), Some("boom"));
    assert!(failed.extracted.is_none());

    let result = finish_graph_stage_a("notes/a.md", "a", vec![ok, failed]);
    assert_eq!(result.total_chunks, 2);
    assert_eq!(result.successful_chunks, 1);
    assert_eq!(result.failed_chunks, 1);
    assert_eq!(result.graph.entities.len(), 2);
    assert_eq!(result.graph.knowledge_points.len(), 2);
    assert!(result.validation_violations.is_empty());
}

#[test]
fn stage_b_outcomes_are_counted() {
    let bundle = GraphContextBundle {
        root_point: point("p1", &["JWT"], 0),
        related_points: Vec::new(),
        question_type: QuestionType::Recall,
        supporting_entities: Vec::new(),
        supporting_relations: Vec::new(),
    };
    let mcq = GeneratedMCQ {
        question: String::from("What is a JWT?"),
        options: vec![String::from("A"), String::from("B"), String::from("C"), String::from("D")],
        correct_index: 0,
        explanation: String::from("A JWT is a signed token."),
        question_type: QuestionType::Recall,
    };
    let first = stage_b_item_result(0, bundle.clone(), Ok(mcq));
    let second = stage_b_item_result(1, bundle, Err(String::from("timeout")));
    let result = finish_graph_stage_b(vec![first, second]);
    assert_eq!(result.total_bundles, 2);
    assert_eq!(result.successful_mcqs, 1);
    assert_eq!(result.failed_mcqs, 1);
    assert_eq!(result.items[1].status, "llm_error");
}

fn entity(id: &str) -> EntityNode {
    EntityNode {
        id: id.to_string(),
        canonical_name: id.to_string(),
        aliases: vec![id.to_string()],
        chunk_ids: vec![String::from("chunk-0")],
    }
}

fn pair(left: &str, right: &str, decision: EntityMatchDecision) -> VerifiedEntityPair {
    VerifiedEntityPair { entity_id: left.to_string(), candidate_entity_id: right.to_string(), decision }
}

#[test]
fn verified_pairs_resolve_into_a_rewritten_indexed_graph() {
    let graph = PropositionGraph {
        entities: vec![entity("co2"), entity("carbon-dioxide"), entity("oxygen")],
        knowledge_points: vec![KnowledgePoint {
            entity_ids: vec![String::from("carbon-dioxide")],
            ..point("kp-1", &["carbon dioxide"], 0)
        }],
        relations: vec![Relation {
            source_id: String::from("carbon-dioxide"),
            target_id: String::from("oxygen"),
            relation_type: RelationType::RelatedTo,
        }],
    };
    let verified = vec![
        pair("carbon-dioxide", "co2", EntityMatchDecision::SameEntity),
        pair("co2", "oxygen", EntityMatchDecision::DifferentEntity),
    ];
    let resolved = match resolve_verified_entities(&graph, 2, &verified) {
        Ok(resolved) => resolved,
        Err(_) => panic!("resolution should succeed"),
    };
    assert_eq!(resolved.graph.entities.len(), 2);
    assert_eq!(resolved.graph.knowledge_points[0].entity_ids, vec!["co2"]);
    assert_eq!(resolved.graph.relations[0].source_id, "co2");
    assert_eq!(resolved.metrics.entity_count_before, 3);
    assert_eq!(resolved.metrics.entity_count_after, 2);
    assert_eq!(resolved.metrics.same_entity_count, 1);
    assert_eq!(resolved.metrics.different_entity_count, 1);
    assert_eq!(resolved.metrics.merge_group_count, 1);
    assert_eq!(resolved.index.points_for_entity("co2").len(), 1);

    let invalid = vec![pair("co2", "missing", EntityMatchDecision::SameEntity)];
    assert!(matches!(
        resolve_verified_entities(&graph, 1, &invalid),
        Err(EntityResolutionPipelineError::MergePlanning(_))
    ));
}

#[test]
fn untrustworthy_verifier_output_becomes_uncertain() {
    let settled = settle_verification(Err(LlmServiceError::EmptyModelResponse)).unwrap();
    assert_eq!(settled.0, EntityMatchDecision::Uncertain);
    let kept = settle_verification(Ok(WireVerification {
        decision: EntityMatchDecision::SameEntity,
        reason: String::from("Same symbol."),
    }))
    .unwrap();
    assert_eq!(kept.0, EntityMatchDecision::SameEntity);
    assert!(settle_verification(Err(LlmServiceError::MissingApiKey)).is_err());
}

#[test]
fn operational_verifier_errors_pass_through_unchanged() {
    match settle_verification(Err(LlmServiceError::ModelNotFound { model: String::from("m1") })) {
        Err(arka::graph::entity_resolution::semantic_verifier::EntityVerificationError::Llm(
            LlmServiceError::ModelNotFound { model },
        )) => assert_eq!(model, "m1"),
        other => panic!("unexpected result: {:?}", other),
    }
}
