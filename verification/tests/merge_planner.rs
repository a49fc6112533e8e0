use arka::graph::entity_resolution::graph_rewriter::rewrite_graph_with_entity_merges;
use arka::graph::entity_resolution::merge_planner::{
    build_entity_merge_plan, EntityMerge, EntityMergePlan, MergePlanningError, VerifiedEntityPair,
};
use arka::graph::entity_resolution::semantic_verifier::EntityMatchDecision;
use arka::graph::types::{EntityNode, PropositionGraph};

fn entity(id: &str, name: &str) -> EntityNode {
    EntityNode {
        id: id.to_string(),
        canonical_name: name.to_string(),
        aliases: vec![name.to_string()],
        chunk_ids: Vec::new(),
    }
}

fn graph(ids: &[&str]) -> PropositionGraph {
    PropositionGraph {
        entities: ids.iter().map(|id| entity(id, id)).collect(),
        knowledge_points: Vec::new(),
        relations: Vec::new(),
    }
}

fn verified(left: &str, right: &str, decision: EntityMatchDecision) -> VerifiedEntityPair {
    VerifiedEntityPair {
        entity_id: left.to_string(),
        candidate_entity_id: right.to_string(),
        decision,
    }
}

#[test]
fn plans_a_simple_merge_and_keeps_the_earliest_graph_entity() {
    let graph = graph(&["co2-symbol", "carbon-dioxide"]);
    let plan = build_entity_merge_plan(
        &graph,
        &[verified(
            "carbon-dioxide",
            "co2-symbol",
            EntityMatchDecision::SameEntity,
        )],
    )
    .expect("valid same-entity pair should produce a plan");

    assert_eq!(
        plan,
        EntityMergePlan {
            merges: vec![EntityMerge {
                canonical_entity_id: String::from("co2-symbol"),
                merged_entity_ids: vec![String::from("carbon-dioxide")],
            }]
        }
    );
}

#[test]
fn different_and_uncertain_decisions_do_not_create_merges() {
    let graph = graph(&["co2", "carbon-fixation", "co2-concentration"]);
    let plan = build_entity_merge_plan(
        &graph,
        &[
            verified(
                "co2",
                "carbon-fixation",
                EntityMatchDecision::DifferentEntity,
            ),
            verified("co2", "co2-concentration", EntityMatchDecision::Uncertain),
        ],
    )
    .expect("non-merge decisions are valid planner input");

    assert!(plan.merges.is_empty());
}

#[test]
fn combines_transitive_matches_into_one_graph_ordered_group() {
    let graph = graph(&["co2-symbol", "co2", "carbon-dioxide", "oxygen"]);
    let plan = build_entity_merge_plan(
        &graph,
        &[
            verified("co2", "carbon-dioxide", EntityMatchDecision::SameEntity),
            verified("co2-symbol", "co2", EntityMatchDecision::SameEntity),
        ],
    )
    .expect("transitive pairs should produce one group");

    assert_eq!(
        plan.merges,
        vec![EntityMerge {
            canonical_entity_id: String::from("co2-symbol"),
            merged_entity_ids: vec![String::from("co2"), String::from("carbon-dioxide")],
        }]
    );
}

#[test]
fn plan_is_independent_of_verified_pair_order_and_direction() {
    let graph = graph(&["a", "b", "c", "d"]);
    let first = vec![
        verified("b", "c", EntityMatchDecision::SameEntity),
        verified("d", "a", EntityMatchDecision::SameEntity),
    ];
    let second = vec![
        verified("a", "d", EntityMatchDecision::SameEntity),
        verified("c", "b", EntityMatchDecision::SameEntity),
    ];

    let first_plan = build_entity_merge_plan(&graph, &first).expect("first plan should work");
    let second_plan =
        build_entity_merge_plan(&graph, &second).expect("second plan should work");

    assert_eq!(first_plan, second_plan);
    assert_eq!(
        first_plan.merges,
        vec![
            EntityMerge {
                canonical_entity_id: String::from("a"),
                merged_entity_ids: vec![String::from("d")],
            },
            EntityMerge {
                canonical_entity_id: String::from("b"),
                merged_entity_ids: vec![String::from("c")],
            }
        ]
    );
}

#[test]
fn duplicate_and_reverse_confirmations_are_idempotent() {
    let graph = graph(&["a", "b"]);
    let plan = build_entity_merge_plan(
        &graph,
        &[
            verified("a", "b", EntityMatchDecision::SameEntity),
            verified("b", "a", EntityMatchDecision::SameEntity),
            verified("a", "b", EntityMatchDecision::SameEntity),
        ],
    )
    .expect("duplicate confirmations should not duplicate members");

    assert_eq!(plan.merges.len(), 1);
    assert_eq!(plan.merges[0].merged_entity_ids, vec!["b"]);
}

#[test]
fn rejects_unknown_ids_self_pairs_and_duplicate_graph_ids() {
    let valid_graph = graph(&["a", "b"]);
    assert!(matches!(
        build_entity_merge_plan(
            &valid_graph,
            &[verified("a", "missing", EntityMatchDecision::SameEntity)]
        ),
        Err(MergePlanningError::UnknownEntityId { entity_id }) if entity_id == "missing"
    ));
    assert!(matches!(
        build_entity_merge_plan(
            &valid_graph,
            &[verified("a", "a", EntityMatchDecision::SameEntity)]
        ),
        Err(MergePlanningError::SelfPair { entity_id }) if entity_id == "a"
    ));

    let duplicate_graph = graph(&["a", "a"]);
    assert!(matches!(
        build_entity_merge_plan(&duplicate_graph, &[]),
        Err(MergePlanningError::DuplicateGraphEntityId { entity_id }) if entity_id == "a"
    ));
}

#[test]
fn rejects_conflicting_decisions_for_the_same_pair() {
    let graph = graph(&["a", "b"]);
    let error = build_entity_merge_plan(
        &graph,
        &[
            verified("a", "b", EntityMatchDecision::SameEntity),
            verified("b", "a", EntityMatchDecision::DifferentEntity),
        ],
    )
    .expect_err("contradictory evidence must not authorize a merge");

    assert!(matches!(
        error,
        MergePlanningError::ConflictingPairDecisions {
            left_id,
            right_id,
            first: EntityMatchDecision::SameEntity,
            second: EntityMatchDecision::DifferentEntity,
        } if left_id == "a" && right_id == "b"
    ));
}

#[test]
fn empty_verification_results_produce_an_empty_plan() {
    let plan =
        build_entity_merge_plan(&graph(&["a"]), &[]).expect("an empty verified batch is valid");

    assert!(plan.merges.is_empty());
}

#[test]
fn planned_merges_are_accepted_by_the_rewriter() {
    let graph = graph(&["a", "b", "c", "d", "e"]);
    let plan = build_entity_merge_plan(
        &graph,
        &[
            verified("e", "c", EntityMatchDecision::SameEntity),
            verified("b", "e", EntityMatchDecision::SameEntity),
            verified("d", "a", EntityMatchDecision::SameEntity),
            verified("a", "c", EntityMatchDecision::DifferentEntity),
        ],
    )
    .expect("valid pairs should produce a plan");
    assert_eq!(plan.merges.len(), 2);

    let rewritten = rewrite_graph_with_entity_merges(&graph, &plan)
        .expect("a planned merge set is always a valid rewrite plan");
    let ids: Vec<&str> = rewritten.entities.iter().map(|e| e.id.as_str()).collect();
    assert_eq!(ids, vec!["a", "b"]);
}

#[test]
fn planning_errors_describe_the_offending_input() {
    let error = MergePlanningError::ConflictingPairDecisions {
        left_id: String::from("a"),
        right_id: String::from("b"),
        first: EntityMatchDecision::SameEntity,
        second: EntityMatchDecision::Uncertain,
    };
    assert_eq!(
        error.to_string(),
        "Verified pair 'a' and 'b' has conflicting decisions SameEntity and Uncertain"
    );
    assert_eq!(
        MergePlanningError::SelfPair { entity_id: String::from("x") }.to_string(),
        "Verified merge candidate compares entity 'x' with itself"
    );
    assert_eq!(
        MergePlanningError::DuplicateGraphEntityId { entity_id: String::from("x") }.to_string(),
        "Merge graph contains duplicate entity ID 'x'"
    );
    assert_eq!(
        MergePlanningError::UnknownEntityId { entity_id: String::from("x") }.to_string(),
        "Verified merge candidate references unknown entity ID 'x'"
    );
}

#[test]
fn a_reordered_swapped_batch_fails_exactly_when_the_original_does() {
    let graph = graph(&["a", "b", "c"]);
    let batch = vec![
        verified("a", "b", EntityMatchDecision::SameEntity),
        verified("c", "b", EntityMatchDecision::DifferentEntity),
        verified("b", "a", EntityMatchDecision::DifferentEntity),
    ];
    let mut reordered: Vec<VerifiedEntityPair> = batch
        .iter()
        .map(|p| verified(&p.candidate_entity_id, &p.entity_id, p.decision))
        .collect();
    reordered.reverse();
    assert!(build_entity_merge_plan(&graph, &batch).is_err());
    assert!(build_entity_merge_plan(&graph, &reordered).is_err());

    let consistent = vec![
        verified("c", "b", EntityMatchDecision::SameEntity),
        verified("a", "c", EntityMatchDecision::DifferentEntity),
    ];
    let mut swapped: Vec<VerifiedEntityPair> = consistent
        .iter()
        .map(|p| verified(&p.candidate_entity_id, &p.entity_id, p.decision))
        .collect();
    swapped.reverse();
    let plan = build_entity_merge_plan(&graph, &consistent).expect("consistent batch");
    assert_eq!(build_entity_merge_plan(&graph, &swapped), Ok(plan.clone()));
    assert_eq!(
        plan,
        EntityMergePlan {
            merges: vec![EntityMerge {
                canonical_entity_id: String::from("b"),
                merged_entity_ids: vec![String::from("c")],
            }]
        }
    );
}
