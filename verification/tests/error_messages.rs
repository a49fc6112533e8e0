use arka::graph::entity_resolution::graph_rewriter::GraphRewriteError;
use arka::graph::entity_resolution::merge_planner::MergePlanningError;
use arka::graph::entity_resolution::pipeline::EntityResolutionPipelineError;
use arka::graph::entity_resolution::semantic_verifier::EntityVerificationError;
use arka::graph::pipeline::stage_a_attempt;
use arka::graph::stage_a_schema::{GraphStageAError, GraphStageAValidationError};
use arka::llm::error::LlmServiceError;
use arka::llm::select_ollama_models;

#[test]
fn stage_a_validation_messages_name_the_position_and_value() {
    let error = GraphStageAValidationError::InvalidRelationType {
        point_index: 3,
        relation_index: 12,
        value: String::from("causes"),
    };
    assert_eq!(
        error.to_string(),
        "relation_type at point 3, relation 12 has invalid value 'causes' (expected: related_to, contrasts, prerequisite, consequence, example, counter_example)"
    );
    assert_eq!(
        GraphStageAValidationError::MissingField { field: "knowledge_points" }.to_string(),
        "Required field 'knowledge_points' is missing"
    );
    let wrapped = GraphStageAError::Validation(GraphStageAValidationError::EmptyPoint { index: 0 });
    assert_eq!(
        wrapped.to_string(),
        "LLM JSON validation failed: knowledge_point at index 0 must be non-empty"
    );
    assert_eq!(
        GraphStageAError::Parse(String::from("expected value")).to_string(),
        "Invalid LLM JSON payload: expected value"
    );
}

#[test]
fn rejected_stage_a_replies_become_retryable_invalid_output() {
    match stage_a_attempt("[]", String::from("chunk-0")) {
        Err(LlmServiceError::InvalidOutput(message)) => assert_eq!(
            message,
            "LLM JSON validation failed: Root element must be a JSON object"
        ),
        other => panic!("unexpected outcome: {other:?}"),
    }
    match stage_a_attempt("{\"entities\": [", String::from("chunk-0")) {
        Err(LlmServiceError::InvalidOutput(message)) => {
            assert!(message.starts_with("Invalid LLM JSON payload: "));
            assert!(message.len() > "Invalid LLM JSON payload: ".len());
        }
        other => panic!("unexpected outcome: {other:?}"),
    }
}

#[test]
fn rewrite_errors_name_the_offending_ids() {
    let error = GraphRewriteError::UnknownRelationEntityId {
        relation_index: 4,
        endpoint: "target",
        entity_id: String::from("ghost"),
    };
    assert_eq!(
        error.to_string(),
        "Relation 4 target references unknown entity ID 'ghost'"
    );
    let error = GraphRewriteError::CanonicalEntityIsNotEarliest {
        canonical_entity_id: String::from("b"),
        earliest_entity_id: String::from("a"),
    };
    assert_eq!(
        error.to_string(),
        "Canonical entity 'b' is not the earliest graph member; expected 'a'"
    );
}

#[test]
fn verification_and_pipeline_errors_wrap_their_source() {
    let error = EntityVerificationError::InvalidMaxConcurrency { value: 0 };
    assert_eq!(
        error.to_string(),
        "Verifier max_concurrency must be greater than zero; received 0"
    );
    let stage = EntityResolutionPipelineError::Verification(EntityVerificationError::SelfCandidate {
        entity_id: String::from("co2"),
    });
    assert_eq!(
        stage.to_string(),
        "Entity verification failed: Verifier candidate compares entity 'co2' with itself"
    );
    let stage = EntityResolutionPipelineError::MergePlanning(MergePlanningError::UnknownEntityId {
        entity_id: String::from("x"),
    });
    assert_eq!(
        stage.to_string(),
        "Entity merge planning failed: Verified merge candidate references unknown entity ID 'x'"
    );
}

fn names(items: &[&str]) -> Vec<String> {
    items.iter().map(|s| s.to_string()).collect()
}

#[test]
fn lists_every_installed_model_sorted_case_insensitively() {
    let installed = names(&[" llama3:8b ", "Mistral", "", "llama3:70b", "LLAMA3:8b"]);
    let models = select_ollama_models(&installed, None).expect("no filter always succeeds");
    assert_eq!(models, names(&["llama3:70b", "llama3:8b", "LLAMA3:8b", "Mistral"]));
    let blank = select_ollama_models(&installed, Some("   ")).expect("a blank filter is no filter");
    assert_eq!(blank, models);
}

#[test]
fn filters_models_by_the_requested_name() {
    let installed = names(&["llama3:8b", "mistral", "llama3:8b-instruct", "llama3:8b"]);
    let models = select_ollama_models(&installed, Some(" LLAMA3:8B ")).expect("an exact match exists");
    assert_eq!(models, names(&["llama3:8b", "llama3:8b-instruct"]));
}

#[test]
fn reports_a_requested_model_that_is_not_installed() {
    let installed = names(&["llama3:8b-instruct"]);
    match select_ollama_models(&installed, Some("llama3:8b")) {
        Err(LlmServiceError::ModelNotFound { model }) => assert_eq!(model, "llama3:8b"),
        other => panic!("unexpected outcome: {other:?}"),
    }
}
