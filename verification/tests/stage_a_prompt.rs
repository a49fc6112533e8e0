use arka::graph::stage_a_prompt::format_stage_a_graph_user_prompt;

#[test]
fn test_prompt_states_entity_consistency_rule() {
    let prompt = format_stage_a_graph_user_prompt("Sample chunk", "Context about other chunks");

    // Verify the prompt explicitly states the entity consistency rule
    assert!(
        prompt.contains("must also appear in the top-level `entities` array")
            || prompt.contains("must also appear in the `entities`"),
        "Prompt must state that entities must be declared in the entities list"
    );
}

#[test]
fn test_prompt_contains_closed_guest_list_concept() {
    let prompt = format_stage_a_graph_user_prompt("Sample chunk", "Context");

    // Verify the concept of a "guest list" or similar is explained
    assert!(
        prompt.contains("guest list")
            || prompt.contains("closed list")
            || prompt.contains("declare"),
        "Prompt should explain the closed guest list concept"
    );
}

#[test]
fn test_prompt_warns_about_undeclared_entities_mistake() {
    let prompt = format_stage_a_graph_user_prompt("Sample chunk", "Context");

    // Verify the specific failure mode is warned about
    assert!(
        prompt.contains("Common Mistake")
            || prompt.contains("common mistake")
            || prompt.contains("WRONG") && prompt.contains("thylakoid"),
        "Prompt should explicitly warn about undeclared entity mistake"
    );
}

#[test]
fn test_prompt_includes_all_four_knowledge_types() {
    let prompt = format_stage_a_graph_user_prompt("Sample chunk", "Context");

    // Verify all four knowledge types are described
    assert!(
        prompt.contains("Definition"),
        "Prompt should describe Definition type"
    );
    assert!(prompt.contains("Fact"), "Prompt should describe Fact type");
    assert!(
        prompt.contains("Procedural"),
        "Prompt should describe Procedural type"
    );
    assert!(
        prompt.contains("Conceptual"),
        "Prompt should describe Conceptual type"
    );
}

#[test]
fn test_prompt_includes_all_six_relation_types() {
    let prompt = format_stage_a_graph_user_prompt("Sample chunk", "Context");

    // Verify all six relation types are described
    assert!(
        prompt.contains("related_to"),
        "Prompt should describe related_to"
    );
    assert!(
        prompt.contains("contrasts"),
        "Prompt should describe contrasts"
    );
    assert!(
        prompt.contains("prerequisite"),
        "Prompt should describe prerequisite"
    );
    assert!(
        prompt.contains("consequence"),
        "Prompt should describe consequence"
    );
    assert!(
        prompt.contains("example"),
        "Prompt should describe example type"
    );
    assert!(
        prompt.contains("counter_example"),
        "Prompt should describe counter_example"
    );
}

#[test]
fn test_prompt_includes_example_json_shape() {
    let prompt = format_stage_a_graph_user_prompt("Sample chunk", "Context");

    // Verify the JSON structure is shown in the prompt
    assert!(
        prompt.contains("\"entities\"") && prompt.contains("\"knowledge_points\""),
        "Prompt should include example JSON structure"
    );
}

#[test]
fn test_prompt_references_chunk_markdown() {
    let chunk = "This is a test chunk about photosynthesis";
    let prompt = format_stage_a_graph_user_prompt(chunk, "Other chunks");

    // Verify the chunk content is included in the prompt
    assert!(
        prompt.contains(chunk),
        "Prompt should include the chunk markdown content"
    );
}

#[test]
fn test_prompt_references_chunk_index_context() {
    let context = "Information about related chunks";
    let prompt = format_stage_a_graph_user_prompt("Chunk", context);

    // Verify the chunk context is included in the prompt
    assert!(
        prompt.contains(context),
        "Prompt should include the chunk index context"
    );
}

#[test]
fn test_prompt_front_loads_entity_enumeration() {
    let prompt = format_stage_a_graph_user_prompt("Sample chunk", "Context");

    // Verify entity enumeration is presented as Step 1 before point extraction
    let step1_pos = prompt.find("Step 1");
    let step2_pos = prompt.find("Step 2");
    let entities_mention = prompt.find("Enumerate All Entities");

    assert!(
        step1_pos.is_some() && step2_pos.is_some(),
        "Prompt should have numbered steps"
    );
    assert!(
        entities_mention.is_some(),
        "Prompt should explicitly front-load entity enumeration"
    );
    assert!(
        step1_pos.unwrap() < step2_pos.unwrap(),
        "Entity enumeration should come before knowledge point extraction"
    );
}
