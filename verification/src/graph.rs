//! Graph-based question generation.
pub mod bundle_builder;
pub mod consolidator;
pub mod entity_ids;
pub mod entity_resolution;
pub mod graph_index;
pub mod pipeline;
pub mod stage_a_prompt;
pub mod stage_a_schema;
pub mod stage_b_generation;
pub mod stage_b_prompt;
pub mod stage_b_schema;
pub mod types;
