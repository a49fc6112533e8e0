//! Semantic entity resolution: entity evidence, merge planning, and graph
//! rewriting.
pub mod candidate_generator;
pub mod context_builder;
pub mod graph_rewriter;
pub mod merge_planner;
pub mod pipeline;
pub mod semantic_verifier;
