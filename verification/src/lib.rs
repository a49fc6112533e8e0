//! Verified core of an active-recall study assistant: knowledge-graph
//! consolidation, entity resolution, prompt rendering, output validation,
//! LLM failure classification, and study-plan decisions.
pub mod graph;
pub mod json;
pub mod learning_items;
pub mod llm;
pub mod scheduler;
pub mod study_plan;
pub mod text;
pub mod user_profile;
