//! The decisions of the graph generation pipeline around its provider
//! calls: how many requests may run at once, how each Stage A chunk and
//! Stage B bundle outcome is recorded, and how the ordered outcomes are
//! summarized, consolidated, and validated.
//!
//! Reading notes, chunking, and the concurrent provider requests happen at
//! the edge of the program; it hands the outcomes here in source order.
use vstd::prelude::*;

use crate::graph::consolidator::{chunk_views, consolidate, consolidated, graph_violations, validate_graph};
use crate::graph::stage_a_schema::{
    decode_checker, first_failure, hydrated, member_items, parse_stage_a_output, stage_a_problem,
    validation_error_text,
};
use crate::graph::stage_b_schema::GeneratedMCQ;
use crate::json::{parsed_json, JsonValue};
use crate::llm::error::LlmServiceError;
use crate::graph::types::{
    copy_strings, ExtractedKnowledge, ExtractedKnowledgeView, GraphContextBundle, KnowledgePointView,
    KnowledgeType, PropositionGraph,
};
use crate::text::{chars_of, push_decimal, str_eq, string_of_chars, strs};

verus! {

/// System prompt of graph Stage A.
pub const GRAPH_STAGE_A_SYSTEM_PROMPT: &'static str = "You are a knowledge graph extraction specialist. Output only valid JSON.";

/// Default number of Stage A requests in flight.
pub const DEFAULT_STAGE_A_CONCURRENCY: usize = 10;

/// Maximum number of independent question-generation requests sent at once.
pub const DEFAULT_STAGE_B_CONCURRENCY: usize = 10;

/// Characters of chunk content kept in a preview.
pub const CONTENT_PREVIEW_CHARS: usize = 200;

/// Status of a request that produced a result.
pub const SUCCESS_STATUS: &'static str = "success";

/// Status of a request the provider failed.
pub const LLM_ERROR_STATUS: &'static str = "llm_error";

// =====================================================================
// Stage A attempts
// =====================================================================
/// Why a Stage A reply is rejected, as the message of the invalid-output
/// error the retry loop sees; `None` when it is accepted.
pub open spec fn stage_a_rejection(value: JsonValue) -> Option<Seq<char>> {
    match stage_a_problem(value) {
        Some(e) => Some("LLM JSON validation failed: "@ + validation_error_text(e)),
        None => match first_failure(member_items(value, "knowledge_points"@), decode_checker()) {
            Some(m) => Some("Invalid LLM JSON payload: "@ + m),
            None => None,
        },
    }
}

/// Checks one Stage A reply inside the retry loop: the hydrated extraction,
/// or the rejection as an invalid-output error that the loop may retry.
/// Text that is not one JSON document is an invalid payload whose message
/// ends with serde_json's.
pub fn stage_a_attempt(json_payload: &str, chunk_id: String) -> (r: Result<ExtractedKnowledge, LlmServiceError>)
    ensures
        match parsed_json(json_payload@) {
            None => r matches Err(LlmServiceError::InvalidOutput(d)) && "Invalid LLM JSON payload: "@.is_prefix_of(
                d@,
            ),
            Some(value) => match r {
                Ok(k) => stage_a_rejection(value) is None && k@ == hydrated(value, chunk_id@),
                Err(e) => stage_a_rejection(value) matches Some(m) && (e matches LlmServiceError::InvalidOutput(
                    d,
                ) && d@ == m),
            },
        },
{
    match parse_stage_a_output(json_payload, chunk_id) {
        Ok(k) => Ok(k),
        Err(error) => {
            let message = error.to_string();
            proof {
                if error is Parse {
                    assert("Invalid LLM JSON payload: "@.is_prefix_of(message@)) by {
                        assert(message@.take(26) =~= "Invalid LLM JSON payload: "@) by {
                            reveal_strlit("Invalid LLM JSON payload: ");
                        }
                    }
                }
            }
            Err(LlmServiceError::InvalidOutput(message))
        },
    }
}

// =====================================================================
// Result types
// =====================================================================
/// Summary of one extracted knowledge point.
#[derive(Debug, Clone)]
pub struct GraphPointSummary {
    pub point: String,
    pub knowledge_type: String,
    pub raw_entity_names: Vec<String>,
    pub relation_count: usize,
}

/// Outcome of Stage A for one chunk.
#[derive(Debug)]
pub struct GraphStageAChunkResult {
    pub chunk_index: usize,
    pub heading: String,
    pub content_preview: String,
    pub status: String,
    pub raw_llm_response: Option<String>,
    pub attempts: Option<usize>,
    pub entity_count: Option<usize>,
    pub point_count: Option<usize>,
    pub relation_count: Option<usize>,
    pub entities: Option<Vec<String>>,
    pub knowledge_points: Option<Vec<GraphPointSummary>>,
    pub extracted: Option<ExtractedKnowledge>,
    pub error: Option<String>,
}

/// Outcome of Stage A for a note.
#[derive(Debug)]
pub struct GraphStageAResult {
    pub note_path: String,
    pub note_title: String,
    pub total_chunks: usize,
    pub successful_chunks: usize,
    pub failed_chunks: usize,
    pub chunks: Vec<GraphStageAChunkResult>,
    pub graph: PropositionGraph,
    pub validation_violations: Vec<String>,
}

/// Outcome of Stage B for one bundle.
#[derive(Debug)]
pub struct GraphStageBItemResult {
    pub bundle_index: usize,
    pub bundle: GraphContextBundle,
    pub status: String,
    pub mcq: Option<GeneratedMCQ>,
    pub error: Option<String>,
}

/// Outcome of Stage B for a graph.
#[derive(Debug)]
pub struct GraphStageBResult {
    pub total_bundles: usize,
    pub successful_mcqs: usize,
    pub failed_mcqs: usize,
    pub items: Vec<GraphStageBItemResult>,
}

/// A graph pipeline failure.
#[derive(Debug)]
pub enum GraphPipelineError {
    /// Reading the note failed; holds the I/O error's text.
    Io(String),
    InvalidStageAConcurrency { value: usize },
    InvalidStageBConcurrency { value: usize },
    StageAWorkerJoin { message: String },
    StageBWorkerJoin { message: String },
}

/// Observable milestones of the Stage A extraction pass.
#[derive(Debug, Clone, PartialEq, Eq)]
pub enum GraphStageAProgress {
    ChunksPrepared { total_chunks: usize, max_concurrency: usize },
    ChunkStarted { chunk_number: usize, total_chunks: usize, heading: String },
    ChunkCompleted {
        chunk_number: usize,
        total_chunks: usize,
        heading: String,
        status: String,
        attempts: Option<usize>,
        elapsed_ms: u128,
    },
    Consolidating { successful_chunks: usize, failed_chunks: usize },
}

/// Observable milestones of question generation.
#[derive(Debug, Clone, PartialEq, Eq)]
pub enum GraphStageBProgress {
    BundlesPrepared { total_bundles: usize, max_concurrency: usize },
    BundleCompleted {
        bundle_number: usize,
        total_bundles: usize,
        status: String,
        in_flight_requests: usize,
        elapsed_ms: u128,
    },
}

// =====================================================================
// Concurrency
// =====================================================================
/// Requests in flight for `total` jobs under the limit `max`: the limit,
/// but never more than the jobs (and at least one).
pub open spec fn effective_limit(max: usize, total: usize) -> usize {
    let jobs: usize = if total > 1 {
        total
    } else {
        1
    };
    if max < jobs {
        max
    } else {
        jobs
    }
}

/// The Stage A concurrency to report; a zero limit is refused.
pub fn stage_a_concurrency(max_concurrency: usize, total_chunks: usize) -> (r: Result<usize, GraphPipelineError>)
    ensures
        match r {
            Ok(n) => max_concurrency > 0 && n == effective_limit(max_concurrency, total_chunks),
            Err(e) => max_concurrency == 0 && (e matches GraphPipelineError::InvalidStageAConcurrency { value }
                && value == 0),
        },
{
    if max_concurrency == 0 {
        return Err(GraphPipelineError::InvalidStageAConcurrency { value: max_concurrency });
    }
    let jobs: usize = if total_chunks > 1 {
        total_chunks
    } else {
        1
    };
    Ok(
        if max_concurrency < jobs {
            max_concurrency
        } else {
            jobs
        },
    )
}

/// The Stage B concurrency to report; a zero limit is refused.
pub fn stage_b_concurrency(max_concurrency: usize, total_bundles: usize) -> (r: Result<usize, GraphPipelineError>)
    ensures
        match r {
            Ok(n) => max_concurrency > 0 && n == effective_limit(max_concurrency, total_bundles),
            Err(e) => max_concurrency == 0 && (e matches GraphPipelineError::InvalidStageBConcurrency { value }
                && value == 0),
        },
{
    if max_concurrency == 0 {
        return Err(GraphPipelineError::InvalidStageBConcurrency { value: max_concurrency });
    }
    let jobs: usize = if total_bundles > 1 {
        total_bundles
    } else {
        1
    };
    Ok(
        if max_concurrency < jobs {
            max_concurrency
        } else {
            jobs
        },
    )
}

// =====================================================================
// Stage A chunk outcomes
// =====================================================================
/// The first `max` characters of `s` followed by `...` when it is longer.
pub open spec fn truncated(s: Seq<char>, max: nat) -> Seq<char> {
    if s.len() <= max {
        s
    } else {
        s.take(max as int) + "..."@
    }
}

/// Shortens text to a preview of at most `max_chars` characters plus `...`.
pub fn truncate(s: &str, max_chars: usize) -> (r: String)
    ensures
        r@ == truncated(s@, max_chars as nat),
{
    let chars = chars_of(s);
    if chars.len() <= max_chars {
        return string_of_chars(&chars);
    }
    let mut kept: Vec<char> = Vec::new();
    for i in 0..max_chars
        invariant
            max_chars < chars@.len(),
            kept@ == chars@.take(i as int),
    {
        kept.push(chars[i]);
        assert(kept@ =~= chars@.take(i + 1));
    }
    let mut out = string_of_chars(&kept);
    out.append("...");
    out
}

/// The debug name of a knowledge type.
pub open spec fn knowledge_type_name(k: KnowledgeType) -> Seq<char> {
    match k {
        KnowledgeType::Definition => "Definition"@,
        KnowledgeType::Fact => "Fact"@,
        KnowledgeType::Procedural => "Procedural"@,
        KnowledgeType::Conceptual => "Conceptual"@,
    }
}

fn knowledge_type_label(k: KnowledgeType) -> (r: String)
    ensures
        r@ == knowledge_type_name(k),
{
    match k {
        KnowledgeType::Definition => String::from_str("Definition"),
        KnowledgeType::Fact => String::from_str("Fact"),
        KnowledgeType::Procedural => String::from_str("Procedural"),
        KnowledgeType::Conceptual => String::from_str("Conceptual"),
    }
}

/// The summary describes the knowledge point.
pub open spec fn summarizes(s: GraphPointSummary, kp: KnowledgePointView) -> bool {
    &&& s.point@ == kp.point
    &&& s.knowledge_type@ == knowledge_type_name(kp.knowledge_type)
    &&& strs(s.raw_entity_names@) == kp.raw_entity_names
    &&& s.relation_count == kp.raw_relations.len()
}

/// One summary per knowledge point of a chunk, in order.
pub fn summarize_points(extracted: &ExtractedKnowledge) -> (r: Vec<GraphPointSummary>)
    ensures
        r@.len() == extracted@.knowledge_points.len(),
        forall|i: int| 0 <= i < r@.len() ==> summarizes(#[trigger] r@[i], extracted@.knowledge_points[i]),
{
    let mut out: Vec<GraphPointSummary> = Vec::new();
    for i in 0..extracted.knowledge_points.len()
        invariant
            out@.len() == i,
            extracted@.knowledge_points.len() == extracted.knowledge_points@.len(),
            forall|k: int| 0 <= k < i ==> summarizes(#[trigger] out@[k], extracted@.knowledge_points[k]),
    {
        let kp = &extracted.knowledge_points[i];
        assert(extracted@.knowledge_points[i as int] == kp@);
        out.push(
            GraphPointSummary {
                point: kp.point.clone(),
                knowledge_type: knowledge_type_label(kp.knowledge_type),
                raw_entity_names: copy_strings(&kp.raw_entity_names),
                relation_count: kp.raw_relations.len(),
            },
        );
    }
    out
}

/// The number of relations the knowledge points state.
pub open spec fn total_relations(ps: Seq<KnowledgePointView>) -> nat
    decreases ps.len(),
{
    if ps.len() == 0 {
        0
    } else {
        total_relations(ps.drop_last()) + ps.last().raw_relations.len()
    }
}

/// The number of relations a chunk's knowledge points state.
pub fn relation_count(extracted: &ExtractedKnowledge) -> (r: usize)
    requires
        total_relations(extracted@.knowledge_points) <= usize::MAX,
    ensures
        r == total_relations(extracted@.knowledge_points),
{
    let ghost ps = extracted@.knowledge_points;
    let mut total: usize = 0;
    for i in 0..extracted.knowledge_points.len()
        invariant
            ps == extracted@.knowledge_points,
            ps.len() == extracted.knowledge_points@.len(),
            total_relations(ps) <= usize::MAX,
            total == total_relations(ps.take(i as int)),
    {
        assert(ps.take(i + 1).drop_last() =~= ps.take(i as int));
        assert(ps[i as int] == extracted.knowledge_points@[i as int]@);
        proof {
            lemma_total_relations_prefix(ps, i + 1);
        }
        total = total + extracted.knowledge_points[i].raw_relations.len();
    }
    assert(ps.take(ps.len() as int) =~= ps);
    total
}

proof fn lemma_total_relations_prefix(ps: Seq<KnowledgePointView>, k: int)
    requires
        0 <= k <= ps.len(),
    ensures
        total_relations(ps.take(k)) <= total_relations(ps),
    decreases ps.len() - k,
{
    if k < ps.len() {
        assert(ps.take(k + 1).drop_last() =~= ps.take(k));
        lemma_total_relations_prefix(ps, k + 1);
    } else {
        assert(ps.take(k) =~= ps);
    }
}

/// A provider-free Stage A outcome: the chunk's extraction, the raw reply
/// and the attempts used, or the error text.
pub open spec fn chunk_record_ok(
    r: GraphStageAChunkResult,
    chunk_index: usize,
    heading: Seq<char>,
    content: Seq<char>,
) -> bool {
    &&& r.chunk_index == chunk_index
    &&& r.heading@ == heading
    &&& r.content_preview@ == truncated(content, CONTENT_PREVIEW_CHARS as nat)
}

/// Records the Stage A outcome of one chunk.
pub fn stage_a_chunk_result(
    chunk_index: usize,
    heading: String,
    content: &str,
    outcome: Result<(ExtractedKnowledge, String, usize), String>,
) -> (r: GraphStageAChunkResult)
    requires
        outcome matches Ok((x, _, _)) ==> total_relations(x@.knowledge_points) <= usize::MAX,
    ensures
        chunk_record_ok(r, chunk_index, heading@, content@),
        match outcome {
            Ok((x, raw, attempts)) => {
                &&& r.status@ == SUCCESS_STATUS@
                &&& r.raw_llm_response == Some(raw)
                &&& r.attempts == Some(attempts)
                &&& r.entity_count == Some(x.raw_entities@.len() as usize)
                &&& r.point_count == Some(x.knowledge_points@.len() as usize)
                &&& r.relation_count == Some(total_relations(x@.knowledge_points) as usize)
                &&& r.entities matches Some(names) && strs(names@) == x@.raw_entities.map_values(
                    |m: crate::graph::types::RawEntityMentionView| m.name,
                )
                &&& r.knowledge_points matches Some(ps) && ps@.len() == x@.knowledge_points.len() && (forall|i: int|
                    0 <= i < ps@.len() ==> summarizes(#[trigger] ps@[i], x@.knowledge_points[i]))
                &&& r.extracted matches Some(e) && e@ == x@
                &&& r.error is None
            },
            Err(message) => {
                &&& r.status@ == LLM_ERROR_STATUS@
                &&& r.raw_llm_response is None
                &&& r.attempts is None
                &&& r.entity_count is None
                &&& r.point_count is None
                &&& r.relation_count is None
                &&& r.entities is None
                &&& r.knowledge_points is None
                &&& r.extracted is None
                &&& r.error == Some(message)
            },
        },
{
    let content_preview = truncate(content, CONTENT_PREVIEW_CHARS);
    match outcome {
        Ok((extracted, raw_json, attempts)) => {
            let mut names: Vec<String> = Vec::new();
            for i in 0..extracted.raw_entities.len()
                invariant
                    names@.len() == i,
                    forall|k: int| 0 <= k < i ==> #[trigger] names@[k]@ == extracted.raw_entities@[k].name@,
            {
                names.push(extracted.raw_entities[i].name.clone());
            }
            assert(strs(names@) =~= extracted@.raw_entities.map_values(
                |m: crate::graph::types::RawEntityMentionView| m.name,
            ));
            let entity_count = extracted.raw_entities.len();
            let point_count = extracted.knowledge_points.len();
            let relations = relation_count(&extracted);
            let summaries = summarize_points(&extracted);
            GraphStageAChunkResult {
                chunk_index,
                heading,
                content_preview,
                status: String::from_str(SUCCESS_STATUS),
                raw_llm_response: Some(raw_json),
                attempts: Some(attempts),
                entity_count: Some(entity_count),
                point_count: Some(point_count),
                relation_count: Some(relations),
                entities: Some(names),
                knowledge_points: Some(summaries),
                extracted: Some(extracted),
                error: None,
            }
        },
        Err(message) => GraphStageAChunkResult {
            chunk_index,
            heading,
            content_preview,
            status: String::from_str(LLM_ERROR_STATUS),
            raw_llm_response: None,
            attempts: None,
            entity_count: None,
            point_count: None,
            relation_count: None,
            entities: None,
            knowledge_points: None,
            extracted: None,
            error: Some(message),
        },
    }
}

// =====================================================================
// Stage A note outcome
// =====================================================================
/// The number of chunk outcomes with the success status.
pub open spec fn successes_a(cs: Seq<GraphStageAChunkResult>) -> nat
    decreases cs.len(),
{
    if cs.len() == 0 {
        0
    } else {
        successes_a(cs.drop_last()) + if cs.last().status@ == SUCCESS_STATUS@ {
            1nat
        } else {
            0nat
        }
    }
}

/// The extractions of the chunk outcomes that have one, in chunk order.
pub open spec fn extractions(cs: Seq<GraphStageAChunkResult>) -> Seq<ExtractedKnowledgeView>
    decreases cs.len(),
{
    if cs.len() == 0 {
        Seq::empty()
    } else {
        extractions(cs.drop_last()) + match cs.last().extracted {
            Some(x) => seq![x@],
            None => Seq::empty(),
        }
    }
}

proof fn lemma_successes_bound(cs: Seq<GraphStageAChunkResult>)
    ensures
        successes_a(cs) <= cs.len(),
    decreases cs.len(),
{
    if cs.len() > 0 {
        lemma_successes_bound(cs.drop_last());
    }
}

/// Summarizes the ordered chunk outcomes of a note, consolidates their
/// extractions into one graph, and validates it.
pub fn finish_graph_stage_a(
    note_path: &str,
    note_title: &str,
    chunks: Vec<GraphStageAChunkResult>,
) -> (r: GraphStageAResult)
    ensures
        r.note_path@ == note_path@,
        r.note_title@ == note_title@,
        r.total_chunks == chunks@.len(),
        r.successful_chunks == successes_a(chunks@),
        r.failed_chunks == chunks@.len() - successes_a(chunks@),
        r.chunks@ == chunks@,
        consolidated(extractions(chunks@), r.graph@),
        strs(r.validation_violations@) == graph_violations(r.graph@),
{
    let mut successful: usize = 0;
    let mut extracted: Vec<ExtractedKnowledge> = Vec::new();
    for i in 0..chunks.len()
        invariant
            successful == successes_a(chunks@.take(i as int)),
            chunk_views(extracted@) == extractions(chunks@.take(i as int)),
            successes_a(chunks@.take(i as int)) <= i,
    {
        assert(chunks@.take(i + 1).drop_last() =~= chunks@.take(i as int));
        assert(chunks@.take(i + 1).last() == chunks@[i as int]);
        proof {
            lemma_successes_bound(chunks@.take(i + 1));
        }
        if str_eq(chunks[i].status.as_str(), SUCCESS_STATUS) {
            successful = successful + 1;
        }
        let ghost before = extracted@;
        match &chunks[i].extracted {
            Some(x) => {
                extracted.push(x.duplicate());
                assert(chunk_views(extracted@) =~= chunk_views(before).push(x@));
            },
            None => {
                assert(chunk_views(extracted@) =~= chunk_views(before));
            },
        }
    }
    assert(chunks@.take(chunks@.len() as int) =~= chunks@);
    let graph = consolidate(extracted);
    let validation_violations = validate_graph(&graph);
    let total_chunks = chunks.len();
    GraphStageAResult {
        note_path: String::from_str(note_path),
        note_title: String::from_str(note_title),
        total_chunks,
        successful_chunks: successful,
        failed_chunks: total_chunks - successful,
        chunks,
        graph,
        validation_violations,
    }
}

// =====================================================================
// Stage B outcomes
// =====================================================================
/// Records the Stage B outcome of one bundle.
pub fn stage_b_item_result(
    bundle_index: usize,
    bundle: GraphContextBundle,
    outcome: Result<GeneratedMCQ, String>,
) -> (r: GraphStageBItemResult)
    ensures
        r.bundle_index == bundle_index,
        r.bundle == bundle,
        match outcome {
            Ok(mcq) => r.status@ == SUCCESS_STATUS@ && r.mcq == Some(mcq) && r.error is None,
            Err(message) => r.status@ == LLM_ERROR_STATUS@ && r.mcq is None && r.error == Some(message),
        },
{
    match outcome {
        Ok(mcq) => GraphStageBItemResult {
            bundle_index,
            bundle,
            status: String::from_str(SUCCESS_STATUS),
            mcq: Some(mcq),
            error: None,
        },
        Err(message) => GraphStageBItemResult {
            bundle_index,
            bundle,
            status: String::from_str(LLM_ERROR_STATUS),
            mcq: None,
            error: Some(message),
        },
    }
}

/// The number of item outcomes with the success status.
pub open spec fn successes_b(items: Seq<GraphStageBItemResult>) -> nat
    decreases items.len(),
{
    if items.len() == 0 {
        0
    } else {
        successes_b(items.drop_last()) + if items.last().status@ == SUCCESS_STATUS@ {
            1nat
        } else {
            0nat
        }
    }
}

/// Summarizes the ordered bundle outcomes of Stage B.
pub fn finish_graph_stage_b(items: Vec<GraphStageBItemResult>) -> (r: GraphStageBResult)
    ensures
        r.total_bundles == items@.len(),
        r.successful_mcqs == successes_b(items@),
        r.failed_mcqs == items@.len() - successes_b(items@),
        r.items@ == items@,
{
    let mut successful: usize = 0;
    for i in 0..items.len()
        invariant
            successful == successes_b(items@.take(i as int)),
            successful <= i,
    {
        assert(items@.take(i + 1).drop_last() =~= items@.take(i as int));
        if str_eq(items[i].status.as_str(), SUCCESS_STATUS) {
            successful = successful + 1;
        }
    }
    assert(items@.take(items@.len() as int) =~= items@);
    let total_bundles = items.len();
    GraphStageBResult {
        total_bundles,
        successful_mcqs: successful,
        failed_mcqs: total_bundles - successful,
        items,
    }
}

// =====================================================================
// Error text
// =====================================================================
/// The description of a pipeline failure.
pub open spec fn pipeline_error_text(e: GraphPipelineError) -> Seq<char> {
    match e {
        GraphPipelineError::Io(detail) => "Graph pipeline I/O failed: "@ + detail@,
        GraphPipelineError::InvalidStageAConcurrency { value } => "Graph Stage A max concurrency must be greater than zero; received "@
            + crate::text::decimal(value as nat),
        GraphPipelineError::InvalidStageBConcurrency { value } => "Graph Stage B max concurrency must be greater than zero; received "@
            + crate::text::decimal(value as nat),
        GraphPipelineError::StageAWorkerJoin { message } => "Graph Stage A worker failed: "@ + message@,
        GraphPipelineError::StageBWorkerJoin { message } => "Graph Stage B worker failed: "@ + message@,
    }
}

impl GraphPipelineError {
    /// The description of the failure.
    pub fn to_string(&self) -> (r: String)
        ensures
            r@ == pipeline_error_text(*self),
    {
        match self {
            GraphPipelineError::Io(detail) => {
                let mut out = String::from_str("Graph pipeline I/O failed: ");
                out.append(detail.as_str());
                out
            },
            GraphPipelineError::InvalidStageAConcurrency { value } => {
                let mut out = String::from_str("Graph Stage A max concurrency must be greater than zero; received ");
                push_decimal(&mut out, *value as u64);
                out
            },
            GraphPipelineError::InvalidStageBConcurrency { value } => {
                let mut out = String::from_str("Graph Stage B max concurrency must be greater than zero; received ");
                push_decimal(&mut out, *value as u64);
                out
            },
            GraphPipelineError::StageAWorkerJoin { message } => {
                let mut out = String::from_str("Graph Stage A worker failed: ");
                out.append(message.as_str());
                out
            },
            GraphPipelineError::StageBWorkerJoin { message } => {
                let mut out = String::from_str("Graph Stage B worker failed: ");
                out.append(message.as_str());
                out
            },
        }
    }
}

} // verus!
