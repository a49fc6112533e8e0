//! The local end of an entity-resolution run: once the providers have
//! embedded the entities and verified the candidate pairs, the verified
//! decisions are planned into merges, applied to the graph, indexed, and
//! counted.
use vstd::prelude::*;

use crate::graph::entity_resolution::graph_rewriter::{
    rewrite_error, rewrite_error_text, rewrite_graph_with_entity_merges, rewritten_graph,
    GraphRewriteError,
};
use crate::graph::entity_resolution::merge_planner::{
    build_entity_merge_plan, entity_merge_plan, pair_views, EntityMergePlan, EntityMergeView,
    planning_error_text, MergePlanningError, MergePlanningErrorView, VerifiedEntityPair,
    VerifiedEntityPairView,
};
use crate::graph::entity_resolution::semantic_verifier::{
    verification_error_text, EntityMatchDecision, EntityVerificationError,
};
use crate::graph::graph_index::{build_index, GraphIndex};
use crate::graph::types::PropositionGraph;

verus! {

/// Knowledge points included in each entity's evidence by default.
pub const DEFAULT_MAX_POINTS_PER_ENTITY: usize = 3;

/// Counts recorded for evaluation, tuning, and diagnostics.
#[derive(Debug, Clone, Copy, PartialEq, Eq, Structural)]
pub struct EntityResolutionMetrics {
    pub entity_count_before: usize,
    pub entity_count_after: usize,
    pub candidate_pair_count: usize,
    pub same_entity_count: usize,
    pub different_entity_count: usize,
    pub unresolved_pair_count: usize,
    pub merge_group_count: usize,
}

impl Default for EntityResolutionMetrics {
    /// All counts zero.
    fn default() -> (r: Self)
        ensures
            r.entity_count_before == 0 && r.entity_count_after == 0 && r.candidate_pair_count == 0
                && r.same_entity_count == 0 && r.different_entity_count == 0 && r.unresolved_pair_count == 0
                && r.merge_group_count == 0,
    {
        EntityResolutionMetrics {
            entity_count_before: 0,
            entity_count_after: 0,
            candidate_pair_count: 0,
            same_entity_count: 0,
            different_entity_count: 0,
            unresolved_pair_count: 0,
            merge_group_count: 0,
        }
    }
}

/// A failed stage of an entity-resolution run.
#[derive(Debug)]
pub enum EntityResolutionPipelineError {
    /// Candidate retrieval failed; holds its error text.
    CandidateGeneration(String),
    /// Embedding failed; holds its error text.
    Embedding(String),
    Verification(EntityVerificationError),
    MergePlanning(MergePlanningError),
    GraphRewrite(GraphRewriteError),
}

/// The message that describes a failed stage.
pub open spec fn pipeline_error_text(e: &EntityResolutionPipelineError) -> Seq<char> {
    match e {
        EntityResolutionPipelineError::CandidateGeneration(source) =>
            "Entity candidate generation failed: "@ + source@,
        EntityResolutionPipelineError::Embedding(source) => "Entity embedding failed: "@ + source@,
        EntityResolutionPipelineError::Verification(source) => "Entity verification failed: "@
            + verification_error_text(*source),
        EntityResolutionPipelineError::MergePlanning(source) => "Entity merge planning failed: "@
            + planning_error_text(source@),
        EntityResolutionPipelineError::GraphRewrite(source) => "Entity graph rewrite failed: "@
            + rewrite_error_text(source@),
    }
}

impl EntityResolutionPipelineError {
    /// The message that describes this failed stage.
    pub fn to_string(&self) -> (r: String)
        ensures
            r@ == pipeline_error_text(self),
    {
        match self {
            EntityResolutionPipelineError::CandidateGeneration(source) => {
                let mut out = String::from_str("Entity candidate generation failed: ");
                out.append(source.as_str());
                out
            },
            EntityResolutionPipelineError::Embedding(source) => {
                let mut out = String::from_str("Entity embedding failed: ");
                out.append(source.as_str());
                out
            },
            EntityResolutionPipelineError::Verification(source) => {
                let mut out = String::from_str("Entity verification failed: ");
                let text = source.to_string();
                out.append(text.as_str());
                out
            },
            EntityResolutionPipelineError::MergePlanning(source) => {
                let mut out = String::from_str("Entity merge planning failed: ");
                let text = source.to_string();
                out.append(text.as_str());
                out
            },
            EntityResolutionPipelineError::GraphRewrite(source) => {
                let mut out = String::from_str("Entity graph rewrite failed: ");
                let text = source.to_string();
                out.append(text.as_str());
                out
            },
        }
    }
}

/// The number of verified pairs with decision `d`.
pub open spec fn decision_count(ps: Seq<VerifiedEntityPairView>, d: EntityMatchDecision) -> nat
    decreases ps.len(),
{
    if ps.len() == 0 {
        0
    } else {
        decision_count(ps.drop_last(), d) + if ps.last().decision == d {
            1nat
        } else {
            0nat
        }
    }
}

proof fn lemma_decision_count_bound(ps: Seq<VerifiedEntityPairView>, d: EntityMatchDecision)
    ensures
        decision_count(ps, d) <= ps.len(),
    decreases ps.len(),
{
    if ps.len() > 0 {
        lemma_decision_count_bound(ps.drop_last(), d);
    }
}

/// Records the counts of a run.
pub fn build_metrics(
    source_graph: &PropositionGraph,
    rewritten_graph: &PropositionGraph,
    candidate_pair_count: usize,
    verified: &[VerifiedEntityPair],
    merge_plan: &EntityMergePlan,
) -> (r: EntityResolutionMetrics)
    ensures
        r.entity_count_before == source_graph.entities@.len(),
        r.entity_count_after == rewritten_graph.entities@.len(),
        r.candidate_pair_count == candidate_pair_count,
        r.merge_group_count == merge_plan.merges@.len(),
        r.same_entity_count == decision_count(pair_views(verified@), EntityMatchDecision::SameEntity),
        r.different_entity_count == decision_count(pair_views(verified@), EntityMatchDecision::DifferentEntity),
        r.unresolved_pair_count == decision_count(pair_views(verified@), EntityMatchDecision::Uncertain),
{
    let mut metrics = EntityResolutionMetrics {
        entity_count_before: source_graph.entities.len(),
        entity_count_after: rewritten_graph.entities.len(),
        candidate_pair_count,
        same_entity_count: 0,
        different_entity_count: 0,
        unresolved_pair_count: 0,
        merge_group_count: merge_plan.merges.len(),
    };
    let ghost pv = pair_views(verified@);
    for i in 0..verified.len()
        invariant
            pv == pair_views(verified@),
            pv.len() == verified@.len(),
            metrics.entity_count_before == source_graph.entities@.len(),
            metrics.entity_count_after == rewritten_graph.entities@.len(),
            metrics.candidate_pair_count == candidate_pair_count,
            metrics.merge_group_count == merge_plan.merges@.len(),
            metrics.same_entity_count == decision_count(pv.take(i as int), EntityMatchDecision::SameEntity),
            metrics.different_entity_count == decision_count(pv.take(i as int), EntityMatchDecision::DifferentEntity),
            metrics.unresolved_pair_count == decision_count(pv.take(i as int), EntityMatchDecision::Uncertain),
    {
        assert(pv.take(i + 1).drop_last() =~= pv.take(i as int));
        assert(pv.take(i + 1).last() == verified@[i as int]@);
        proof {
            lemma_decision_count_bound(pv.take(i as int), EntityMatchDecision::SameEntity);
            lemma_decision_count_bound(pv.take(i as int), EntityMatchDecision::DifferentEntity);
            lemma_decision_count_bound(pv.take(i as int), EntityMatchDecision::Uncertain);
        }
        match verified[i].decision {
            EntityMatchDecision::SameEntity => metrics.same_entity_count = metrics.same_entity_count + 1,
            EntityMatchDecision::DifferentEntity => metrics.different_entity_count = metrics.different_entity_count
                + 1,
            EntityMatchDecision::Uncertain => metrics.unresolved_pair_count = metrics.unresolved_pair_count + 1,
        }
    }
    assert(pv.take(pv.len() as int) =~= pv);
    metrics
}

/// The graph an entity-resolution run produces, with its index, the plan
/// that produced it, and the run's counts.
pub struct ResolvedGraph {
    pub graph: PropositionGraph,
    pub index: GraphIndex,
    pub merge_plan: EntityMergePlan,
    pub metrics: EntityResolutionMetrics,
}

/// Plans merges from the verified pairs, applies them to the graph, and
/// indexes the result; the first failing stage is reported and no partly
/// rewritten graph is returned.
pub fn resolve_verified_entities(
    graph: &PropositionGraph,
    candidate_pair_count: usize,
    verified: &[VerifiedEntityPair],
) -> (r: Result<ResolvedGraph, EntityResolutionPipelineError>)
    ensures
        match entity_merge_plan(graph@, pair_views(verified@)) {
            Err(e) => r matches Err(EntityResolutionPipelineError::MergePlanning(x)) && x@ == e,
            Ok(ms) => match rewrite_error(graph@, ms) {
                Some(e) => r matches Err(EntityResolutionPipelineError::GraphRewrite(x)) && x@ == e,
                None => r matches Ok(out) && {
                    &&& out.merge_plan@ == ms
                    &&& out.graph@ == rewritten_graph(graph@, ms)
                    &&& out.index.graph() == out.graph@
                    &&& out.metrics.entity_count_before == graph.entities@.len()
                    &&& out.metrics.entity_count_after == out.graph.entities@.len()
                    &&& out.metrics.candidate_pair_count == candidate_pair_count
                    &&& out.metrics.merge_group_count == ms.len()
                    &&& out.metrics.same_entity_count == decision_count(
                        pair_views(verified@),
                        EntityMatchDecision::SameEntity,
                    )
                    &&& out.metrics.different_entity_count == decision_count(
                        pair_views(verified@),
                        EntityMatchDecision::DifferentEntity,
                    )
                    &&& out.metrics.unresolved_pair_count == decision_count(
                        pair_views(verified@),
                        EntityMatchDecision::Uncertain,
                    )
                },
            },
        },
{
    let merge_plan = match build_entity_merge_plan(graph, verified) {
        Ok(plan) => plan,
        Err(e) => {
            return Err(EntityResolutionPipelineError::MergePlanning(e));
        },
    };
    let rewritten = match rewrite_graph_with_entity_merges(graph, &merge_plan) {
        Ok(g) => g,
        Err(e) => {
            return Err(EntityResolutionPipelineError::GraphRewrite(e));
        },
    };
    let index = build_index(&rewritten);
    let metrics = build_metrics(graph, &rewritten, candidate_pair_count, verified, &merge_plan);
    proof {
        crate::graph::entity_resolution::merge_planner::lemma_merge_count(&merge_plan);
    }
    Ok(ResolvedGraph { graph: rewritten, index, merge_plan, metrics })
}

} // verus!
