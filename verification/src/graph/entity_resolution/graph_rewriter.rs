//! Applies a validated entity merge plan to a proposition graph.
//!
//! Rewriting is a pure transformation: the graph and the plan are validated
//! in full before anything is built, so an error never leaves a partially
//! rewritten graph behind.
use vstd::prelude::*;

use crate::graph::consolidator::{
    duplicate_id_messages, entity_id_list, graph_violations, lemma_distinct_no_duplicate_messages,
    lemma_no_point_messages, lemma_no_relation_messages, point_messages, relation_messages,
    unknown_id_messages,
};
use crate::graph::entity_resolution::merge_planner::{
    EntityMerge, EntityMergePlan, EntityMergeView, merge_views,
};
use crate::graph::types::{
    EntityNode, EntityNodeView, KnowledgePoint, KnowledgePointView, PropositionGraph,
    PropositionGraphView, Relation, RelationView, entity_views, point_views, relation_views,
};
use crate::text::{contains_str, decimal, push_decimal, str_eq, strs};

verus! {

/// Structural graph or merge-plan problem found before rewriting.
#[derive(Debug, Clone, PartialEq, Eq)]
pub enum GraphRewriteError {
    DuplicateGraphEntityId { entity_id: String },
    UnknownKnowledgePointEntityId { point_id: String, entity_id: String },
    UnknownRelationEntityId { relation_index: usize, endpoint: &'static str, entity_id: String },
    EmptyMergeGroup { canonical_entity_id: String },
    UnknownPlanEntityId { entity_id: String },
    EntityAssignedToMultipleMerges { entity_id: String },
    CanonicalEntityListedAsMerged { entity_id: String },
    CanonicalEntityIsNotEarliest { canonical_entity_id: String, earliest_entity_id: String },
}

pub enum GraphRewriteErrorView {
    DuplicateGraphEntityId { entity_id: Seq<char> },
    UnknownKnowledgePointEntityId { point_id: Seq<char>, entity_id: Seq<char> },
    UnknownRelationEntityId { relation_index: nat, endpoint: Seq<char>, entity_id: Seq<char> },
    EmptyMergeGroup { canonical_entity_id: Seq<char> },
    UnknownPlanEntityId { entity_id: Seq<char> },
    EntityAssignedToMultipleMerges { entity_id: Seq<char> },
    CanonicalEntityListedAsMerged { entity_id: Seq<char> },
    CanonicalEntityIsNotEarliest { canonical_entity_id: Seq<char>, earliest_entity_id: Seq<char> },
}

impl View for GraphRewriteError {
    type V = GraphRewriteErrorView;

    open spec fn view(&self) -> GraphRewriteErrorView {
        match self {
            GraphRewriteError::DuplicateGraphEntityId { entity_id } => {
                GraphRewriteErrorView::DuplicateGraphEntityId { entity_id: entity_id@ }
            },
            GraphRewriteError::UnknownKnowledgePointEntityId { point_id, entity_id } => {
                GraphRewriteErrorView::UnknownKnowledgePointEntityId {
                    point_id: point_id@,
                    entity_id: entity_id@,
                }
            },
            GraphRewriteError::UnknownRelationEntityId { relation_index, endpoint, entity_id } => {
                GraphRewriteErrorView::UnknownRelationEntityId {
                    relation_index: *relation_index as nat,
                    endpoint: endpoint@,
                    entity_id: entity_id@,
                }
            },
            GraphRewriteError::EmptyMergeGroup { canonical_entity_id } => {
                GraphRewriteErrorView::EmptyMergeGroup { canonical_entity_id: canonical_entity_id@ }
            },
            GraphRewriteError::UnknownPlanEntityId { entity_id } => {
                GraphRewriteErrorView::UnknownPlanEntityId { entity_id: entity_id@ }
            },
            GraphRewriteError::EntityAssignedToMultipleMerges { entity_id } => {
                GraphRewriteErrorView::EntityAssignedToMultipleMerges { entity_id: entity_id@ }
            },
            GraphRewriteError::CanonicalEntityListedAsMerged { entity_id } => {
                GraphRewriteErrorView::CanonicalEntityListedAsMerged { entity_id: entity_id@ }
            },
            GraphRewriteError::CanonicalEntityIsNotEarliest {
                canonical_entity_id,
                earliest_entity_id,
            } => GraphRewriteErrorView::CanonicalEntityIsNotEarliest {
                canonical_entity_id: canonical_entity_id@,
                earliest_entity_id: earliest_entity_id@,
            },
        }
    }
}

/// The message that describes a rewrite problem.
pub open spec fn rewrite_error_text(e: GraphRewriteErrorView) -> Seq<char> {
    match e {
        GraphRewriteErrorView::DuplicateGraphEntityId { entity_id } =>
            "Rewrite graph contains duplicate entity ID '"@ + entity_id + "'"@,
        GraphRewriteErrorView::UnknownKnowledgePointEntityId { point_id, entity_id } =>
            "Knowledge point '"@ + point_id + "' references unknown entity ID '"@ + entity_id
            + "'"@,
        GraphRewriteErrorView::UnknownRelationEntityId { relation_index, endpoint, entity_id } =>
            "Relation "@ + decimal(relation_index) + " "@ + endpoint
            + " references unknown entity ID '"@ + entity_id + "'"@,
        GraphRewriteErrorView::EmptyMergeGroup { canonical_entity_id } =>
            "Merge for canonical entity '"@ + canonical_entity_id + "' has no merged entities"@,
        GraphRewriteErrorView::UnknownPlanEntityId { entity_id } =>
            "Merge plan references unknown entity ID '"@ + entity_id + "'"@,
        GraphRewriteErrorView::EntityAssignedToMultipleMerges { entity_id } => "Entity '"@
            + entity_id + "' is assigned more than once in the merge plan"@,
        GraphRewriteErrorView::CanonicalEntityListedAsMerged { entity_id } =>
            "Canonical entity '"@ + entity_id + "' is also listed as its own merged entity"@,
        GraphRewriteErrorView::CanonicalEntityIsNotEarliest {
            canonical_entity_id,
            earliest_entity_id,
        } => "Canonical entity '"@ + canonical_entity_id
            + "' is not the earliest graph member; expected '"@ + earliest_entity_id + "'"@,
    }
}

impl GraphRewriteError {
    /// The message that describes this problem.
    pub fn to_string(&self) -> (r: String)
        ensures
            r@ == rewrite_error_text(self@),
    {
        let mut out = String::new();
        match self {
            GraphRewriteError::DuplicateGraphEntityId { entity_id } => {
                out.append("Rewrite graph contains duplicate entity ID '");
                out.append(entity_id.as_str());
                out.append("'");
            },
            GraphRewriteError::UnknownKnowledgePointEntityId { point_id, entity_id } => {
                out.append("Knowledge point '");
                out.append(point_id.as_str());
                out.append("' references unknown entity ID '");
                out.append(entity_id.as_str());
                out.append("'");
            },
            GraphRewriteError::UnknownRelationEntityId { relation_index, endpoint, entity_id } => {
                out.append("Relation ");
                push_decimal(&mut out, *relation_index as u64);
                out.append(" ");
                out.append(endpoint);
                out.append(" references unknown entity ID '");
                out.append(entity_id.as_str());
                out.append("'");
            },
            GraphRewriteError::EmptyMergeGroup { canonical_entity_id } => {
                out.append("Merge for canonical entity '");
                out.append(canonical_entity_id.as_str());
                out.append("' has no merged entities");
            },
            GraphRewriteError::UnknownPlanEntityId { entity_id } => {
                out.append("Merge plan references unknown entity ID '");
                out.append(entity_id.as_str());
                out.append("'");
            },
            GraphRewriteError::EntityAssignedToMultipleMerges { entity_id } => {
                out.append("Entity '");
                out.append(entity_id.as_str());
                out.append("' is assigned more than once in the merge plan");
            },
            GraphRewriteError::CanonicalEntityListedAsMerged { entity_id } => {
                out.append("Canonical entity '");
                out.append(entity_id.as_str());
                out.append("' is also listed as its own merged entity");
            },
            GraphRewriteError::CanonicalEntityIsNotEarliest {
                canonical_entity_id,
                earliest_entity_id,
            } => {
                out.append("Canonical entity '");
                out.append(canonical_entity_id.as_str());
                out.append("' is not the earliest graph member; expected '");
                out.append(earliest_entity_id.as_str());
                out.append("'");
            },
        }
        out
    }
}

// =====================================================================
// Reference validation
// =====================================================================
/// The ID of the first entity whose ID an earlier entity already has.
pub open spec fn first_duplicate_id(es: Seq<EntityNodeView>) -> Option<Seq<char>>
    decreases es.len(),
{
    if es.len() == 0 {
        None
    } else {
        match first_duplicate_id(es.drop_last()) {
            Some(id) => Some(id),
            None => if entity_id_list(es.drop_last()).contains(es.last().id) {
                Some(es.last().id)
            } else {
                None
            },
        }
    }
}

/// The first element of `xs` that `ids` lacks.
pub open spec fn first_unknown(xs: Seq<Seq<char>>, ids: Seq<Seq<char>>) -> Option<Seq<char>>
    decreases xs.len(),
{
    if xs.len() == 0 {
        None
    } else {
        match first_unknown(xs.drop_last(), ids) {
            Some(x) => Some(x),
            None => if ids.contains(xs.last()) {
                None
            } else {
                Some(xs.last())
            },
        }
    }
}

/// The first point with an unknown entity ID, and that ID.
pub open spec fn first_unknown_point_ref(ps: Seq<KnowledgePointView>, ids: Seq<Seq<char>>) -> Option<
    (Seq<char>, Seq<char>),
>
    decreases ps.len(),
{
    if ps.len() == 0 {
        None
    } else {
        match first_unknown_point_ref(ps.drop_last(), ids) {
            Some(x) => Some(x),
            None => match first_unknown(ps.last().entity_ids, ids) {
                Some(id) => Some((ps.last().id, id)),
                None => None,
            },
        }
    }
}

/// The first relation endpoint that `ids` lacks: index, whether it is the
/// source, and the ID.
pub open spec fn first_unknown_endpoint(rs: Seq<RelationView>, ids: Seq<Seq<char>>) -> Option<
    (nat, bool, Seq<char>),
>
    decreases rs.len(),
{
    if rs.len() == 0 {
        None
    } else {
        match first_unknown_endpoint(rs.drop_last(), ids) {
            Some(x) => Some(x),
            None => {
                let i = (rs.len() - 1) as nat;
                if !ids.contains(rs.last().source_id) {
                    Some((i, true, rs.last().source_id))
                } else if !ids.contains(rs.last().target_id) {
                    Some((i, false, rs.last().target_id))
                } else {
                    None
                }
            },
        }
    }
}

/// The first problem with the graph's own identity and references.
pub open spec fn reference_error(g: PropositionGraphView) -> Option<GraphRewriteErrorView> {
    let ids = entity_id_list(g.entities);
    let dup = first_duplicate_id(g.entities);
    let point_ref = first_unknown_point_ref(g.knowledge_points, ids);
    let endpoint = first_unknown_endpoint(g.relations, ids);
    if dup is Some {
        Some(GraphRewriteErrorView::DuplicateGraphEntityId { entity_id: dup->0 })
    } else if point_ref is Some {
        Some(
            GraphRewriteErrorView::UnknownKnowledgePointEntityId {
                point_id: (point_ref->0).0,
                entity_id: (point_ref->0).1,
            },
        )
    } else if endpoint is Some {
        Some(
            GraphRewriteErrorView::UnknownRelationEntityId {
                relation_index: (endpoint->0).0,
                endpoint: if (endpoint->0).1 {
                    "source_id"@
                } else {
                    "target_id"@
                },
                entity_id: (endpoint->0).2,
            },
        )
    } else {
        None
    }
}

// =====================================================================
// Plan validation
// =====================================================================
/// The position of `id` in `ids` (the first one), or -1.
pub open spec fn index_in(ids: Seq<Seq<char>>, id: Seq<char>) -> int
    decreases ids.len(),
{
    if ids.len() == 0 {
        -1
    } else {
        let p = index_in(ids.drop_last(), id);
        if p >= 0 {
            p
        } else if ids.last() == id {
            ids.len() - 1
        } else {
            -1
        }
    }
}

/// The smallest graph position among `xs`.
pub open spec fn min_index(ids: Seq<Seq<char>>, xs: Seq<Seq<char>>) -> int
    decreases xs.len(),
{
    if xs.len() <= 1 {
        if xs.len() == 0 {
            -1
        } else {
            index_in(ids, xs[0])
        }
    } else {
        let p = min_index(ids, xs.drop_last());
        let q = index_in(ids, xs.last());
        if q < p {
            q
        } else {
            p
        }
    }
}

/// Checks the merged IDs of one group in order, extending the assigned IDs.
pub open spec fn check_members(
    assigned: Seq<Seq<char>>,
    canonical: Seq<char>,
    merged: Seq<Seq<char>>,
    ids: Seq<Seq<char>>,
) -> Result<Seq<Seq<char>>, GraphRewriteErrorView>
    decreases merged.len(),
{
    if merged.len() == 0 {
        Ok(assigned)
    } else {
        match check_members(assigned, canonical, merged.drop_last(), ids) {
            Err(e) => Err(e),
            Ok(a) => {
                let x = merged.last();
                if x == canonical {
                    Err(GraphRewriteErrorView::CanonicalEntityListedAsMerged { entity_id: x })
                } else if !ids.contains(x) {
                    Err(GraphRewriteErrorView::UnknownPlanEntityId { entity_id: x })
                } else if a.contains(x) {
                    Err(GraphRewriteErrorView::EntityAssignedToMultipleMerges { entity_id: x })
                } else {
                    Ok(a.push(x))
                }
            },
        }
    }
}

/// Checks one merge group after those before it assigned `assigned`.
pub open spec fn check_merge(assigned: Seq<Seq<char>>, m: EntityMergeView, ids: Seq<Seq<char>>) -> Result<
    Seq<Seq<char>>,
    GraphRewriteErrorView,
> {
    let c = m.canonical_entity_id;
    if m.merged_entity_ids.len() == 0 {
        Err(GraphRewriteErrorView::EmptyMergeGroup { canonical_entity_id: c })
    } else if !ids.contains(c) {
        Err(GraphRewriteErrorView::UnknownPlanEntityId { entity_id: c })
    } else if assigned.contains(c) {
        Err(GraphRewriteErrorView::EntityAssignedToMultipleMerges { entity_id: c })
    } else {
        match check_members(assigned.push(c), c, m.merged_entity_ids, ids) {
            Err(e) => Err(e),
            Ok(a) => {
                let earliest = min_index(ids, m.merged_entity_ids);
                if earliest < index_in(ids, c) {
                    Err(
                        GraphRewriteErrorView::CanonicalEntityIsNotEarliest {
                            canonical_entity_id: c,
                            earliest_entity_id: ids[earliest],
                        },
                    )
                } else {
                    Ok(a)
                }
            },
        }
    }
}

/// Checks the merge groups in order; on success, every ID the plan assigns.
pub open spec fn check_plan(ms: Seq<EntityMergeView>, ids: Seq<Seq<char>>) -> Result<
    Seq<Seq<char>>,
    GraphRewriteErrorView,
>
    decreases ms.len(),
{
    if ms.len() == 0 {
        Ok(Seq::empty())
    } else {
        match check_plan(ms.drop_last(), ids) {
            Err(e) => Err(e),
            Ok(a) => check_merge(a, ms.last(), ids),
        }
    }
}

/// The first reason the plan cannot be applied to the graph.
pub open spec fn rewrite_error(g: PropositionGraphView, ms: Seq<EntityMergeView>) -> Option<
    GraphRewriteErrorView,
> {
    match reference_error(g) {
        Some(e) => Some(e),
        None => match check_plan(ms, entity_id_list(g.entities)) {
            Err(e) => Some(e),
            Ok(_) => None,
        },
    }
}


// =====================================================================
// The rewritten graph
// =====================================================================
/// `s` with every element after its first occurrence dropped.
pub open spec fn dedup<A>(s: Seq<A>) -> Seq<A>
    decreases s.len(),
{
    if s.len() == 0 {
        s
    } else {
        let p = dedup(s.drop_last());
        if p.contains(s.last()) {
            p
        } else {
            p.push(s.last())
        }
    }
}

/// The position of the first merge that removes `id`, or -1.
pub open spec fn removing_merge(ms: Seq<EntityMergeView>, id: Seq<char>) -> int
    decreases ms.len(),
{
    if ms.len() == 0 {
        -1
    } else {
        let p = removing_merge(ms.drop_last(), id);
        if p >= 0 {
            p
        } else if ms.last().merged_entity_ids.contains(id) {
            ms.len() - 1
        } else {
            -1
        }
    }
}

/// The position of the first merge that keeps `id` as its canonical, or -1.
pub open spec fn keeping_merge(ms: Seq<EntityMergeView>, id: Seq<char>) -> int
    decreases ms.len(),
{
    if ms.len() == 0 {
        -1
    } else {
        let p = keeping_merge(ms.drop_last(), id);
        if p >= 0 {
            p
        } else if ms.last().canonical_entity_id == id {
            ms.len() - 1
        } else {
            -1
        }
    }
}

/// The ID that survives for `id`: its group's canonical ID if a merge
/// removes it, otherwise `id` itself.
pub open spec fn replacement(ms: Seq<EntityMergeView>, id: Seq<char>) -> Seq<char> {
    let k = removing_merge(ms, id);
    if k >= 0 {
        ms[k].canonical_entity_id
    } else {
        id
    }
}

/// The members of a merge group, in graph order.
pub open spec fn group_members(es: Seq<EntityNodeView>, m: EntityMergeView) -> Seq<EntityNodeView>
    decreases es.len(),
{
    if es.len() == 0 {
        Seq::empty()
    } else {
        let prev = group_members(es.drop_last(), m);
        let e = es.last();
        if e.id == m.canonical_entity_id || m.merged_entity_ids.contains(e.id) {
            prev.push(e)
        } else {
            prev
        }
    }
}

/// Each member's canonical name followed by its aliases, member by member.
pub open spec fn alias_stream(members: Seq<EntityNodeView>) -> Seq<Seq<char>>
    decreases members.len(),
{
    if members.len() == 0 {
        Seq::empty()
    } else {
        alias_stream(members.drop_last()) + seq![members.last().canonical_name]
            + members.last().aliases
    }
}

/// The chunk IDs of all members, member by member.
pub open spec fn chunk_stream(members: Seq<EntityNodeView>) -> Seq<Seq<char>>
    decreases members.len(),
{
    if members.len() == 0 {
        Seq::empty()
    } else {
        chunk_stream(members.drop_last()) + members.last().chunk_ids
    }
}

/// A canonical entity after its group is merged into it.
pub open spec fn merged_entity(e: EntityNodeView, m: EntityMergeView, es: Seq<EntityNodeView>) -> EntityNodeView {
    let members = group_members(es, m);
    EntityNodeView {
        id: e.id,
        canonical_name: e.canonical_name,
        aliases: dedup(alias_stream(members)),
        chunk_ids: dedup(chunk_stream(members)),
    }
}

/// The rewritten entities for a prefix of the graph's entities `es`.
pub open spec fn rewritten_entities(
    prefix: Seq<EntityNodeView>,
    ms: Seq<EntityMergeView>,
    es: Seq<EntityNodeView>,
) -> Seq<EntityNodeView>
    decreases prefix.len(),
{
    if prefix.len() == 0 {
        Seq::empty()
    } else {
        let prev = rewritten_entities(prefix.drop_last(), ms, es);
        let e = prefix.last();
        if removing_merge(ms, e.id) >= 0 {
            prev
        } else if keeping_merge(ms, e.id) >= 0 {
            prev.push(merged_entity(e, ms[keeping_merge(ms, e.id)], es))
        } else {
            prev.push(e)
        }
    }
}

/// An ID list with every ID replaced, first occurrences kept.
pub open spec fn rewritten_ids(ids: Seq<Seq<char>>, ms: Seq<EntityMergeView>) -> Seq<Seq<char>> {
    dedup(ids.map_values(|id: Seq<char>| replacement(ms, id)))
}

/// A knowledge point with its entity IDs rewritten; raw evidence is kept.
pub open spec fn rewritten_point(p: KnowledgePointView, ms: Seq<EntityMergeView>) -> KnowledgePointView {
    KnowledgePointView { entity_ids: rewritten_ids(p.entity_ids, ms), ..p }
}

/// Relations with endpoints replaced; self-relations that the merge
/// created are dropped, and repeated triples keep their first occurrence.
pub open spec fn rewritten_relations(rs: Seq<RelationView>, ms: Seq<EntityMergeView>) -> Seq<
    RelationView,
>
    decreases rs.len(),
{
    if rs.len() == 0 {
        Seq::empty()
    } else {
        let prev = rewritten_relations(rs.drop_last(), ms);
        let r = rs.last();
        let s = replacement(ms, r.source_id);
        let t = replacement(ms, r.target_id);
        let nr = RelationView { source_id: s, target_id: t, relation_type: r.relation_type };
        if r.source_id != r.target_id && s == t {
            prev
        } else if prev.contains(nr) {
            prev
        } else {
            prev.push(nr)
        }
    }
}

/// The graph after applying the merges.
pub open spec fn rewritten_graph(g: PropositionGraphView, ms: Seq<EntityMergeView>) -> PropositionGraphView {
    PropositionGraphView {
        entities: rewritten_entities(g.entities, ms, g.entities),
        knowledge_points: g.knowledge_points.map_values(
            |p: KnowledgePointView| rewritten_point(p, ms),
        ),
        relations: rewritten_relations(g.relations, ms),
    }
}

// =====================================================================
// Searching the plan
// =====================================================================
proof fn lemma_removing_merge(ms: Seq<EntityMergeView>, id: Seq<char>)
    ensures
        -1 <= removing_merge(ms, id) < ms.len(),
        removing_merge(ms, id) >= 0 ==> ms[removing_merge(ms, id)].merged_entity_ids.contains(id),
        forall|k: int|
            0 <= k < ms.len() && (removing_merge(ms, id) == -1 || k < removing_merge(ms, id))
                ==> !(#[trigger] ms[k]).merged_entity_ids.contains(id),
    decreases ms.len(),
{
    if ms.len() > 0 {
        lemma_removing_merge(ms.drop_last(), id);
        assert forall|k: int|
            0 <= k < ms.len() && (removing_merge(ms, id) == -1 || k < removing_merge(ms, id))
                implies !(#[trigger] ms[k]).merged_entity_ids.contains(id) by {
            if k < ms.len() - 1 {
                assert(ms.drop_last()[k] == ms[k]);
            }
        }
    }
}

proof fn lemma_keeping_merge(ms: Seq<EntityMergeView>, id: Seq<char>)
    ensures
        -1 <= keeping_merge(ms, id) < ms.len(),
        keeping_merge(ms, id) >= 0 ==> ms[keeping_merge(ms, id)].canonical_entity_id == id,
        forall|k: int|
            0 <= k < ms.len() && (keeping_merge(ms, id) == -1 || k < keeping_merge(ms, id))
                ==> (#[trigger] ms[k]).canonical_entity_id != id,
    decreases ms.len(),
{
    if ms.len() > 0 {
        lemma_keeping_merge(ms.drop_last(), id);
        assert forall|k: int|
            0 <= k < ms.len() && (keeping_merge(ms, id) == -1 || k < keeping_merge(ms, id))
                implies (#[trigger] ms[k]).canonical_entity_id != id by {
            if k < ms.len() - 1 {
                assert(ms.drop_last()[k] == ms[k]);
            }
        }
    }
}

/// The merge that removes `id`, found as `removing_merge` finds it.
fn find_removing(merges: &Vec<EntityMerge>, id: &str) -> (r: Option<usize>)
    ensures
        match r {
            Some(k) => k < merges@.len() && removing_merge(merge_views(merges@), id@) == k,
            None => removing_merge(merge_views(merges@), id@) == -1,
        },
{
    let ghost ms = merge_views(merges@);
    proof {
        lemma_removing_merge(ms, id@);
    }
    for k in 0..merges.len()
        invariant
            ms == merge_views(merges@),
            -1 <= removing_merge(ms, id@) < ms.len(),
            removing_merge(ms, id@) >= 0 ==> ms[removing_merge(ms, id@)].merged_entity_ids.contains(id@),
            forall|j: int|
                0 <= j < ms.len() && (removing_merge(ms, id@) == -1 || j < removing_merge(ms, id@))
                    ==> !(#[trigger] ms[j]).merged_entity_ids.contains(id@),
            removing_merge(ms, id@) == -1 || k <= removing_merge(ms, id@),
    {
        assert(ms[k as int] == merges@[k as int]@);
        if contains_str(&merges[k].merged_entity_ids, id) {
            return Some(k);
        }
    }
    None
}

/// The merge that keeps `id` as canonical, found as `keeping_merge` finds it.
fn find_keeping(merges: &Vec<EntityMerge>, id: &str) -> (r: Option<usize>)
    ensures
        match r {
            Some(k) => k < merges@.len() && keeping_merge(merge_views(merges@), id@) == k,
            None => keeping_merge(merge_views(merges@), id@) == -1,
        },
{
    let ghost ms = merge_views(merges@);
    proof {
        lemma_keeping_merge(ms, id@);
    }
    for k in 0..merges.len()
        invariant
            ms == merge_views(merges@),
            -1 <= keeping_merge(ms, id@) < ms.len(),
            keeping_merge(ms, id@) >= 0 ==> ms[keeping_merge(ms, id@)].canonical_entity_id == id@,
            forall|j: int|
                0 <= j < ms.len() && (keeping_merge(ms, id@) == -1 || j < keeping_merge(ms, id@))
                    ==> (#[trigger] ms[j]).canonical_entity_id != id@,
            keeping_merge(ms, id@) == -1 || k <= keeping_merge(ms, id@),
    {
        assert(ms[k as int] == merges@[k as int]@);
        if str_eq(merges[k].canonical_entity_id.as_str(), id) {
            return Some(k);
        }
    }
    None
}

/// The surviving ID for `id`.
fn replace_id(merges: &Vec<EntityMerge>, id: &String) -> (r: String)
    ensures
        r@ == replacement(merge_views(merges@), id@),
{
    match find_removing(merges, id.as_str()) {
        Some(k) => {
            assert(merge_views(merges@)[k as int] == merges@[k as int]@);
            merges[k].canonical_entity_id.clone()
        },
        None => id.clone(),
    }
}

/// Appends `value` unless the list already holds it.
pub fn push_unique(target: &mut Vec<String>, value: &str)
    ensures
        strs(final(target)@) == if strs(old(target)@).contains(value@) {
            strs(old(target)@)
        } else {
            strs(old(target)@).push(value@)
        },
{
    if !contains_str(target, value) {
        target.push(String::from_str(value));
        assert(strs(target@) =~= strs(old(target)@).push(value@));
    }
}

proof fn lemma_dedup_push<A>(s: Seq<A>, x: A)
    ensures
        dedup(s.push(x)) == if dedup(s).contains(x) {
            dedup(s)
        } else {
            dedup(s).push(x)
        },
{
    assert(s.push(x).drop_last() =~= s);
}


// =====================================================================
// Prefix lemmas: a first problem stays the first problem
// =====================================================================
proof fn lemma_first_duplicate_prefix(es: Seq<EntityNodeView>, n: int)
    requires
        0 <= n <= es.len(),
        first_duplicate_id(es.take(n)) is Some,
    ensures
        first_duplicate_id(es) == first_duplicate_id(es.take(n)),
    decreases es.len() - n,
{
    if n < es.len() {
        assert(es.take(n + 1).drop_last() =~= es.take(n));
        lemma_first_duplicate_prefix(es, n + 1);
    } else {
        assert(es.take(n) =~= es);
    }
}

proof fn lemma_first_unknown_prefix(xs: Seq<Seq<char>>, ids: Seq<Seq<char>>, n: int)
    requires
        0 <= n <= xs.len(),
        first_unknown(xs.take(n), ids) is Some,
    ensures
        first_unknown(xs, ids) == first_unknown(xs.take(n), ids),
    decreases xs.len() - n,
{
    if n < xs.len() {
        assert(xs.take(n + 1).drop_last() =~= xs.take(n));
        lemma_first_unknown_prefix(xs, ids, n + 1);
    } else {
        assert(xs.take(n) =~= xs);
    }
}

proof fn lemma_first_point_ref_prefix(ps: Seq<KnowledgePointView>, ids: Seq<Seq<char>>, n: int)
    requires
        0 <= n <= ps.len(),
        first_unknown_point_ref(ps.take(n), ids) is Some,
    ensures
        first_unknown_point_ref(ps, ids) == first_unknown_point_ref(ps.take(n), ids),
    decreases ps.len() - n,
{
    if n < ps.len() {
        assert(ps.take(n + 1).drop_last() =~= ps.take(n));
        lemma_first_point_ref_prefix(ps, ids, n + 1);
    } else {
        assert(ps.take(n) =~= ps);
    }
}

proof fn lemma_first_endpoint_prefix(rs: Seq<RelationView>, ids: Seq<Seq<char>>, n: int)
    requires
        0 <= n <= rs.len(),
        first_unknown_endpoint(rs.take(n), ids) is Some,
    ensures
        first_unknown_endpoint(rs, ids) == first_unknown_endpoint(rs.take(n), ids),
    decreases rs.len() - n,
{
    if n < rs.len() {
        assert(rs.take(n + 1).drop_last() =~= rs.take(n));
        lemma_first_endpoint_prefix(rs, ids, n + 1);
    } else {
        assert(rs.take(n) =~= rs);
    }
}

proof fn lemma_check_members_prefix(
    assigned: Seq<Seq<char>>,
    c: Seq<char>,
    xs: Seq<Seq<char>>,
    ids: Seq<Seq<char>>,
    n: int,
)
    requires
        0 <= n <= xs.len(),
        check_members(assigned, c, xs.take(n), ids) is Err,
    ensures
        check_members(assigned, c, xs, ids) == check_members(assigned, c, xs.take(n), ids),
    decreases xs.len() - n,
{
    if n < xs.len() {
        assert(xs.take(n + 1).drop_last() =~= xs.take(n));
        lemma_check_members_prefix(assigned, c, xs, ids, n + 1);
    } else {
        assert(xs.take(n) =~= xs);
    }
}

proof fn lemma_check_plan_prefix(ms: Seq<EntityMergeView>, ids: Seq<Seq<char>>, n: int)
    requires
        0 <= n <= ms.len(),
        check_plan(ms.take(n), ids) is Err,
    ensures
        check_plan(ms, ids) == check_plan(ms.take(n), ids),
    decreases ms.len() - n,
{
    if n < ms.len() {
        assert(ms.take(n + 1).drop_last() =~= ms.take(n));
        lemma_check_plan_prefix(ms, ids, n + 1);
    } else {
        assert(ms.take(n) =~= ms);
    }
}

/// Distinct known IDs, none of them the canonical ID or already assigned,
/// pass the member check and extend the assigned IDs.
pub(crate) proof fn lemma_check_members_accepts(
    assigned: Seq<Seq<char>>,
    c: Seq<char>,
    xs: Seq<Seq<char>>,
    ids: Seq<Seq<char>>,
)
    requires
        forall|j: int|
            0 <= j < xs.len() ==> #[trigger] xs[j] != c && ids.contains(xs[j]) && !assigned.contains(xs[j]),
        forall|i: int, j: int| 0 <= i < j < xs.len() ==> xs[i] != xs[j],
    ensures
        check_members(assigned, c, xs, ids) == Ok::<Seq<Seq<char>>, GraphRewriteErrorView>(assigned + xs),
    decreases xs.len(),
{
    if xs.len() > 0 {
        let init = xs.drop_last();
        let x = xs.last();
        assert forall|j: int| 0 <= j < init.len() implies #[trigger] init[j] != c && ids.contains(init[j])
            && !assigned.contains(init[j]) by {
            assert(init[j] == xs[j]);
        }
        assert forall|i: int, j: int| 0 <= i < j < init.len() implies init[i] != init[j] by {
            assert(init[i] == xs[i] && init[j] == xs[j]);
        }
        lemma_check_members_accepts(assigned, c, init, ids);
        let a = assigned + init;
        assert(x == xs[xs.len() - 1]);
        if a.contains(x) {
            let k = choose|k: int| 0 <= k < a.len() && a[k] == x;
            if k < assigned.len() {
                assert(assigned[k] == x);
            } else {
                assert(init[k - assigned.len()] == xs[k - assigned.len()]);
            }
        }
        assert(a.push(x) =~= assigned + xs);
    }
}

/// The earliest position of a non-empty list of IDs, all found after `b`,
/// is after `b`.
pub(crate) proof fn lemma_min_index_above(ids: Seq<Seq<char>>, xs: Seq<Seq<char>>, b: int)
    requires
        xs.len() > 0,
        forall|j: int| 0 <= j < xs.len() ==> index_in(ids, #[trigger] xs[j]) > b,
    ensures
        min_index(ids, xs) > b,
    decreases xs.len(),
{
    if xs.len() > 1 {
        let init = xs.drop_last();
        assert forall|j: int| 0 <= j < init.len() implies index_in(ids, #[trigger] init[j]) > b by {
            assert(init[j] == xs[j]);
        }
        lemma_min_index_above(ids, init, b);
        assert(index_in(ids, xs[xs.len() - 1]) > b);
    } else {
        assert(index_in(ids, xs[0]) > b);
    }
}

pub(crate) proof fn lemma_index_in(ids: Seq<Seq<char>>, id: Seq<char>)
    ensures
        -1 <= index_in(ids, id) < ids.len(),
        index_in(ids, id) >= 0 ==> ids[index_in(ids, id)] == id,
        index_in(ids, id) == -1 <==> !ids.contains(id),
        forall|k: int| 0 <= k < ids.len() && ids[k] == id ==> index_in(ids, id) <= k,
    decreases ids.len(),
{
    if ids.len() > 0 {
        lemma_index_in(ids.drop_last(), id);
        if ids.contains(id) && index_in(ids.drop_last(), id) == -1 {
            let k = choose|k: int| 0 <= k < ids.len() && ids[k] == id;
            if k < ids.len() - 1 {
                assert(ids.drop_last()[k] == id);
            }
        }
        if index_in(ids, id) == -1 {
            assert forall|k: int| 0 <= k < ids.len() implies ids[k] != id by {
                if k < ids.len() - 1 {
                    assert(ids.drop_last()[k] == ids[k]);
                }
            }
        }
        assert forall|k: int| 0 <= k < ids.len() && ids[k] == id implies index_in(ids, id) <= k by {
            if k < ids.len() - 1 {
                assert(ids.drop_last()[k] == ids[k]);
            }
        }
    }
}

/// The graph position of `id`, as `index_in` finds it.
pub(crate) fn position_of(ids: &Vec<String>, id: &str) -> (r: Option<usize>)
    ensures
        match r {
            Some(p) => p < ids@.len() && index_in(strs(ids@), id@) == p,
            None => index_in(strs(ids@), id@) == -1,
        },
{
    proof {
        lemma_index_in(strs(ids@), id@);
    }
    for k in 0..ids.len()
        invariant
            forall|j: int| 0 <= j < k ==> strs(ids@)[j] != id@,
    {
        if str_eq(ids[k].as_str(), id) {
            proof {
                lemma_index_in(strs(ids@), id@);
                assert(strs(ids@)[k as int] == id@);
            }
            return Some(k);
        }
    }
    proof {
        lemma_index_in(strs(ids@), id@);
        if index_in(strs(ids@), id@) >= 0 {
            assert(strs(ids@)[index_in(strs(ids@), id@)] == id@);
        }
    }
    None
}

// =====================================================================
// Validation
// =====================================================================
/// Checks stable entity identity and every resolved reference; on
/// success, the entity IDs in graph order.
fn validate_graph_references(graph: &PropositionGraph) -> (r: Result<Vec<String>, GraphRewriteError>)
    ensures
        match r {
            Ok(ids) => reference_error(graph@) is None && strs(ids@) == entity_id_list(
                graph@.entities,
            ),
            Err(e) => reference_error(graph@) == Some(e@),
        },
{
    let ghost g = graph@;
    let mut known: Vec<String> = Vec::new();
    let entities = &graph.entities;
    assert(g.entities.take(0) =~= Seq::<EntityNodeView>::empty());
    for i in 0..entities.len()
        invariant
            g == graph@,
            entities == &graph.entities,
            strs(known@) == entity_id_list(g.entities.take(i as int)),
            first_duplicate_id(g.entities.take(i as int)) is None,
    {
        let e = &entities[i];
        proof {
            assert(g.entities.take(i + 1).drop_last() =~= g.entities.take(i as int));
            assert(g.entities.take(i + 1).last() == e@);
        }
        if contains_str(&known, e.id.as_str()) {
            proof {
                lemma_first_duplicate_prefix(g.entities, i + 1);
            }
            return Err(GraphRewriteError::DuplicateGraphEntityId { entity_id: e.id.clone() });
        }
        let ghost prev = known@;
        known.push(e.id.clone());
        assert(strs(known@) =~= strs(prev).push(e.id@));
        assert(entity_id_list(g.entities.take(i + 1)) =~= entity_id_list(
            g.entities.take(i as int),
        ).push(e.id@));
    }
    assert(g.entities.take(entities@.len() as int) =~= g.entities);
    let ghost ids = entity_id_list(g.entities);
    let points = &graph.knowledge_points;
    assert(g.knowledge_points.take(0) =~= Seq::<KnowledgePointView>::empty());
    for i in 0..points.len()
        invariant
            g == graph@,
            points == &graph.knowledge_points,
            strs(known@) == ids,
            ids == entity_id_list(g.entities),
            first_duplicate_id(g.entities) is None,
            first_unknown_point_ref(g.knowledge_points.take(i as int), ids) is None,
    {
        let point = &points[i];
        proof {
            assert(g.knowledge_points.take(i + 1).drop_last() =~= g.knowledge_points.take(
                i as int,
            ));
            assert(g.knowledge_points.take(i + 1).last() == point@);
        }
        let ghost eids = point@.entity_ids;
        assert(eids.take(0) =~= Seq::<Seq<char>>::empty());
        for j in 0..point.entity_ids.len()
            invariant
                g == graph@,
                i < g.knowledge_points.len(),
                point@ == g.knowledge_points[i as int],
                eids == point@.entity_ids,
                strs(known@) == ids,
                ids == entity_id_list(g.entities),
                first_duplicate_id(g.entities) is None,
                first_unknown_point_ref(g.knowledge_points.take(i as int), ids) is None,
                first_unknown(eids.take(j as int), ids) is None,
        {
            proof {
                assert(eids.take(j + 1).drop_last() =~= eids.take(j as int));
                assert(eids.take(j + 1).last() == point.entity_ids@[j as int]@);
            }
            if !contains_str(&known, point.entity_ids[j].as_str()) {
                proof {
                    assert(first_unknown(eids.take(j + 1), ids) == Some(
                        point.entity_ids@[j as int]@,
                    ));
                    lemma_first_unknown_prefix(eids, ids, j + 1);
                    assert(g.knowledge_points.take(i + 1).drop_last() =~= g.knowledge_points.take(
                        i as int,
                    ));
                    assert(g.knowledge_points.take(i + 1).last() == point@);
                    assert(first_unknown_point_ref(g.knowledge_points.take(i + 1), ids) == Some(
                        (point.id@, point.entity_ids@[j as int]@),
                    ));
                    lemma_first_point_ref_prefix(g.knowledge_points, ids, i + 1);
                }
                return Err(
                    GraphRewriteError::UnknownKnowledgePointEntityId {
                        point_id: point.id.clone(),
                        entity_id: point.entity_ids[j].clone(),
                    },
                );
            }
        }
        assert(eids.take(point.entity_ids@.len() as int) =~= eids);
    }
    assert(g.knowledge_points.take(points@.len() as int) =~= g.knowledge_points);
    let relations = &graph.relations;
    assert(g.relations.take(0) =~= Seq::<RelationView>::empty());
    for i in 0..relations.len()
        invariant
            g == graph@,
            relations == &graph.relations,
            strs(known@) == ids,
            ids == entity_id_list(g.entities),
            first_duplicate_id(g.entities) is None,
            first_unknown_point_ref(g.knowledge_points, ids) is None,
            first_unknown_endpoint(g.relations.take(i as int), ids) is None,
    {
        let rel = &relations[i];
        proof {
            assert(g.relations.take(i + 1).drop_last() =~= g.relations.take(i as int));
            assert(g.relations.take(i + 1).last() == rel@);
        }
        if !contains_str(&known, rel.source_id.as_str()) {
            proof {
                assert(first_unknown_endpoint(g.relations.take(i + 1), ids) == Some(
                    (i as nat, true, rel.source_id@),
                ));
                lemma_first_endpoint_prefix(g.relations, ids, i + 1);
            }
            return Err(
                GraphRewriteError::UnknownRelationEntityId {
                    relation_index: i,
                    endpoint: "source_id",
                    entity_id: rel.source_id.clone(),
                },
            );
        }
        if !contains_str(&known, rel.target_id.as_str()) {
            proof {
                assert(first_unknown_endpoint(g.relations.take(i + 1), ids) == Some(
                    (i as nat, false, rel.target_id@),
                ));
                lemma_first_endpoint_prefix(g.relations, ids, i + 1);
            }
            return Err(
                GraphRewriteError::UnknownRelationEntityId {
                    relation_index: i,
                    endpoint: "target_id",
                    entity_id: rel.target_id.clone(),
                },
            );
        }
    }
    assert(g.relations.take(relations@.len() as int) =~= g.relations);
    Ok(known)
}


/// Checks every merge group in order against the graph's entity IDs.
fn validate_plan(
    graph: &PropositionGraph,
    plan: &EntityMergePlan,
    ids: &Vec<String>,
) -> (r: Result<(), GraphRewriteError>)
    requires
        strs(ids@) == entity_id_list(graph@.entities),
    ensures
        match r {
            Ok(()) => check_plan(plan@, strs(ids@)) is Ok,
            Err(e) => check_plan(plan@, strs(ids@)) == Err::<Seq<Seq<char>>, GraphRewriteErrorView>(e@),
        },
{
    let ghost idv = strs(ids@);
    let ghost ms = plan@;
    let merges = &plan.merges;
    let mut assigned: Vec<String> = Vec::new();
    assert(ms.take(0) =~= Seq::<EntityMergeView>::empty());
    assert(strs(assigned@) =~= Seq::<Seq<char>>::empty());
    for k in 0..merges.len()
        invariant
            idv == strs(ids@),
            idv == entity_id_list(graph@.entities),
            ms == plan@,
            merges == &plan.merges,
            check_plan(ms.take(k as int), idv) == Ok::<Seq<Seq<char>>, GraphRewriteErrorView>(
                strs(assigned@),
            ),
    {
        let m = &merges[k];
        let ghost a = strs(assigned@);
        proof {
            assert(ms.take(k + 1).drop_last() =~= ms.take(k as int));
            assert(ms.take(k + 1).last() == m@);
            assert(ms[k as int] == m@);
        }
        let c = &m.canonical_entity_id;
        if m.merged_entity_ids.len() == 0 {
            proof {
                lemma_check_plan_prefix(ms, idv, k + 1);
            }
            return Err(GraphRewriteError::EmptyMergeGroup { canonical_entity_id: c.clone() });
        }
        proof {
            lemma_index_in(idv, c@);
        }
        let cidx = match position_of(ids, c.as_str()) {
            Some(p) => p,
            None => {
                proof {
                    lemma_check_plan_prefix(ms, idv, k + 1);
                }
                return Err(GraphRewriteError::UnknownPlanEntityId { entity_id: c.clone() });
            },
        };
        if contains_str(&assigned, c.as_str()) {
            proof {
                lemma_check_plan_prefix(ms, idv, k + 1);
            }
            return Err(GraphRewriteError::EntityAssignedToMultipleMerges { entity_id: c.clone() });
        }
        assigned.push(c.clone());
        assert(strs(assigned@) =~= a.push(c@));
        let merged = &m.merged_entity_ids;
        let ghost xs = m@.merged_entity_ids;
        let mut best: usize = 0;
        assert(xs.take(0) =~= Seq::<Seq<char>>::empty());
        for j in 0..merged.len()
            invariant
                idv == strs(ids@),
                idv == entity_id_list(graph@.entities),
                ms == plan@,
                k < ms.len(),
                ms[k as int] == m@,
                merges == &plan.merges,
                check_plan(ms.take(k as int), idv) == Ok::<Seq<Seq<char>>, GraphRewriteErrorView>(a),
                check_plan(ms.take(k + 1), idv) == check_merge(a, m@, idv),
                c == &m.canonical_entity_id,
                merged == &m.merged_entity_ids,
                xs == m@.merged_entity_ids,
                xs.len() > 0,
                idv.contains(c@),
                !a.contains(c@),
                index_in(idv, c@) == cidx,
                check_members(a.push(c@), c@, xs.take(j as int), idv) == Ok::<
                    Seq<Seq<char>>,
                    GraphRewriteErrorView,
                >(strs(assigned@)),
                j > 0 ==> best == min_index(idv, xs.take(j as int)),
                j > 0 ==> best < idv.len(),
        {
            let x = &merged[j];
            let ghost before = strs(assigned@);
            proof {
                assert(xs.take(j + 1).drop_last() =~= xs.take(j as int));
                assert(xs.take(j + 1).last() == x@);
                assert(xs[j as int] == x@);
            }
            if str_eq(x.as_str(), c.as_str()) {
                proof {
                    lemma_check_members_prefix(a.push(c@), c@, xs, idv, j + 1);
                    lemma_check_plan_prefix(ms, idv, k + 1);
                }
                return Err(GraphRewriteError::CanonicalEntityListedAsMerged { entity_id: x.clone() });
            }
            proof {
                lemma_index_in(idv, x@);
            }
            let xidx = match position_of(ids, x.as_str()) {
                Some(p) => p,
                None => {
                    proof {
                        lemma_check_members_prefix(a.push(c@), c@, xs, idv, j + 1);
                        lemma_check_plan_prefix(ms, idv, k + 1);
                    }
                    return Err(GraphRewriteError::UnknownPlanEntityId { entity_id: x.clone() });
                },
            };
            if contains_str(&assigned, x.as_str()) {
                proof {
                    lemma_check_members_prefix(a.push(c@), c@, xs, idv, j + 1);
                    lemma_check_plan_prefix(ms, idv, k + 1);
                }
                return Err(
                    GraphRewriteError::EntityAssignedToMultipleMerges { entity_id: x.clone() },
                );
            }
            assigned.push(x.clone());
            assert(strs(assigned@) =~= before.push(x@));
            if j == 0 || xidx < best {
                best = xidx;
            }
        }
        proof {
            assert(xs.take(merged@.len() as int) =~= xs);
        }
        if best < cidx {
            proof {
                lemma_check_plan_prefix(ms, idv, k + 1);
                assert(idv[best as int] == graph@.entities[best as int].id);
            }
            return Err(
                GraphRewriteError::CanonicalEntityIsNotEarliest {
                    canonical_entity_id: c.clone(),
                    earliest_entity_id: graph.entities[best].id.clone(),
                },
            );
        }
    }
    assert(ms.take(merges@.len() as int) =~= ms);
    Ok(())
}


// =====================================================================
// Rewriting
// =====================================================================
/// The canonical entity `e` with its whole group merged into it.
fn merge_group(entities: &Vec<EntityNode>, m: &EntityMerge, e: &EntityNode) -> (r: EntityNode)
    ensures
        r@ == merged_entity(e@, m@, entity_views(entities@)),
{
    let ghost es = entity_views(entities@);
    let mut aliases: Vec<String> = Vec::new();
    let mut chunk_ids: Vec<String> = Vec::new();
    assert(es.take(0) =~= Seq::<EntityNodeView>::empty());
    assert(strs(aliases@) =~= Seq::<Seq<char>>::empty());
    assert(strs(chunk_ids@) =~= Seq::<Seq<char>>::empty());
    for j in 0..entities.len()
        invariant
            es == entity_views(entities@),
            strs(aliases@) == dedup(alias_stream(group_members(es.take(j as int), m@))),
            strs(chunk_ids@) == dedup(chunk_stream(group_members(es.take(j as int), m@))),
    {
        let x = &entities[j];
        let ghost gm = group_members(es.take(j as int), m@);
        proof {
            assert(es.take(j + 1).drop_last() =~= es.take(j as int));
            assert(es.take(j + 1).last() == x@);
        }
        if str_eq(x.id.as_str(), m.canonical_entity_id.as_str()) || contains_str(
            &m.merged_entity_ids,
            x.id.as_str(),
        ) {
            let ghost base = alias_stream(gm) + seq![x.canonical_name@];
            proof {
                lemma_dedup_push(alias_stream(gm), x.canonical_name@);
                assert(alias_stream(gm).push(x.canonical_name@) =~= base);
            }
            push_unique(&mut aliases, x.canonical_name.as_str());
            assert(base + x@.aliases.take(0) =~= base);
            for a in 0..x.aliases.len()
                invariant
                    strs(aliases@) == dedup(base + x@.aliases.take(a as int)),
            {
                proof {
                    lemma_dedup_push(base + x@.aliases.take(a as int), x.aliases@[a as int]@);
                    assert(base + x@.aliases.take(a + 1) =~= (base + x@.aliases.take(a as int)).push(
                        x.aliases@[a as int]@,
                    ));
                }
                push_unique(&mut aliases, x.aliases[a].as_str());
            }
            let ghost cbase = chunk_stream(gm);
            assert(cbase + x@.chunk_ids.take(0) =~= cbase);
            for c in 0..x.chunk_ids.len()
                invariant
                    strs(chunk_ids@) == dedup(cbase + x@.chunk_ids.take(c as int)),
            {
                proof {
                    lemma_dedup_push(cbase + x@.chunk_ids.take(c as int), x.chunk_ids@[c as int]@);
                    assert(cbase + x@.chunk_ids.take(c + 1) =~= (cbase + x@.chunk_ids.take(
                        c as int,
                    )).push(x.chunk_ids@[c as int]@));
                }
                push_unique(&mut chunk_ids, x.chunk_ids[c].as_str());
            }
            proof {
                let gm2 = group_members(es.take(j + 1), m@);
                assert(gm2 == gm.push(x@));
                assert(gm2.drop_last() =~= gm);
                assert(x@.aliases.take(x.aliases@.len() as int) =~= x@.aliases);
                assert(x@.chunk_ids.take(x.chunk_ids@.len() as int) =~= x@.chunk_ids);
                assert(alias_stream(gm2) == base + x@.aliases);
                assert(chunk_stream(gm2) == cbase + x@.chunk_ids);
            }
        }
    }
    assert(es.take(entities@.len() as int) =~= es);
    EntityNode {
        id: e.id.clone(),
        canonical_name: e.canonical_name.clone(),
        aliases,
        chunk_ids,
    }
}

/// The entities after the merges: removed members dropped, each canonical
/// entity carrying its whole group, the rest unchanged, in graph order.
fn rewrite_entities(graph: &PropositionGraph, plan: &EntityMergePlan) -> (r: Vec<EntityNode>)
    ensures
        entity_views(r@) == rewritten_entities(graph@.entities, plan@, graph@.entities),
{
    let ghost es = graph@.entities;
    let ghost ms = plan@;
    let entities = &graph.entities;
    let mut out: Vec<EntityNode> = Vec::new();
    assert(es.take(0) =~= Seq::<EntityNodeView>::empty());
    for i in 0..entities.len()
        invariant
            es == graph@.entities,
            ms == plan@,
            entities == &graph.entities,
            entity_views(out@) == rewritten_entities(es.take(i as int), ms, es),
    {
        let e = &entities[i];
        let ghost prev = out@;
        proof {
            assert(es.take(i + 1).drop_last() =~= es.take(i as int));
            assert(es.take(i + 1).last() == e@);
        }
        if find_removing(&plan.merges, e.id.as_str()).is_none() {
            match find_keeping(&plan.merges, e.id.as_str()) {
                Some(k) => {
                    assert(ms[k as int] == plan.merges@[k as int]@);
                    let merged = merge_group(entities, &plan.merges[k], e);
                    out.push(merged);
                    assert(entity_views(out@) =~= entity_views(prev).push(merged@));
                },
                None => {
                    let copy = e.duplicate();
                    out.push(copy);
                    assert(entity_views(out@) =~= entity_views(prev).push(e@));
                },
            }
        }
    }
    assert(es.take(entities@.len() as int) =~= es);
    out
}

/// An ID list with every ID replaced, first occurrences kept.
fn rewrite_id_list(ids: &Vec<String>, plan: &EntityMergePlan) -> (r: Vec<String>)
    ensures
        strs(r@) == rewritten_ids(strs(ids@), plan@),
{
    let ghost ms = plan@;
    let ghost f = |id: Seq<char>| replacement(ms, id);
    let mut out: Vec<String> = Vec::new();
    assert(strs(ids@).take(0).map_values(f) =~= Seq::<Seq<char>>::empty());
    assert(strs(out@) =~= Seq::<Seq<char>>::empty());
    for i in 0..ids.len()
        invariant
            ms == plan@,
            f == (|id: Seq<char>| replacement(ms, id)),
            strs(out@) == dedup(strs(ids@).take(i as int).map_values(f)),
    {
        let resolved = replace_id(&plan.merges, &ids[i]);
        proof {
            assert(strs(ids@).take(i + 1).map_values(f) =~= strs(ids@).take(i as int).map_values(
                f,
            ).push(resolved@));
            lemma_dedup_push(strs(ids@).take(i as int).map_values(f), resolved@);
        }
        push_unique(&mut out, resolved.as_str());
    }
    assert(strs(ids@).take(ids@.len() as int) =~= strs(ids@));
    out
}

fn relation_eq(a: &Relation, b: &Relation) -> (r: bool)
    ensures
        r == (a@ == b@),
{
    a.relation_type == b.relation_type && str_eq(a.source_id.as_str(), b.source_id.as_str())
        && str_eq(a.target_id.as_str(), b.target_id.as_str())
}

fn contains_relation(v: &Vec<Relation>, x: &Relation) -> (r: bool)
    ensures
        r == relation_views(v@).contains(x@),
{
    for i in 0..v.len()
        invariant
            forall|k: int| 0 <= k < i ==> relation_views(v@)[k] != x@,
    {
        if relation_eq(&v[i], x) {
            assert(relation_views(v@)[i as int] == x@);
            return true;
        }
    }
    false
}

/// The relations after the merges.
fn rewrite_relations(graph: &PropositionGraph, plan: &EntityMergePlan) -> (r: Vec<Relation>)
    ensures
        relation_views(r@) == rewritten_relations(graph@.relations, plan@),
{
    let ghost rs = graph@.relations;
    let ghost ms = plan@;
    let relations = &graph.relations;
    let mut out: Vec<Relation> = Vec::new();
    assert(rs.take(0) =~= Seq::<RelationView>::empty());
    assert(relation_views(out@) =~= Seq::<RelationView>::empty());
    for i in 0..relations.len()
        invariant
            rs == graph@.relations,
            ms == plan@,
            relations == &graph.relations,
            relation_views(out@) == rewritten_relations(rs.take(i as int), ms),
    {
        let rel = &relations[i];
        proof {
            assert(rs.take(i + 1).drop_last() =~= rs.take(i as int));
            assert(rs.take(i + 1).last() == rel@);
        }
        let source_id = replace_id(&plan.merges, &rel.source_id);
        let target_id = replace_id(&plan.merges, &rel.target_id);
        let created_self_relation = !str_eq(rel.source_id.as_str(), rel.target_id.as_str())
            && str_eq(source_id.as_str(), target_id.as_str());
        if !created_self_relation {
            let candidate = Relation { source_id, target_id, relation_type: rel.relation_type };
            if !contains_relation(&out, &candidate) {
                let ghost prev = out@;
                out.push(candidate);
                assert(relation_views(out@) =~= relation_views(prev).push(candidate@));
            }
        }
    }
    assert(rs.take(relations@.len() as int) =~= rs);
    out
}

/// Applies an entity merge plan and returns the rewritten graph.
///
/// Each group keeps its canonical entity's ID, name, and position; the
/// canonical entity gains every member's canonical name and aliases and all
/// chunk IDs, without duplicates. Removed IDs are replaced in knowledge
/// points and relations; self-relations created by the merge are dropped and
/// identical relations collapsed. Raw entity names and raw relations are
/// kept as extracted.
///
/// Fails, before building anything, with the first problem found: a
/// duplicate or dangling ID in the graph, then an empty, unknown,
/// overlapping, self-listing, or non-earliest merge group.
pub fn rewrite_graph_with_entity_merges(
    graph: &PropositionGraph,
    plan: &EntityMergePlan,
) -> (r: Result<PropositionGraph, GraphRewriteError>)
    ensures
        match r {
            Ok(g) => rewrite_error(graph@, plan@) is None && g@ == rewritten_graph(graph@, plan@),
            Err(e) => rewrite_error(graph@, plan@) == Some(e@),
        },
{
    let ids = match validate_graph_references(graph) {
        Ok(ids) => ids,
        Err(e) => return Err(e),
    };
    match validate_plan(graph, plan, &ids) {
        Ok(()) => {},
        Err(e) => return Err(e),
    }
    let entities = rewrite_entities(graph, plan);
    let ghost ms = plan@;
    let mut knowledge_points: Vec<KnowledgePoint> = Vec::new();
    let points = &graph.knowledge_points;
    for i in 0..points.len()
        invariant
            ms == plan@,
            points == &graph.knowledge_points,
            point_views(knowledge_points@) == graph@.knowledge_points.take(i as int).map_values(
                |p: KnowledgePointView| rewritten_point(p, ms),
            ),
    {
        let mut q = points[i].duplicate();
        q.entity_ids = rewrite_id_list(&points[i].entity_ids, plan);
        let ghost prev = knowledge_points@;
        knowledge_points.push(q);
        assert(point_views(knowledge_points@) =~= point_views(prev).push(q@));
        assert(graph@.knowledge_points.take(i + 1).map_values(
            |p: KnowledgePointView| rewritten_point(p, ms),
        ) =~= graph@.knowledge_points.take(i as int).map_values(
            |p: KnowledgePointView| rewritten_point(p, ms),
        ).push(rewritten_point(points@[i as int]@, ms)));
    }
    assert(graph@.knowledge_points.take(points@.len() as int) =~= graph@.knowledge_points);
    let relations = rewrite_relations(graph, plan);
    Ok(PropositionGraph { entities, knowledge_points, relations })
}


// =====================================================================
// Laws
// =====================================================================
proof fn lemma_dedup_distinct<A>(s: Seq<A>)
    requires
        s.no_duplicates(),
    ensures
        dedup(s) == s,
    decreases s.len(),
{
    if s.len() > 0 {
        let init = s.drop_last();
        assert(init.no_duplicates()) by {
            assert forall|i: int, j: int| 0 <= i < init.len() && 0 <= j < init.len() && i != j implies init[i] != init[j] by {
                assert(init[i] == s[i] && init[j] == s[j]);
            }
        }
        lemma_dedup_distinct(init);
        if init.contains(s.last()) {
            let k = choose|k: int| 0 <= k < init.len() && init[k] == s.last();
            assert(s[k] == s[s.len() - 1]);
        }
        assert(init.push(s.last()) =~= s);
    }
}

proof fn lemma_empty_plan_entities(prefix: Seq<EntityNodeView>, es: Seq<EntityNodeView>)
    ensures
        rewritten_entities(prefix, Seq::empty(), es) == prefix,
    decreases prefix.len(),
{
    if prefix.len() > 0 {
        lemma_empty_plan_entities(prefix.drop_last(), es);
        assert(prefix.drop_last().push(prefix.last()) =~= prefix);
    }
}

proof fn lemma_empty_plan_relations(rs: Seq<RelationView>)
    requires
        rs.no_duplicates(),
    ensures
        rewritten_relations(rs, Seq::empty()) == rs,
    decreases rs.len(),
{
    if rs.len() > 0 {
        let init = rs.drop_last();
        assert(init.no_duplicates()) by {
            assert forall|i: int, j: int| 0 <= i < init.len() && 0 <= j < init.len() && i != j implies init[i] != init[j] by {
                assert(init[i] == rs[i] && init[j] == rs[j]);
            }
        }
        lemma_empty_plan_relations(init);
        let r = rs.last();
        assert(RelationView { source_id: r.source_id, target_id: r.target_id, relation_type: r.relation_type } == r);
        if init.contains(r) {
            let k = choose|k: int| 0 <= k < init.len() && init[k] == r;
            assert(rs[k] == rs[rs.len() - 1]);
        }
        assert(init.push(r) =~= rs);
    }
}

/// Rewriting with the empty plan gives back the graph unchanged, for a graph
/// whose points list each entity ID once and whose relations are distinct.
pub proof fn lemma_empty_plan_leaves_graph_unchanged(g: PropositionGraphView)
    requires
        forall|i: int| 0 <= i < g.knowledge_points.len() ==> (#[trigger] g.knowledge_points[i]).entity_ids.no_duplicates(),
        g.relations.no_duplicates(),
    ensures
        rewritten_graph(g, Seq::empty()) == g,
{
    let ms = Seq::<EntityMergeView>::empty();
    lemma_empty_plan_entities(g.entities, g.entities);
    lemma_empty_plan_relations(g.relations);
    assert forall|i: int| 0 <= i < g.knowledge_points.len() implies #[trigger] rewritten_point(
        g.knowledge_points[i],
        ms,
    ) == g.knowledge_points[i] by {
        let p = g.knowledge_points[i];
        assert(p.entity_ids.map_values(|id: Seq<char>| replacement(ms, id)) =~= p.entity_ids);
        lemma_dedup_distinct(p.entity_ids);
    }
    assert(g.knowledge_points.map_values(|p: KnowledgePointView| rewritten_point(p, ms))
        =~= g.knowledge_points);
}

/// An empty plan rewrites a valid graph to itself: on a graph that
/// `validate_graph` accepts, whose points list each entity ID once and
/// whose relations are distinct, the rewrite succeeds and changes nothing.
pub proof fn lemma_empty_plan_on_valid_graph(g: PropositionGraphView)
    requires
        graph_violations(g) == Seq::<Seq<char>>::empty(),
        forall|i: int| 0 <= i < g.knowledge_points.len() ==> (#[trigger] g.knowledge_points[i]).entity_ids.no_duplicates(),
        g.relations.no_duplicates(),
    ensures
        rewrite_error(g, Seq::empty()) is None,
        rewritten_graph(g, Seq::empty()) == g,
{
    lemma_valid_graph_has_no_reference_error(g);
    lemma_empty_plan_leaves_graph_unchanged(g);
}

/// A graph without structural violations passes the rewriter's reference
/// checks.
pub proof fn lemma_valid_graph_has_no_reference_error(g: PropositionGraphView)
    requires
        graph_violations(g) == Seq::<Seq<char>>::empty(),
    ensures
        reference_error(g) is None,
{
    let ids = entity_id_list(g.entities);
    let d = duplicate_id_messages(g.entities);
    let r = relation_messages(g.relations, ids);
    let p = point_messages(g.knowledge_points, ids);
    assert((d + r + p).len() == d.len() + r.len() + p.len());
    lemma_no_duplicate_messages_none(g.entities);
    lemma_no_relation_messages_none(g.relations, ids);
    lemma_no_point_messages_none(g.knowledge_points, ids);
}

proof fn lemma_no_duplicate_messages_none(es: Seq<EntityNodeView>)
    requires
        duplicate_id_messages(es).len() == 0,
    ensures
        first_duplicate_id(es) is None,
    decreases es.len(),
{
    if es.len() > 0 {
        lemma_no_duplicate_messages_none(es.drop_last());
    }
}

proof fn lemma_no_relation_messages_none(rs: Seq<RelationView>, ids: Seq<Seq<char>>)
    requires
        relation_messages(rs, ids).len() == 0,
    ensures
        first_unknown_endpoint(rs, ids) is None,
    decreases rs.len(),
{
    if rs.len() > 0 {
        lemma_no_relation_messages_none(rs.drop_last(), ids);
    }
}

proof fn lemma_no_unknown_id_messages_none(point_id: Seq<char>, eids: Seq<Seq<char>>, ids: Seq<Seq<char>>)
    requires
        unknown_id_messages(point_id, eids, ids).len() == 0,
    ensures
        first_unknown(eids, ids) is None,
    decreases eids.len(),
{
    if eids.len() > 0 {
        lemma_no_unknown_id_messages_none(point_id, eids.drop_last(), ids);
    }
}

proof fn lemma_no_point_messages_none(ps: Seq<KnowledgePointView>, ids: Seq<Seq<char>>)
    requires
        point_messages(ps, ids).len() == 0,
    ensures
        first_unknown_point_ref(ps, ids) is None,
    decreases ps.len(),
{
    if ps.len() > 0 {
        let init = ps.drop_last();
        let tail = unknown_id_messages(ps.last().id, ps.last().entity_ids, ids);
        assert((point_messages(init, ids) + tail).len() == point_messages(init, ids).len() + tail.len());
        lemma_no_point_messages_none(init, ids);
        lemma_no_unknown_id_messages_none(ps.last().id, ps.last().entity_ids, ids);
    }
}

proof fn lemma_first_duplicate_none(es: Seq<EntityNodeView>)
    requires
        first_duplicate_id(es) is None,
    ensures
        forall|i: int, j: int| 0 <= i < j < es.len() ==> #[trigger] es[i].id != #[trigger] es[j].id,
    decreases es.len(),
{
    if es.len() > 0 {
        let init = es.drop_last();
        lemma_first_duplicate_none(init);
        assert forall|i: int, j: int| 0 <= i < j < es.len() implies #[trigger] es[i].id
            != #[trigger] es[j].id by {
            if j < es.len() - 1 {
                assert(init[i] == es[i] && init[j] == es[j]);
            } else {
                assert(entity_id_list(init)[i] == es[i].id);
            }
        }
    }
}

proof fn lemma_first_unknown_none(xs: Seq<Seq<char>>, ids: Seq<Seq<char>>)
    requires
        first_unknown(xs, ids) is None,
    ensures
        forall|j: int| 0 <= j < xs.len() ==> ids.contains(#[trigger] xs[j]),
    decreases xs.len(),
{
    if xs.len() > 0 {
        lemma_first_unknown_none(xs.drop_last(), ids);
        assert forall|j: int| 0 <= j < xs.len() implies ids.contains(#[trigger] xs[j]) by {
            if j < xs.len() - 1 {
                assert(xs.drop_last()[j] == xs[j]);
            }
        }
    }
}

proof fn lemma_first_point_ref_none(ps: Seq<KnowledgePointView>, ids: Seq<Seq<char>>)
    requires
        first_unknown_point_ref(ps, ids) is None,
    ensures
        forall|i: int, j: int|
            0 <= i < ps.len() && 0 <= j < ps[i].entity_ids.len() ==> ids.contains(
                #[trigger] ps[i].entity_ids[j],
            ),
    decreases ps.len(),
{
    if ps.len() > 0 {
        lemma_first_point_ref_none(ps.drop_last(), ids);
        lemma_first_unknown_none(ps.last().entity_ids, ids);
        assert forall|i: int, j: int|
            0 <= i < ps.len() && 0 <= j < ps[i].entity_ids.len() implies ids.contains(
                #[trigger] ps[i].entity_ids[j],
            ) by {
            if i < ps.len() - 1 {
                assert(ps.drop_last()[i] == ps[i]);
            } else {
                assert(ps.last().entity_ids[j] == ps[i].entity_ids[j]);
            }
        }
    }
}

proof fn lemma_first_endpoint_none(rs: Seq<RelationView>, ids: Seq<Seq<char>>)
    requires
        first_unknown_endpoint(rs, ids) is None,
    ensures
        forall|i: int| 0 <= i < rs.len() ==> ids.contains(#[trigger] rs[i].source_id) && ids.contains(rs[i].target_id),
    decreases rs.len(),
{
    if rs.len() > 0 {
        lemma_first_endpoint_none(rs.drop_last(), ids);
        assert forall|i: int| 0 <= i < rs.len() implies ids.contains(#[trigger] rs[i].source_id)
            && ids.contains(rs[i].target_id) by {
            if i < rs.len() - 1 {
                assert(rs.drop_last()[i] == rs[i]);
            }
        }
    }
}

/// What a successful member check adds to the assigned IDs.
proof fn lemma_check_members_ok(
    assigned: Seq<Seq<char>>,
    c: Seq<char>,
    xs: Seq<Seq<char>>,
    ids: Seq<Seq<char>>,
)
    requires
        check_members(assigned, c, xs, ids) is Ok,
    ensures
        check_members(assigned, c, xs, ids)->Ok_0 == assigned + xs,
        forall|j: int| 0 <= j < xs.len() ==> #[trigger] xs[j] != c && !assigned.contains(xs[j]) && ids.contains(xs[j]),
    decreases xs.len(),
{
    if xs.len() > 0 {
        let init = xs.drop_last();
        lemma_check_members_ok(assigned, c, init, ids);
        assert(assigned + xs =~= (assigned + init).push(xs.last()));
        assert forall|j: int| 0 <= j < xs.len() implies #[trigger] xs[j] != c && !assigned.contains(
            xs[j],
        ) && ids.contains(xs[j]) by {
            if j < xs.len() - 1 {
                assert(init[j] == xs[j]);
            } else {
                if assigned.contains(xs[j]) {
                    let k = choose|k: int| 0 <= k < assigned.len() && assigned[k] == xs[j];
                    assert((assigned + init)[k] == xs[j]);
                }
            }
        }
    }
}

/// What a valid plan guarantees: every ID it names is a graph ID, the
/// returned list holds all of them, and no canonical ID is removed.
proof fn lemma_check_plan_ok(ms: Seq<EntityMergeView>, ids: Seq<Seq<char>>)
    requires
        check_plan(ms, ids) is Ok,
    ensures
        forall|k: int| 0 <= k < ms.len() ==> ids.contains((#[trigger] ms[k]).canonical_entity_id),
        forall|k: int, j: int|
            0 <= k < ms.len() && 0 <= j < ms[k].merged_entity_ids.len() ==> ids.contains(
                #[trigger] ms[k].merged_entity_ids[j],
            ),
        forall|k: int| 0 <= k < ms.len() ==> check_plan(ms, ids)->Ok_0.contains((#[trigger] ms[k]).canonical_entity_id),
        forall|k: int, j: int|
            0 <= k < ms.len() && 0 <= j < ms[k].merged_entity_ids.len() ==> check_plan(ms, ids)->Ok_0.contains(
                #[trigger] ms[k].merged_entity_ids[j],
            ),
        forall|k: int| 0 <= k < ms.len() ==> removing_merge(ms, (#[trigger] ms[k]).canonical_entity_id) == -1,
    decreases ms.len(),
{
    if ms.len() > 0 {
        let init = ms.drop_last();
        lemma_check_plan_ok(init, ids);
        let a = check_plan(init, ids)->Ok_0;
        let m = ms.last();
        let c = m.canonical_entity_id;
        lemma_check_members_ok(a.push(c), c, m.merged_entity_ids, ids);
        let a2 = check_plan(ms, ids)->Ok_0;
        assert(a2 == a.push(c) + m.merged_entity_ids);
        assert forall|k: int| 0 <= k < ms.len() implies ids.contains(
            (#[trigger] ms[k]).canonical_entity_id,
        ) && a2.contains(ms[k].canonical_entity_id) by {
            if k < ms.len() - 1 {
                assert(init[k] == ms[k]);
                let p = choose|p: int| 0 <= p < a.len() && a[p] == init[k].canonical_entity_id;
                assert(a2[p] == a[p]);
            } else {
                assert(a2[a.len() as int] == c);
            }
        }
        assert forall|k: int, j: int|
            0 <= k < ms.len() && 0 <= j < ms[k].merged_entity_ids.len() implies ids.contains(
                #[trigger] ms[k].merged_entity_ids[j],
            ) && a2.contains(ms[k].merged_entity_ids[j]) by {
            if k < ms.len() - 1 {
                assert(init[k] == ms[k]);
                assert(init[k].merged_entity_ids[j] == ms[k].merged_entity_ids[j]);
                let p = choose|p: int| 0 <= p < a.len() && a[p] == init[k].merged_entity_ids[j];
                assert(a2[p] == a[p]);
            } else {
                assert(a2[a.len() + 1 + j] == m.merged_entity_ids[j]);
            }
        }
        assert forall|k: int| 0 <= k < ms.len() implies removing_merge(
            ms,
            (#[trigger] ms[k]).canonical_entity_id,
        ) == -1 by {
            let ck = ms[k].canonical_entity_id;
            if k < ms.len() - 1 {
                assert(init[k] == ms[k]);
                assert(removing_merge(init, ck) == -1);
                assert(a.contains(ck));
                if m.merged_entity_ids.contains(ck) {
                    let j = choose|j: int| 0 <= j < m.merged_entity_ids.len() && m.merged_entity_ids[j] == ck;
                    assert(!a.push(c).contains(m.merged_entity_ids[j]));
                    let p = choose|p: int| 0 <= p < a.len() && a[p] == ck;
                    assert(a.push(c)[p] == ck);
                }
            } else {
                lemma_removing_merge(init, c);
                if removing_merge(init, c) >= 0 {
                    let r = removing_merge(init, c);
                    let j = choose|j: int| 0 <= j < init[r].merged_entity_ids.len() && init[r].merged_entity_ids[j] == c;
                    assert(ms[r] == init[r]);
                    assert(ms[r].merged_entity_ids[j] == c);
                    assert(a.contains(c));
                }
                if m.merged_entity_ids.contains(c) {
                    let j = choose|j: int| 0 <= j < m.merged_entity_ids.len() && m.merged_entity_ids[j] == c;
                    assert(m.merged_entity_ids[j] != c);
                }
            }
        }
    }
}

/// The entity IDs after rewriting are the graph's IDs that no merge
/// removes, and they stay distinct.
proof fn lemma_rewritten_entity_ids(prefix: Seq<EntityNodeView>, ms: Seq<EntityMergeView>, es: Seq<EntityNodeView>)
    ensures
        forall|x: Seq<char>| #[trigger] entity_id_list(rewritten_entities(prefix, ms, es)).contains(x) <==> (
            entity_id_list(prefix).contains(x) && removing_merge(ms, x) == -1),
        (forall|i: int, j: int| 0 <= i < j < prefix.len() ==> #[trigger] prefix[i].id != #[trigger] prefix[j].id) ==> (
            forall|i: int, j: int| 0 <= i < j < rewritten_entities(prefix, ms, es).len() ==> #[trigger] rewritten_entities(prefix, ms, es)[i].id != #[trigger] rewritten_entities(prefix, ms, es)[j].id),
    decreases prefix.len(),
{
    if prefix.len() > 0 {
        let init = prefix.drop_last();
        lemma_rewritten_entity_ids(init, ms, es);
        let prev = rewritten_entities(init, ms, es);
        let cur = rewritten_entities(prefix, ms, es);
        let e = prefix.last();
        assert(entity_id_list(prefix) =~= entity_id_list(init).push(e.id));
        if removing_merge(ms, e.id) >= 0 {
            assert(cur == prev);
        } else {
            assert(cur.drop_last() =~= prev);
            assert(cur.last().id == e.id);
            assert(entity_id_list(cur) =~= entity_id_list(prev).push(e.id));
        }
        assert forall|x: Seq<char>| #[trigger] entity_id_list(cur).contains(x) <==> (entity_id_list(
            prefix,
        ).contains(x) && removing_merge(ms, x) == -1) by {
            vstd::seq_lib::lemma_seq_contains_after_push(entity_id_list(init), e.id, x);
            if removing_merge(ms, e.id) < 0 {
                vstd::seq_lib::lemma_seq_contains_after_push(entity_id_list(prev), e.id, x);
            }
        }
        if forall|i: int, j: int| 0 <= i < j < prefix.len() ==> #[trigger] prefix[i].id != #[trigger] prefix[j].id {
            assert forall|i: int, j: int| 0 <= i < j < init.len() implies #[trigger] init[i].id
                != #[trigger] init[j].id by {
                assert(init[i] == prefix[i] && init[j] == prefix[j]);
            }
            assert forall|i: int, j: int| 0 <= i < j < cur.len() implies #[trigger] cur[i].id
                != #[trigger] cur[j].id by {
                if j < prev.len() {
                    assert(cur[i] == prev[i] && cur[j] == prev[j]);
                } else {
                    assert(cur[i] == prev[i]);
                    assert(entity_id_list(prev)[i] == prev[i].id);
                    assert(entity_id_list(prev).contains(prev[i].id));
                    assert(entity_id_list(init).contains(prev[i].id));
                    let k = choose|k: int| 0 <= k < init.len() && entity_id_list(init)[k] == prev[i].id;
                    assert(prefix[k].id != prefix[prefix.len() - 1].id);
                }
            }
        }
    }
}

/// The ID that survives for a known ID is itself an ID of the rewritten graph.
proof fn lemma_replacement_survives(g: PropositionGraphView, ms: Seq<EntityMergeView>, x: Seq<char>)
    requires
        check_plan(ms, entity_id_list(g.entities)) is Ok,
        entity_id_list(g.entities).contains(x),
    ensures
        entity_id_list(rewritten_entities(g.entities, ms, g.entities)).contains(replacement(ms, x)),
{
    let ids = entity_id_list(g.entities);
    lemma_check_plan_ok(ms, ids);
    lemma_rewritten_entity_ids(g.entities, ms, g.entities);
    lemma_removing_merge(ms, x);
    let k = removing_merge(ms, x);
    if k >= 0 {
        assert(removing_merge(ms, ms[k].canonical_entity_id) == -1);
        assert(ids.contains(ms[k].canonical_entity_id));
    }
}

/// A graph rewritten by a plan that `rewrite_graph_with_entity_merges`
/// accepts passes `validate_graph`: its entity IDs are distinct and every
/// point and relation refers to one of them.
pub proof fn lemma_rewritten_graph_is_valid(g: PropositionGraphView, ms: Seq<EntityMergeView>)
    requires
        rewrite_error(g, ms) is None,
    ensures
        graph_violations(rewritten_graph(g, ms)) == Seq::<Seq<char>>::empty(),
{
    let ids = entity_id_list(g.entities);
    let out = rewritten_graph(g, ms);
    let out_ids = entity_id_list(out.entities);
    lemma_first_duplicate_none(g.entities);
    lemma_first_point_ref_none(g.knowledge_points, ids);
    lemma_first_endpoint_none(g.relations, ids);
    lemma_rewritten_entity_ids(g.entities, ms, g.entities);
    // distinct IDs
    lemma_distinct_no_duplicate_messages(out.entities);
    // points
    assert forall|i: int, j: int|
        0 <= i < out.knowledge_points.len() && 0 <= j < out.knowledge_points[i].entity_ids.len()
            implies out_ids.contains(#[trigger] out.knowledge_points[i].entity_ids[j]) by {
        let p = g.knowledge_points[i];
        let mapped = p.entity_ids.map_values(|id: Seq<char>| replacement(ms, id));
        assert(out.knowledge_points[i] == rewritten_point(p, ms));
        lemma_dedup_members(mapped);
        let y = out.knowledge_points[i].entity_ids[j];
        assert(dedup(mapped).contains(y));
        assert(mapped.contains(y));
        let k = choose|k: int| 0 <= k < mapped.len() && mapped[k] == y;
        assert(mapped[k] == replacement(ms, p.entity_ids[k]));
        assert(ids.contains(g.knowledge_points[i].entity_ids[k]));
        lemma_replacement_survives(g, ms, p.entity_ids[k]);
    }
    lemma_no_point_messages(out.knowledge_points, out_ids);
    // relations
    lemma_rewritten_relations_known(g.relations, ms, g);
    lemma_no_relation_messages(out.relations, out_ids);
    assert(graph_violations(out) =~= Seq::<Seq<char>>::empty());
}

proof fn lemma_dedup_members<A>(s: Seq<A>)
    ensures
        forall|x: A| #[trigger] dedup(s).contains(x) ==> s.contains(x),
    decreases s.len(),
{
    if s.len() > 0 {
        lemma_dedup_members(s.drop_last());
        assert forall|x: A| #[trigger] dedup(s).contains(x) implies s.contains(x) by {
            if dedup(s.drop_last()).contains(x) {
                assert(s.drop_last().contains(x));
                let k = choose|k: int| 0 <= k < s.drop_last().len() && s.drop_last()[k] == x;
                assert(s[k] == x);
            } else {
                assert(x == s.last());
                assert(s[s.len() - 1] == x);
            }
        }
    }
}

proof fn lemma_rewritten_relations_known(rs: Seq<RelationView>, ms: Seq<EntityMergeView>, g: PropositionGraphView)
    requires
        check_plan(ms, entity_id_list(g.entities)) is Ok,
        forall|i: int| 0 <= i < rs.len() ==> entity_id_list(g.entities).contains(#[trigger] rs[i].source_id)
            && entity_id_list(g.entities).contains(rs[i].target_id),
    ensures
        forall|i: int| 0 <= i < rewritten_relations(rs, ms).len() ==> entity_id_list(
            rewritten_entities(g.entities, ms, g.entities),
        ).contains(#[trigger] rewritten_relations(rs, ms)[i].source_id) && entity_id_list(
            rewritten_entities(g.entities, ms, g.entities),
        ).contains(rewritten_relations(rs, ms)[i].target_id),
    decreases rs.len(),
{
    if rs.len() > 0 {
        let init = rs.drop_last();
        assert forall|i: int| 0 <= i < init.len() implies entity_id_list(g.entities).contains(
            #[trigger] init[i].source_id,
        ) && entity_id_list(g.entities).contains(init[i].target_id) by {
            assert(init[i] == rs[i]);
            assert(entity_id_list(g.entities).contains(rs[i].source_id));
        }
        lemma_rewritten_relations_known(init, ms, g);
        let r = rs.last();
        assert(rs[rs.len() - 1] == r);
        assert(entity_id_list(g.entities).contains(rs[rs.len() - 1].source_id));
        assert(entity_id_list(g.entities).contains(rs[rs.len() - 1].target_id));
        lemma_replacement_survives(g, ms, r.source_id);
        lemma_replacement_survives(g, ms, r.target_id);
        let prev = rewritten_relations(init, ms);
        let cur = rewritten_relations(rs, ms);
        let out_ids = entity_id_list(rewritten_entities(g.entities, ms, g.entities));
        assert forall|i: int| 0 <= i < cur.len() implies out_ids.contains(#[trigger] cur[i].source_id)
            && out_ids.contains(cur[i].target_id) by {
            if i < prev.len() {
                assert(cur[i] == prev[i]);
            }
        }
    }
}

} // verus!
