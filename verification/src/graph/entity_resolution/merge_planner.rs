//! Merge planning: which stable entity IDs collapse together, and which
//! existing entity survives.
use vstd::prelude::*;

use crate::graph::consolidator::{entity_id_list, graph_violations};
use crate::graph::entity_resolution::graph_rewriter::{
    check_merge, check_plan, index_in, lemma_check_members_accepts, lemma_index_in, lemma_min_index_above,
    lemma_valid_graph_has_no_reference_error, position_of, reference_error, rewrite_error,
    GraphRewriteErrorView,
};
use crate::graph::entity_resolution::semantic_verifier::{EntityMatchDecision, decision_label};
use crate::graph::types::{PropositionGraph, PropositionGraphView};
use crate::text::{contains_str, strs};

verus! {

/// One transitive entity group to collapse during graph rewriting.
#[derive(Debug, Clone, PartialEq, Eq)]
pub struct EntityMerge {
    /// Stable ID retained after the merge: the group member that appears
    /// earliest in the graph's entities.
    pub canonical_entity_id: String,
    /// Stable IDs removed and rewritten to `canonical_entity_id`, in graph
    /// order, without the canonical ID.
    pub merged_entity_ids: Vec<String>,
}

/// The merges proposed for one graph, ordered by canonical graph position.
#[derive(Debug, Clone, PartialEq, Eq)]
pub struct EntityMergePlan {
    pub merges: Vec<EntityMerge>,
}

pub struct EntityMergeView {
    pub canonical_entity_id: Seq<char>,
    pub merged_entity_ids: Seq<Seq<char>>,
}

impl View for EntityMerge {
    type V = EntityMergeView;

    open spec fn view(&self) -> EntityMergeView {
        EntityMergeView {
            canonical_entity_id: self.canonical_entity_id@,
            merged_entity_ids: strs(self.merged_entity_ids@),
        }
    }
}

/// Views of a list of merges.
pub open spec fn merge_views(ms: Seq<EntityMerge>) -> Seq<EntityMergeView> {
    ms.map_values(|m: EntityMerge| m@)
}

impl View for EntityMergePlan {
    type V = Seq<EntityMergeView>;

    open spec fn view(&self) -> Seq<EntityMergeView> {
        merge_views(self.merges@)
    }
}

impl Default for EntityMergePlan {
    /// The empty plan: no merges.
    fn default() -> (r: Self)
        ensures
            r@ == Seq::<EntityMergeView>::empty(),
    {
        let r = EntityMergePlan { merges: Vec::new() };
        assert(r@ =~= Seq::<EntityMergeView>::empty());
        r
    }
}

/// The part of a semantic verification result that merge planning reads:
/// the two stable IDs of the pair and the verifier's decision.
#[derive(Debug, Clone, PartialEq, Eq)]
pub struct VerifiedEntityPair {
    pub entity_id: String,
    pub candidate_entity_id: String,
    pub decision: EntityMatchDecision,
}

pub struct VerifiedEntityPairView {
    pub entity_id: Seq<char>,
    pub candidate_entity_id: Seq<char>,
    pub decision: EntityMatchDecision,
}

impl View for VerifiedEntityPair {
    type V = VerifiedEntityPairView;

    open spec fn view(&self) -> VerifiedEntityPairView {
        VerifiedEntityPairView {
            entity_id: self.entity_id@,
            candidate_entity_id: self.candidate_entity_id@,
            decision: self.decision,
        }
    }
}

/// Views of a list of verified pairs.
pub open spec fn pair_views(ps: Seq<VerifiedEntityPair>) -> Seq<VerifiedEntityPairView> {
    ps.map_values(|p: VerifiedEntityPair| p@)
}

/// Invalid graph identity or contradictory verifier input.
#[derive(Debug, Clone, PartialEq, Eq)]
pub enum MergePlanningError {
    /// The graph's entities contain the same stable ID more than once.
    DuplicateGraphEntityId { entity_id: String },
    /// A verified pair references an entity absent from the graph.
    UnknownEntityId { entity_id: String },
    /// A malformed verified result compares one entity to itself.
    SelfPair { entity_id: String },
    /// The same unordered pair has incompatible semantic decisions.
    ConflictingPairDecisions {
        left_id: String,
        right_id: String,
        first: EntityMatchDecision,
        second: EntityMatchDecision,
    },
}

pub enum MergePlanningErrorView {
    DuplicateGraphEntityId { entity_id: Seq<char> },
    UnknownEntityId { entity_id: Seq<char> },
    SelfPair { entity_id: Seq<char> },
    ConflictingPairDecisions {
        left_id: Seq<char>,
        right_id: Seq<char>,
        first: EntityMatchDecision,
        second: EntityMatchDecision,
    },
}

impl View for MergePlanningError {
    type V = MergePlanningErrorView;

    open spec fn view(&self) -> MergePlanningErrorView {
        match self {
            MergePlanningError::DuplicateGraphEntityId { entity_id } => {
                MergePlanningErrorView::DuplicateGraphEntityId { entity_id: entity_id@ }
            },
            MergePlanningError::UnknownEntityId { entity_id } => {
                MergePlanningErrorView::UnknownEntityId { entity_id: entity_id@ }
            },
            MergePlanningError::SelfPair { entity_id } => {
                MergePlanningErrorView::SelfPair { entity_id: entity_id@ }
            },
            MergePlanningError::ConflictingPairDecisions { left_id, right_id, first, second } => {
                MergePlanningErrorView::ConflictingPairDecisions {
                    left_id: left_id@,
                    right_id: right_id@,
                    first: *first,
                    second: *second,
                }
            },
        }
    }
}

/// The message that describes a planning problem.
pub open spec fn planning_error_text(e: MergePlanningErrorView) -> Seq<char> {
    match e {
        MergePlanningErrorView::DuplicateGraphEntityId { entity_id } =>
            "Merge graph contains duplicate entity ID '"@ + entity_id + "'"@,
        MergePlanningErrorView::UnknownEntityId { entity_id } =>
            "Verified merge candidate references unknown entity ID '"@ + entity_id + "'"@,
        MergePlanningErrorView::SelfPair { entity_id } => "Verified merge candidate compares entity '"@
            + entity_id + "' with itself"@,
        MergePlanningErrorView::ConflictingPairDecisions { left_id, right_id, first, second } =>
            "Verified pair '"@ + left_id + "' and '"@ + right_id + "' has conflicting decisions "@
            + decision_label(first) + " and "@ + decision_label(second),
    }
}

impl MergePlanningError {
    /// The message that describes this problem.
    pub fn to_string(&self) -> (r: String)
        ensures
            r@ == planning_error_text(self@),
    {
        let mut out = String::new();
        match self {
            MergePlanningError::DuplicateGraphEntityId { entity_id } => {
                out.append("Merge graph contains duplicate entity ID '");
                out.append(entity_id.as_str());
                out.append("'");
            },
            MergePlanningError::UnknownEntityId { entity_id } => {
                out.append("Verified merge candidate references unknown entity ID '");
                out.append(entity_id.as_str());
                out.append("'");
            },
            MergePlanningError::SelfPair { entity_id } => {
                out.append("Verified merge candidate compares entity '");
                out.append(entity_id.as_str());
                out.append("' with itself");
            },
            MergePlanningError::ConflictingPairDecisions { left_id, right_id, first, second } => {
                out.append("Verified pair '");
                out.append(left_id.as_str());
                out.append("' and '");
                out.append(right_id.as_str());
                out.append("' has conflicting decisions ");
                out.append(first.label());
                out.append(" and ");
                out.append(second.label());
            },
        }
        out
    }
}

// =====================================================================
// Input validation
// =====================================================================
/// The first entity ID that repeats an earlier one.
pub open spec fn first_repeated_id(ids: Seq<Seq<char>>) -> Option<Seq<char>>
    decreases ids.len(),
{
    if ids.len() == 0 {
        None
    } else {
        match first_repeated_id(ids.drop_last()) {
            Some(x) => Some(x),
            None => if ids.drop_last().contains(ids.last()) {
                Some(ids.last())
            } else {
                None
            },
        }
    }
}

/// The smaller of two graph positions.
pub open spec fn low(a: int, b: int) -> int {
    if a < b {
        a
    } else {
        b
    }
}

/// The larger of two graph positions.
pub open spec fn high(a: int, b: int) -> int {
    if a < b {
        b
    } else {
        a
    }
}

/// Whether result `p` concerns the unordered pair of positions `{a, b}`,
/// written with `a` the smaller position.
pub open spec fn concerns(ids: Seq<Seq<char>>, p: VerifiedEntityPairView, a: int, b: int) -> bool {
    let l = index_in(ids, p.entity_id);
    let r = index_in(ids, p.candidate_entity_id);
    low(l, r) == a && high(l, r) == b
}

/// The decision of the first result of `pre` that concerns `{a, b}`.
pub open spec fn recorded_decision(
    ids: Seq<Seq<char>>,
    pre: Seq<VerifiedEntityPairView>,
    a: int,
    b: int,
) -> Option<EntityMatchDecision>
    decreases pre.len(),
{
    if pre.len() == 0 {
        None
    } else {
        match recorded_decision(ids, pre.drop_last(), a, b) {
            Some(d) => Some(d),
            None => if concerns(ids, pre.last(), a, b) {
                Some(pre.last().decision)
            } else {
                None
            },
        }
    }
}

/// What is wrong with result `p`, given the results `pre` before it.
pub open spec fn pair_problem(
    ids: Seq<Seq<char>>,
    pre: Seq<VerifiedEntityPairView>,
    p: VerifiedEntityPairView,
) -> Option<MergePlanningErrorView> {
    let l = index_in(ids, p.entity_id);
    let r = index_in(ids, p.candidate_entity_id);
    if l < 0 {
        Some(MergePlanningErrorView::UnknownEntityId { entity_id: p.entity_id })
    } else if r < 0 {
        Some(MergePlanningErrorView::UnknownEntityId { entity_id: p.candidate_entity_id })
    } else if l == r {
        Some(MergePlanningErrorView::SelfPair { entity_id: p.entity_id })
    } else {
        match recorded_decision(ids, pre, low(l, r), high(l, r)) {
            Some(d) => if d != p.decision {
                Some(
                    MergePlanningErrorView::ConflictingPairDecisions {
                        left_id: ids[low(l, r)],
                        right_id: ids[high(l, r)],
                        first: d,
                        second: p.decision,
                    },
                )
            } else {
                None
            },
            None => None,
        }
    }
}

/// The problem of the first result that has one.
pub open spec fn first_pair_problem(ids: Seq<Seq<char>>, ps: Seq<VerifiedEntityPairView>) -> Option<
    MergePlanningErrorView,
>
    decreases ps.len(),
{
    if ps.len() == 0 {
        None
    } else {
        match first_pair_problem(ids, ps.drop_last()) {
            Some(e) => Some(e),
            None => pair_problem(ids, ps.drop_last(), ps.last()),
        }
    }
}

// =====================================================================
// Same-entity links and their connected components
// =====================================================================
/// Whether result `p` declares positions `a` and `b` the same entity.
pub open spec fn links(ids: Seq<Seq<char>>, p: VerifiedEntityPairView, a: int, b: int) -> bool {
    let l = index_in(ids, p.entity_id);
    let r = index_in(ids, p.candidate_entity_id);
    p.decision == EntityMatchDecision::SameEntity && ((l == a && r == b) || (l == b && r == a))
}

/// Whether some result declares positions `a` and `b` the same entity.
pub open spec fn same_entity_link(ids: Seq<Seq<char>>, ps: Seq<VerifiedEntityPairView>, a: int, b: int) -> bool {
    exists|k: int| 0 <= k < ps.len() && #[trigger] links(ids, ps[k], a, b)
}

/// The same-entity relation between graph positions.
pub open spec fn link_relation(ids: Seq<Seq<char>>, ps: Seq<VerifiedEntityPairView>) -> spec_fn(int, int) -> bool {
    |a: int, b: int| same_entity_link(ids, ps, a, b)
}

/// Step `k` of `p` follows the relation `e`.
pub open spec fn step_ok(e: spec_fn(int, int) -> bool, p: Seq<int>, k: int) -> bool {
    e(p[k], p[k + 1])
}

/// A non-empty sequence of positions below `n`, each related to the next.
pub open spec fn is_walk(e: spec_fn(int, int) -> bool, n: int, p: Seq<int>) -> bool {
    &&& p.len() > 0
    &&& forall|k: int| 0 <= k < p.len() ==> 0 <= #[trigger] p[k] < n
    &&& forall|k: int| 0 <= k < p.len() - 1 ==> #[trigger] step_ok(e, p, k)
}

/// Positions `i` and `j` lie in one connected component of `e`.
pub open spec fn connected(e: spec_fn(int, int) -> bool, n: int, i: int, j: int) -> bool {
    exists|p: Seq<int>| #[trigger] is_walk(e, n, p) && p[0] == i && p.last() == j
}

/// Position `i` is related to some position.
pub open spec fn has_link(e: spec_fn(int, int) -> bool, n: int, i: int) -> bool {
    exists|j: int| 0 <= j < n && #[trigger] e(i, j)
}

/// Position `i` is the earliest member of a component with at least one
/// link: the canonical entity of a merge.
pub open spec fn is_root(e: spec_fn(int, int) -> bool, n: int, i: int) -> bool {
    &&& 0 <= i < n
    &&& has_link(e, n, i)
    &&& forall|r: int| 0 <= r < i ==> !#[trigger] connected(e, n, r, i)
}

/// The positions `k` with `i < k < j` connected to `i`, ascending.
pub open spec fn group_below(e: spec_fn(int, int) -> bool, n: int, i: int, j: int) -> Seq<int>
    decreases j - i,
{
    if j <= i + 1 {
        Seq::empty()
    } else {
        group_below(e, n, i, j - 1) + if connected(e, n, i, j - 1) {
            seq![j - 1]
        } else {
            Seq::empty()
        }
    }
}

/// The IDs at a list of positions.
pub open spec fn ids_at(ids: Seq<Seq<char>>, ks: Seq<int>) -> Seq<Seq<char>> {
    ks.map_values(|k: int| ids[k])
}

/// The merge whose canonical entity sits at root position `i`.
pub open spec fn merge_at(e: spec_fn(int, int) -> bool, ids: Seq<Seq<char>>, i: int) -> EntityMergeView {
    EntityMergeView {
        canonical_entity_id: ids[i],
        merged_entity_ids: ids_at(ids, group_below(e, ids.len() as int, i, ids.len() as int)),
    }
}

/// The merges of the roots before position `s`, in graph order.
pub open spec fn merges_before(e: spec_fn(int, int) -> bool, ids: Seq<Seq<char>>, s: int) -> Seq<EntityMergeView>
    decreases s,
{
    if s <= 0 {
        Seq::empty()
    } else {
        merges_before(e, ids, s - 1) + if is_root(e, ids.len() as int, s - 1) {
            seq![merge_at(e, ids, s - 1)]
        } else {
            Seq::empty()
        }
    }
}

/// The merge plan for a graph and a batch of verified pairs: the first
/// input problem, or one merge per connected component of same-entity
/// links with more than one member, each kept by its earliest entity.
pub open spec fn entity_merge_plan(g: PropositionGraphView, ps: Seq<VerifiedEntityPairView>) -> Result<
    Seq<EntityMergeView>,
    MergePlanningErrorView,
> {
    let ids = entity_id_list(g.entities);
    match first_repeated_id(ids) {
        Some(x) => Err(MergePlanningErrorView::DuplicateGraphEntityId { entity_id: x }),
        None => match first_pair_problem(ids, ps) {
            Some(err) => Err(err),
            None => Ok(merges_before(link_relation(ids, ps), ids, ids.len() as int)),
        },
    }
}

/// The relation is symmetric.
pub open spec fn symmetric(e: spec_fn(int, int) -> bool) -> bool {
    forall|a: int, b: int| #[trigger] e(a, b) ==> e(b, a)
}

// =====================================================================
// Walk lemmas
// =====================================================================
proof fn lemma_connected_self(e: spec_fn(int, int) -> bool, n: int, i: int)
    requires
        0 <= i < n,
    ensures
        connected(e, n, i, i),
{
    let p = seq![i];
    assert(is_walk(e, n, p));
}

proof fn lemma_connected_step(e: spec_fn(int, int) -> bool, n: int, i: int, v: int, w: int)
    requires
        connected(e, n, i, v),
        e(v, w),
        0 <= w < n,
    ensures
        connected(e, n, i, w),
{
    let p = choose|p: Seq<int>| #[trigger] is_walk(e, n, p) && p[0] == i && p.last() == v;
    let q = p.push(w);
    assert forall|k: int| 0 <= k < q.len() - 1 implies #[trigger] step_ok(e, q, k) by {
        if k < p.len() - 1 {
            assert(step_ok(e, p, k));
        }
    }
    assert forall|k: int| 0 <= k < q.len() implies 0 <= #[trigger] q[k] < n by {
        if k < p.len() {
            assert(q[k] == p[k]);
        }
    }
    assert(is_walk(e, n, q));
}

proof fn lemma_connected_symmetric(e: spec_fn(int, int) -> bool, n: int, i: int, j: int)
    requires
        symmetric(e),
        connected(e, n, i, j),
    ensures
        connected(e, n, j, i),
{
    let p = choose|p: Seq<int>| #[trigger] is_walk(e, n, p) && p[0] == i && p.last() == j;
    let len = p.len() as int;
    let q = Seq::new(p.len(), |k: int| p[len - 1 - k]);
    assert forall|k: int| 0 <= k < q.len() - 1 implies #[trigger] step_ok(e, q, k) by {
        assert(step_ok(e, p, len - 2 - k));
        assert(e(p[len - 2 - k], p[len - 1 - k]));
    }
    assert forall|k: int| 0 <= k < q.len() implies 0 <= #[trigger] q[k] < n by {
        assert(0 <= p[len - 1 - k] < n);
    }
    assert(is_walk(e, n, q));
}

proof fn lemma_connected_transitive(e: spec_fn(int, int) -> bool, n: int, i: int, j: int, k: int)
    requires
        connected(e, n, i, j),
        connected(e, n, j, k),
    ensures
        connected(e, n, i, k),
{
    let p = choose|p: Seq<int>| #[trigger] is_walk(e, n, p) && p[0] == i && p.last() == j;
    let q = choose|q: Seq<int>| #[trigger] is_walk(e, n, q) && q[0] == j && q.last() == k;
    let r = p + q.drop_first();
    let pl = p.len() as int;
    assert forall|t: int| 0 <= t < r.len() - 1 implies #[trigger] step_ok(e, r, t) by {
        if t < pl - 1 {
            assert(step_ok(e, p, t));
        } else if t == pl - 1 {
            assert(step_ok(e, q, 0));
        } else {
            assert(step_ok(e, q, t - pl + 1));
        }
    }
    assert forall|t: int| 0 <= t < r.len() implies 0 <= #[trigger] r[t] < n by {
        if t < pl {
            assert(r[t] == p[t]);
        } else {
            assert(r[t] == q[t - pl + 1]);
        }
    }
    assert(is_walk(e, n, r));
    if q.len() == 1 {
        assert(r.last() == p.last());
    } else {
        assert(r.last() == q.last());
    }
}

proof fn lemma_linked_of_connected(e: spec_fn(int, int) -> bool, n: int, i: int, j: int)
    requires
        connected(e, n, i, j),
        i != j,
    ensures
        has_link(e, n, i),
{
    let p = choose|p: Seq<int>| #[trigger] is_walk(e, n, p) && p[0] == i && p.last() == j;
    assert(p.len() > 1);
    assert(step_ok(e, p, 0));
    assert(0 <= p[1] < n);
}

/// Along a walk that starts inside a set of positions closed under `e`,
/// every position from `k` on lies in the set.
proof fn lemma_closed_walk(e: spec_fn(int, int) -> bool, n: int, lbl: Seq<usize>, tag: usize, p: Seq<int>, k: int)
    requires
        lbl.len() == n,
        is_walk(e, n, p),
        0 <= k < p.len(),
        lbl[p[k]] == tag,
        forall|v: int, w: int| 0 <= v < n && 0 <= w < n && lbl[v] == tag && #[trigger] e(v, w) ==> lbl[w] == tag,
    ensures
        lbl[p.last()] == tag,
    decreases p.len() - k,
{
    if k < p.len() - 1 {
        assert(step_ok(e, p, k));
        assert(0 <= p[k] < n && 0 <= p[k + 1] < n);
        lemma_closed_walk(e, n, lbl, tag, p, k + 1);
    }
}

/// A set of positions closed under `e` holds everything connected to one of
/// its members.
proof fn lemma_closed_component(e: spec_fn(int, int) -> bool, n: int, lbl: Seq<usize>, tag: usize, i: int, j: int)
    requires
        lbl.len() == n,
        0 <= i < n,
        lbl[i] == tag,
        forall|v: int, w: int| 0 <= v < n && 0 <= w < n && lbl[v] == tag && #[trigger] e(v, w) ==> lbl[w] == tag,
        connected(e, n, i, j),
    ensures
        lbl[j] == tag,
{
    let p = choose|p: Seq<int>| #[trigger] is_walk(e, n, p) && p[0] == i && p.last() == j;
    lemma_closed_walk(e, n, lbl, tag, p, 0);
}

/// The earliest position at or after `k` (and at most `r`) connected to `s`.
proof fn lemma_first_connected(e: spec_fn(int, int) -> bool, n: int, s: int, k: int, r: int) -> (m: int)
    requires
        0 <= k <= r,
        connected(e, n, r, s),
        forall|q: int| 0 <= q < k ==> !#[trigger] connected(e, n, q, s),
    ensures
        k <= m <= r,
        connected(e, n, m, s),
        forall|q: int| 0 <= q < m ==> !#[trigger] connected(e, n, q, s),
    decreases r - k,
{
    if connected(e, n, k, s) {
        k
    } else {
        assert forall|q: int| 0 <= q < k + 1 implies !#[trigger] connected(e, n, q, s) by {
            if q < k {
            }
        }
        lemma_first_connected(e, n, s, k + 1, r)
    }
}

// =====================================================================
// Adjacency lists
// =====================================================================
/// Character views of adjacency rows.
pub open spec fn adj_view(adj: Seq<Vec<usize>>) -> Seq<Seq<usize>> {
    adj.map_values(|row: Vec<usize>| row@)
}

/// The relation an adjacency list describes.
pub open spec fn graph_rel(adj: Seq<Vec<usize>>) -> spec_fn(int, int) -> bool {
    |a: int, b: int| 0 <= a < adj.len() && 0 <= b < adj.len() && adj_view(adj)[a].contains(b as usize)
}

/// Every adjacency entry is a position of the list.
pub open spec fn rows_bounded(adj: Seq<Vec<usize>>) -> bool {
    forall|a: int, j: int| 0 <= a < adj.len() && 0 <= j < adj[a]@.len() ==> (#[trigger] adj[a]@[j]) < adj.len()
}

/// Decisions recorded per unordered position pair, in first-seen order.
pub open spec fn record_lookup(recs: Seq<(usize, usize, EntityMatchDecision)>, a: int, b: int) -> Option<
    EntityMatchDecision,
>
    decreases recs.len(),
{
    if recs.len() == 0 {
        None
    } else if recs[0].0 == a && recs[0].1 == b {
        Some(recs[0].2)
    } else {
        record_lookup(recs.drop_first(), a, b)
    }
}

proof fn lemma_lookup_push(recs: Seq<(usize, usize, EntityMatchDecision)>, x: (usize, usize, EntityMatchDecision), a: int, b: int)
    ensures
        record_lookup(recs.push(x), a, b) == match record_lookup(recs, a, b) {
            Some(d) => Some(d),
            None => if x.0 == a && x.1 == b {
                Some(x.2)
            } else {
                None
            },
        },
    decreases recs.len(),
{
    if recs.len() > 0 {
        assert(recs.push(x)[0] == recs[0]);
        assert(recs.push(x).drop_first() =~= recs.drop_first().push(x));
        lemma_lookup_push(recs.drop_first(), x, a, b);
    } else {
        assert(recs.push(x)[0] == x);
        assert(recs.push(x).drop_first() =~= Seq::<(usize, usize, EntityMatchDecision)>::empty());
        assert(record_lookup(Seq::<(usize, usize, EntityMatchDecision)>::empty(), a, b) is None);
    }
}

proof fn lemma_recorded_some(ids: Seq<Seq<char>>, pre: Seq<VerifiedEntityPairView>, a: int, b: int)
    requires
        recorded_decision(ids, pre, a, b) is Some,
    ensures
        exists|k: int|
            0 <= k < pre.len() && #[trigger] concerns(ids, pre[k], a, b) && pre[k].decision
                == recorded_decision(ids, pre, a, b)->0,
    decreases pre.len(),
{
    if recorded_decision(ids, pre.drop_last(), a, b) is Some {
        lemma_recorded_some(ids, pre.drop_last(), a, b);
        let k = choose|k: int|
            0 <= k < pre.drop_last().len() && #[trigger] concerns(ids, pre.drop_last()[k], a, b)
                && pre.drop_last()[k].decision == recorded_decision(ids, pre.drop_last(), a, b)->0;
        assert(pre[k] == pre.drop_last()[k]);
    } else {
        assert(concerns(ids, pre[pre.len() - 1], a, b));
    }
}

proof fn lemma_link_push(ids: Seq<Seq<char>>, pre: Seq<VerifiedEntityPairView>, p: VerifiedEntityPairView, a: int, b: int)
    ensures
        same_entity_link(ids, pre.push(p), a, b) == (same_entity_link(ids, pre, a, b) || links(ids, p, a, b)),
{
    let q = pre.push(p);
    if same_entity_link(ids, pre, a, b) {
        let k = choose|k: int| 0 <= k < pre.len() && #[trigger] links(ids, pre[k], a, b);
        assert(q[k] == pre[k]);
        assert(links(ids, q[k], a, b));
    }
    if links(ids, p, a, b) {
        assert(q[pre.len() as int] == p);
        assert(links(ids, q[pre.len() as int], a, b));
    }
    if same_entity_link(ids, q, a, b) {
        let k = choose|k: int| 0 <= k < q.len() && #[trigger] links(ids, q[k], a, b);
        if k < pre.len() {
            assert(q[k] == pre[k]);
            assert(links(ids, pre[k], a, b));
        }
    }
}

proof fn lemma_first_problem_prefix(ids: Seq<Seq<char>>, ps: Seq<VerifiedEntityPairView>, k: int)
    requires
        0 <= k <= ps.len(),
        first_pair_problem(ids, ps.take(k)) is Some,
    ensures
        first_pair_problem(ids, ps) == first_pair_problem(ids, ps.take(k)),
    decreases ps.len() - k,
{
    if k < ps.len() {
        assert(ps.take(k + 1).drop_last() =~= ps.take(k));
        lemma_first_problem_prefix(ids, ps, k + 1);
    } else {
        assert(ps.take(k) =~= ps);
    }
}

/// Without input problems, every result names two distinct known positions.
proof fn lemma_no_problem_positions(ids: Seq<Seq<char>>, ps: Seq<VerifiedEntityPairView>, k: int)
    requires
        first_pair_problem(ids, ps) is None,
        0 <= k < ps.len(),
    ensures
        index_in(ids, ps[k].entity_id) >= 0,
        index_in(ids, ps[k].candidate_entity_id) >= 0,
        index_in(ids, ps[k].entity_id) != index_in(ids, ps[k].candidate_entity_id),
    decreases ps.len(),
{
    if k < ps.len() - 1 {
        assert(ps.drop_last()[k] == ps[k]);
        lemma_no_problem_positions(ids, ps.drop_last(), k);
    }
}

/// The same-entity relation is symmetric.
proof fn lemma_link_relation_symmetric(ids: Seq<Seq<char>>, ps: Seq<VerifiedEntityPairView>)
    ensures
        symmetric(link_relation(ids, ps)),
{
    assert forall|a: int, b: int| #[trigger] link_relation(ids, ps)(a, b) implies link_relation(ids, ps)(b, a) by {
        let k = choose|k: int| 0 <= k < ps.len() && #[trigger] links(ids, ps[k], a, b);
        assert(links(ids, ps[k], b, a));
    }
}

// =====================================================================
// Planning
// =====================================================================
/// The graph's entity IDs in order; fails on the first repeated ID.
fn graph_entity_ids(graph: &PropositionGraph) -> (r: Result<Vec<String>, MergePlanningError>)
    ensures
        match r {
            Ok(ids) => first_repeated_id(entity_id_list(graph@.entities)) is None && strs(ids@) == entity_id_list(
                graph@.entities,
            ),
            Err(err) => first_repeated_id(entity_id_list(graph@.entities)) == Some(err@->DuplicateGraphEntityId_entity_id)
                && err is DuplicateGraphEntityId,
        },
{
    let ghost all = entity_id_list(graph@.entities);
    let mut ids: Vec<String> = Vec::new();
    for k in 0..graph.entities.len()
        invariant
            all == entity_id_list(graph@.entities),
            all.len() == graph.entities@.len(),
            strs(ids@) == all.take(k as int),
            first_repeated_id(all.take(k as int)) is None,
    {
        assert(all.take(k + 1).drop_last() =~= all.take(k as int));
        assert(all[k as int] == graph.entities@[k as int].id@);
        if contains_str(&ids, graph.entities[k].id.as_str()) {
            proof {
                assert(first_repeated_id(all.take(k + 1)) == Some(all[k as int]));
                let mut j: int = k + 1;
                assert(first_repeated_id(all.take(j)) is Some);
            }
            let err = MergePlanningError::DuplicateGraphEntityId { entity_id: graph.entities[k].id.clone() };
            proof {
                lemma_repeated_prefix(all, k + 1);
            }
            return Err(err);
        }
        ids.push(graph.entities[k].id.clone());
        assert(strs(ids@) =~= all.take(k + 1));
    }
    assert(all.take(all.len() as int) =~= all);
    Ok(ids)
}

proof fn lemma_repeated_prefix(ids: Seq<Seq<char>>, k: int)
    requires
        0 <= k <= ids.len(),
        first_repeated_id(ids.take(k)) is Some,
    ensures
        first_repeated_id(ids) == first_repeated_id(ids.take(k)),
    decreases ids.len() - k,
{
    if k < ids.len() {
        assert(ids.take(k + 1).drop_last() =~= ids.take(k));
        lemma_repeated_prefix(ids, k + 1);
    } else {
        assert(ids.take(k) =~= ids);
    }
}

fn find_record(recs: &Vec<(usize, usize, EntityMatchDecision)>, a: usize, b: usize) -> (r: Option<EntityMatchDecision>)
    ensures
        r == record_lookup(recs@, a as int, b as int),
{
    let mut i: usize = 0;
    assert(recs@.skip(0) =~= recs@);
    while i < recs.len()
        invariant
            i <= recs@.len(),
            record_lookup(recs@, a as int, b as int) == record_lookup(recs@.skip(i as int), a as int, b as int),
        decreases recs@.len() - i,
    {
        assert(recs@.skip(i as int)[0] == recs@[i as int]);
        assert(recs@.skip(i as int).drop_first() =~= recs@.skip(i + 1));
        let (x, y, d) = recs[i];
        if x == a && y == b {
            return Some(d);
        }
        i = i + 1;
    }
    None
}

fn copy_row(row: &Vec<usize>) -> (r: Vec<usize>)
    ensures
        r@ == row@,
{
    let mut out: Vec<usize> = Vec::new();
    for k in 0..row.len()
        invariant
            out@ == row@.take(k as int),
    {
        out.push(row[k]);
        assert(out@ =~= row@.take(k + 1));
    }
    assert(row@.take(row@.len() as int) =~= row@);
    out
}

/// Validates every verified pair and links the positions of each
/// same-entity pair in both directions.
fn pair_links(ids: &Vec<String>, verified: &[VerifiedEntityPair]) -> (r: Result<Vec<Vec<usize>>, MergePlanningError>)
    ensures
        match r {
            Ok(adj) => {
                &&& first_pair_problem(strs(ids@), pair_views(verified@)) is None
                &&& adj@.len() == ids@.len()
                &&& rows_bounded(adj@)
                &&& graph_rel(adj@) == link_relation(strs(ids@), pair_views(verified@))
            },
            Err(err) => first_pair_problem(strs(ids@), pair_views(verified@)) == Some(err@),
        },
{
    let n = ids.len();
    let ghost idsv = strs(ids@);
    let ghost pv = pair_views(verified@);
    let mut adj: Vec<Vec<usize>> = Vec::new();
    for i in 0..n
        invariant
            adj@.len() == i,
            forall|a: int| 0 <= a < i ==> (#[trigger] adj@[a])@.len() == 0,
    {
        adj.push(Vec::new());
    }
    assert(graph_rel(adj@) =~= link_relation(idsv, pv.take(0)));
    let mut records: Vec<(usize, usize, EntityMatchDecision)> = Vec::new();
    for k in 0..verified.len()
        invariant
            n == ids@.len(),
            idsv == strs(ids@),
            pv == pair_views(verified@),
            pv.len() == verified@.len(),
            adj@.len() == n,
            rows_bounded(adj@),
            first_pair_problem(idsv, pv.take(k as int)) is None,
            graph_rel(adj@) == link_relation(idsv, pv.take(k as int)),
            forall|a: int, b: int|
                #[trigger] record_lookup(records@, a, b) == recorded_decision(idsv, pv.take(k as int), a, b),
    {
        let ghost pre = pv.take(k as int);
        let ghost p = pv[k as int];
        assert(pv.take(k + 1).drop_last() =~= pre);
        assert(pv.take(k + 1).last() == p);
        assert(pv.take(k + 1) =~= pre.push(p));
        let result = &verified[k];
        assert(p == result@);
        let l = match position_of(ids, result.entity_id.as_str()) {
            Some(x) => x,
            None => {
                let err = MergePlanningError::UnknownEntityId { entity_id: result.entity_id.clone() };
                proof {
                    lemma_first_problem_prefix(idsv, pv, k + 1);
                }
                return Err(err);
            },
        };
        let r = match position_of(ids, result.candidate_entity_id.as_str()) {
            Some(x) => x,
            None => {
                let err = MergePlanningError::UnknownEntityId { entity_id: result.candidate_entity_id.clone() };
                proof {
                    lemma_first_problem_prefix(idsv, pv, k + 1);
                }
                return Err(err);
            },
        };
        if l == r {
            let err = MergePlanningError::SelfPair { entity_id: result.entity_id.clone() };
            proof {
                lemma_first_problem_prefix(idsv, pv, k + 1);
            }
            return Err(err);
        }
        let (lo, hi) = if l < r {
            (l, r)
        } else {
            (r, l)
        };
        assert(lo as int == low(l as int, r as int) && hi as int == high(l as int, r as int));
        match find_record(&records, lo, hi) {
            Some(first) => {
                if first != result.decision {
                    let err = MergePlanningError::ConflictingPairDecisions {
                        left_id: ids[lo].clone(),
                        right_id: ids[hi].clone(),
                        first,
                        second: result.decision,
                    };
                    proof {
                        lemma_first_problem_prefix(idsv, pv, k + 1);
                    }
                    return Err(err);
                }
                proof {
                    assert forall|a: int, b: int|
                        #[trigger] record_lookup(records@, a, b) == recorded_decision(
                            idsv,
                            pv.take(k + 1),
                            a,
                            b,
                        ) by {
                        assert(record_lookup(records@, a, b) == recorded_decision(idsv, pre, a, b));
                    }
                    assert forall|a: int, b: int|
                        #[trigger] graph_rel(adj@)(a, b) == link_relation(idsv, pv.take(k + 1))(a, b) by {
                        lemma_link_push(idsv, pre, p, a, b);
                        assert(graph_rel(adj@)(a, b) == link_relation(idsv, pre)(a, b));
                        if links(idsv, p, a, b) {
                            lemma_recorded_some(idsv, pre, lo as int, hi as int);
                            let j = choose|j: int|
                                0 <= j < pre.len() && #[trigger] concerns(idsv, pre[j], lo as int, hi as int)
                                    && pre[j].decision == recorded_decision(idsv, pre, lo as int, hi as int)->0;
                            assert(links(idsv, pre[j], a, b));
                        }
                    }
                    assert(graph_rel(adj@) =~= link_relation(idsv, pv.take(k + 1)));
                }
            },
            None => {
                let ghost before = records@;
                records.push((lo, hi, result.decision));
                proof {
                    assert forall|a: int, b: int|
                        #[trigger] record_lookup(records@, a, b) == recorded_decision(
                            idsv,
                            pv.take(k + 1),
                            a,
                            b,
                        ) by {
                        lemma_lookup_push(before, (lo, hi, result.decision), a, b);
                    }
                }
                if result.decision == EntityMatchDecision::SameEntity {
                    let ghost old_adj = adj@;
                    let mut row = copy_row(&adj[lo]);
                    row.push(hi);
                    adj.set(lo, row);
                    let mut row2 = copy_row(&adj[hi]);
                    row2.push(lo);
                    adj.set(hi, row2);
                    proof {
                        assert forall|a: int, j: int|
                            0 <= a < adj@.len() && 0 <= j < adj@[a]@.len() implies (#[trigger] adj@[a]@[j])
                            < adj@.len() by {
                            if a != lo && a != hi {
                                assert(adj@[a] == old_adj[a]);
                            } else if j < old_adj[a]@.len() {
                                assert(adj@[a]@[j] == old_adj[a]@[j]);
                            }
                        }
                        assert forall|a: int, b: int|
                            #[trigger] graph_rel(adj@)(a, b) == link_relation(idsv, pv.take(k + 1))(a, b) by {
                            lemma_link_push(idsv, pre, p, a, b);
                            assert(graph_rel(old_adj)(a, b) == link_relation(idsv, pre)(a, b));
                            if 0 <= a < n && 0 <= b < n {
                                if a == lo {
                                    assert(adj_view(adj@)[a] == adj_view(old_adj)[a].push(hi));
                                    if b != hi {
                                        if adj_view(adj@)[a].contains(b as usize) {
                                            let t = choose|t: int| 0 <= t < adj_view(adj@)[a].len() && adj_view(adj@)[a][t] == b as usize;
                                            assert(adj_view(old_adj)[a][t] == b as usize);
                                        }
                                    } else {
                                        assert(adj_view(adj@)[a][adj_view(adj@)[a].len() - 1] == hi);
                                    }
                                    if adj_view(old_adj)[a].contains(b as usize) {
                                        let t = choose|t: int| 0 <= t < adj_view(old_adj)[a].len() && adj_view(old_adj)[a][t] == b as usize;
                                        assert(adj_view(adj@)[a][t] == b as usize);
                                    }
                                } else if a == hi {
                                    assert(adj_view(adj@)[a] == adj_view(old_adj)[a].push(lo));
                                    if b != lo {
                                        if adj_view(adj@)[a].contains(b as usize) {
                                            let t = choose|t: int| 0 <= t < adj_view(adj@)[a].len() && adj_view(adj@)[a][t] == b as usize;
                                            assert(adj_view(old_adj)[a][t] == b as usize);
                                        }
                                    } else {
                                        assert(adj_view(adj@)[a][adj_view(adj@)[a].len() - 1] == lo);
                                    }
                                    if adj_view(old_adj)[a].contains(b as usize) {
                                        let t = choose|t: int| 0 <= t < adj_view(old_adj)[a].len() && adj_view(old_adj)[a][t] == b as usize;
                                        assert(adj_view(adj@)[a][t] == b as usize);
                                    }
                                } else {
                                    assert(adj_view(adj@)[a] == adj_view(old_adj)[a]);
                                }
                            }
                        }
                        assert(graph_rel(adj@) =~= link_relation(idsv, pv.take(k + 1)));
                    }
                } else {
                    proof {
                        assert forall|a: int, b: int|
                            #[trigger] graph_rel(adj@)(a, b) == link_relation(idsv, pv.take(k + 1))(a, b) by {
                            lemma_link_push(idsv, pre, p, a, b);
                            assert(graph_rel(adj@)(a, b) == link_relation(idsv, pre)(a, b));
                        }
                        assert(graph_rel(adj@) =~= link_relation(idsv, pv.take(k + 1)));
                    }
                }
            },
        }
    }
    assert(pv.take(verified@.len() as int) =~= pv);
    Ok(adj)
}

// =====================================================================
// Connected components
// =====================================================================
/// The number of positions still marked with the free label `n`.
pub open spec fn count_free(lbl: Seq<usize>, n: usize) -> nat
    decreases lbl.len(),
{
    if lbl.len() == 0 {
        0
    } else {
        count_free(lbl.drop_last(), n) + if lbl.last() == n {
            1nat
        } else {
            0nat
        }
    }
}

proof fn lemma_count_free_claim(lbl: Seq<usize>, n: usize, i: int, x: usize)
    requires
        0 <= i < lbl.len(),
        lbl[i] == n,
        x != n,
    ensures
        count_free(lbl.update(i, x), n) + 1 == count_free(lbl, n),
    decreases lbl.len(),
{
    if i == lbl.len() - 1 {
        assert(lbl.update(i, x).drop_last() =~= lbl.drop_last());
    } else {
        assert(lbl.update(i, x).drop_last() =~= lbl.drop_last().update(i, x));
        lemma_count_free_claim(lbl.drop_last(), n, i, x);
    }
}

/// Position `v`, when labelled, carries the label of an earlier root of
/// its component.
pub open spec fn claimed(e: spec_fn(int, int) -> bool, n: usize, s: int, lbl: Seq<usize>, v: int) -> bool {
    lbl[v] != n ==> {
        &&& lbl[v] < s
        &&& is_root(e, n as int, lbl[v] as int)
        &&& connected(e, n as int, lbl[v] as int, v)
    }
}

/// Position `v`, when unlabelled, is connected to no root before `s`.
pub open spec fn unclaimed(e: spec_fn(int, int) -> bool, n: usize, s: int, lbl: Seq<usize>, v: int) -> bool {
    lbl[v] == n ==> forall|r: int| 0 <= r < s && is_root(e, n as int, r) ==> !#[trigger] connected(e, n as int, r, v)
}

/// Every neighbour of `v` is labelled.
pub open spec fn neighbours_labelled(adj: Seq<Vec<usize>>, lbl: Seq<usize>, n: usize, v: int) -> bool {
    forall|j: int| 0 <= j < adj[v]@.len() ==> lbl[#[trigger] adj[v]@[j] as int] != n
}

/// Labels every position connected to the root `start` with `start`,
/// leaving earlier labels untouched.
fn claim_component(adjacency: &Vec<Vec<usize>>, label: &mut Vec<usize>, start: usize)
    requires
        old(label)@.len() == adjacency@.len(),
        start < adjacency@.len(),
        old(label)@[start as int] == adjacency@.len(),
        is_root(graph_rel(adjacency@), adjacency@.len() as int, start as int),
        rows_bounded(adjacency@),
        symmetric(graph_rel(adjacency@)),
        forall|v: int|
            0 <= v < adjacency@.len() ==> #[trigger] claimed(
                graph_rel(adjacency@),
                adjacency@.len() as usize,
                start as int,
                old(label)@,
                v,
            ),
    ensures
        final(label)@.len() == adjacency@.len(),
        forall|v: int|
            0 <= v < adjacency@.len() && old(label)@[v] != adjacency@.len() ==> final(label)@[v] == old(label)@[v],
        forall|v: int|
            0 <= v < adjacency@.len() && old(label)@[v] == adjacency@.len() ==> (final(label)@[v]
                == adjacency@.len() || final(label)@[v] == start),
        forall|v: int|
            0 <= v < adjacency@.len() ==> (final(label)@[v] == start <==> connected(
                graph_rel(adjacency@),
                adjacency@.len() as int,
                start as int,
                v,
            )),
{
    let n = adjacency.len();
    let ghost e = graph_rel(adjacency@);
    let ghost l0 = label@;
    proof {
        lemma_connected_self(e, n as int, start as int);
        lemma_count_free_claim(label@, n, start as int, start);
    }
    proof {
        assert forall|v: int| 0 <= v < n implies #[trigger] claimed(e, n, start as int, l0, v) by {
            assert(claimed(graph_rel(adjacency@), adjacency@.len() as usize, start as int, old(label)@, v));
        }
    }
    label.set(start, start);
    let mut stack: Vec<usize> = Vec::new();
    stack.push(start);
    proof {
        assert forall|v: int| 0 <= v < n && #[trigger] label@[v] == start implies connected(e, n as int, start as int, v) && v == start by {
            if v != start {
                assert(claimed(e, n, start as int, l0, v));
            }
        }
        assert(stack@[0] == start);
        assert(stack@.contains(start));
    }
    while stack.len() > 0
        invariant
            n == adjacency@.len(),
            e == graph_rel(adjacency@),
            rows_bounded(adjacency@),
            symmetric(e),
            start < n,
            l0.len() == n,
            label@.len() == n,
            l0[start as int] == n,
            label@[start as int] == start,
            is_root(e, n as int, start as int),
            forall|v: int| 0 <= v < n ==> #[trigger] claimed(e, n, start as int, l0, v),
            forall|v: int| 0 <= v < n && l0[v] != n ==> label@[v] == l0[v],
            forall|v: int| 0 <= v < n && l0[v] == n ==> (label@[v] == n || label@[v] == start),
            forall|v: int| 0 <= v < n && #[trigger] label@[v] == start ==> connected(e, n as int, start as int, v),
            forall|i: int| 0 <= i < stack@.len() ==> (#[trigger] stack@[i]) < n && label@[stack@[i] as int] == start,
            stack@.no_duplicates(),
            forall|v: int|
                0 <= v < n && label@[v] == start && !stack@.contains(v as usize) ==> #[trigger] neighbours_labelled(
                    adjacency@,
                    label@,
                    n,
                    v,
                ),
        decreases 2 * count_free(label@, n) + stack@.len(),
    {
        let ghost before = stack@;
        let v = stack.pop().unwrap();
        proof {
            assert(stack@ =~= before.drop_last());
            assert(!stack@.contains(v)) by {
                if stack@.contains(v) {
                    let t = choose|t: int| 0 <= t < stack@.len() && stack@[t] == v;
                    assert(before[t] == before[before.len() - 1]);
                }
            }
            assert(v == before[before.len() - 1]);
            assert forall|u: int|
                0 <= u < n && u != v && label@[u] == start && !stack@.contains(u as usize) implies #[trigger] neighbours_labelled(
                    adjacency@,
                    label@,
                    n,
                    u,
                ) by {
                if before.contains(u as usize) {
                    let t = choose|t: int| 0 <= t < before.len() && before[t] == u as usize;
                    if t < before.len() - 1 {
                        assert(stack@[t] == u as usize);
                    }
                }
            }
        }
        let ghost measure = 2 * count_free(label@, n) + stack@.len();
        let row = &adjacency[v];
        for j in 0..row.len()
            invariant
                n == adjacency@.len(),
                e == graph_rel(adjacency@),
                rows_bounded(adjacency@),
                symmetric(e),
                start < n,
                v < n,
                row@ == adjacency@[v as int]@,
                l0.len() == n,
                label@.len() == n,
                forall|u: int| 0 <= u < n && l0[u] != n ==> label@[u] == l0[u],
                forall|u: int| 0 <= u < n && l0[u] == n ==> (label@[u] == n || label@[u] == start),
                forall|u: int| 0 <= u < n && #[trigger] label@[u] == start ==> connected(e, n as int, start as int, u),
                label@[v as int] == start,
                label@[start as int] == start,
                !stack@.contains(v),
                forall|i: int| 0 <= i < stack@.len() ==> (#[trigger] stack@[i]) < n && label@[stack@[i] as int] == start,
                stack@.no_duplicates(),
                forall|u: int|
                    0 <= u < n && u != v && label@[u] == start && !stack@.contains(u as usize) ==> #[trigger] neighbours_labelled(
                        adjacency@,
                        label@,
                        n,
                        u,
                    ),
                forall|jj: int| 0 <= jj < j ==> label@[#[trigger] row@[jj] as int] != n,
                2 * count_free(label@, n) + stack@.len() <= measure,
        {
            let w = row[j];
            assert(w < n) by {
                assert(adjacency@[v as int]@[j as int] == w);
            }
            if label[w] == n {
                proof {
                    assert(e(v as int, w as int)) by {
                        assert(adjacency@[v as int]@[j as int] == w);
                        assert(adj_view(adjacency@)[v as int] == adjacency@[v as int]@);
                    }
                    lemma_connected_step(e, n as int, start as int, v as int, w as int);
                    lemma_count_free_claim(label@, n, w as int, start);
                }
                let ghost lbefore = label@;
                let ghost sbefore = stack@;
                label.set(w, start);
                stack.push(w);
                proof {
                    assert(stack@[stack@.len() - 1] == w);
                    assert(!sbefore.contains(w)) by {
                        if sbefore.contains(w) {
                            let t = choose|t: int| 0 <= t < sbefore.len() && sbefore[t] == w;
                        }
                    }
                    assert forall|i: int, k: int| 0 <= i < k < stack@.len() implies stack@[i] != stack@[k] by {
                        if k < sbefore.len() {
                            assert(sbefore[i] != sbefore[k]);
                        } else {
                            assert(stack@[i] == sbefore[i]);
                        }
                    }
                    assert forall|u: int|
                        0 <= u < n && u != v && label@[u] == start && !stack@.contains(
                            u as usize,
                        ) implies #[trigger] neighbours_labelled(adjacency@, label@, n, u) by {
                        assert(u != w);
                        assert(!sbefore.contains(u as usize)) by {
                            if sbefore.contains(u as usize) {
                                let t = choose|t: int| 0 <= t < sbefore.len() && sbefore[t] == u as usize;
                                assert(stack@[t] == u as usize);
                            }
                        }
                        assert(neighbours_labelled(adjacency@, lbefore, n, u));
                        assert forall|jj: int| 0 <= jj < adjacency@[u]@.len() implies label@[#[trigger] adjacency@[u]@[jj] as int] != n by {
                            assert(lbefore[adjacency@[u]@[jj] as int] != n);
                        }
                    }
                    assert(!stack@.contains(v)) by {
                        if stack@.contains(v) {
                            let t = choose|t: int| 0 <= t < stack@.len() && stack@[t] == v;
                            if t < sbefore.len() {
                                assert(sbefore[t] == v);
                            }
                        }
                    }
                }
            }
        }
        proof {
            assert(neighbours_labelled(adjacency@, label@, n, v as int));
        }
    }
    proof {
        assert forall|a: int, b: int| 0 <= a < n && 0 <= b < n && label@[a] == start && #[trigger] e(a, b) implies label@[b] == start by {
            assert(!stack@.contains(a as usize));
            assert(neighbours_labelled(adjacency@, label@, n, a));
            let t = choose|t: int| 0 <= t < adj_view(adjacency@)[a].len() && adj_view(adjacency@)[a][t] == b as usize;
            assert(adjacency@[a]@[t] == b as usize);
            assert(label@[b] != n);
            if label@[b] != start {
                assert(l0[b] != n);
                let r = l0[b] as int;
                assert(claimed(e, n, start as int, l0, b));
                assert(e(b, a));
                lemma_connected_step(e, n as int, r, b, a);
                lemma_connected_symmetric(e, n as int, start as int, a);
                lemma_connected_transitive(e, n as int, r, a, start as int);
                assert(!connected(e, n as int, r, start as int));
            }
        }
        assert forall|v: int| 0 <= v < n implies (label@[v] == start <==> connected(e, n as int, start as int, v)) by {
            if connected(e, n as int, start as int, v) {
                lemma_closed_component(e, n as int, label@, start, start as int, v);
            }
        }
    }
}

/// The positions after `s` and before `j` labelled `s`, ascending.
pub open spec fn labelled_below(lbl: Seq<usize>, s: int, j: int) -> Seq<int>
    decreases j - s,
{
    if j <= s + 1 {
        Seq::empty()
    } else {
        labelled_below(lbl, s, j - 1) + if lbl[j - 1] == s {
            seq![j - 1]
        } else {
            Seq::empty()
        }
    }
}

proof fn lemma_labelled_group(e: spec_fn(int, int) -> bool, n: int, lbl: Seq<usize>, s: int, j: int)
    requires
        0 <= s < j <= n,
        lbl.len() == n,
        forall|v: int| 0 <= v < n ==> (lbl[v] == s <==> connected(e, n, s, v)),
    ensures
        labelled_below(lbl, s, j) == group_below(e, n, s, j),
    decreases j - s,
{
    if j > s + 1 {
        lemma_labelled_group(e, n, lbl, s, j - 1);
    }
}

/// The IDs of the positions after `start` labelled `start`, in graph order.
fn collect_group(ids: &Vec<String>, label: &Vec<usize>, start: usize) -> (r: Vec<String>)
    requires
        label@.len() == ids@.len(),
        start < ids@.len(),
    ensures
        strs(r@) == ids_at(strs(ids@), labelled_below(label@, start as int, ids@.len() as int)),
{
    let mut out: Vec<String> = Vec::new();
    assert(strs(out@) =~= ids_at(strs(ids@), labelled_below(label@, start as int, start + 1)));
    for k in start + 1..ids.len()
        invariant
            label@.len() == ids@.len(),
            start < ids@.len(),
            strs(out@) == ids_at(strs(ids@), labelled_below(label@, start as int, k as int)),
    {
        let ghost prev = labelled_below(label@, start as int, k as int);
        assert(start + 1 <= k);
        let ghost before = out@;
        if label[k] == start {
            out.push(ids[k].clone());
            assert(labelled_below(label@, start as int, k + 1) == prev + seq![k as int]);
            assert(ids_at(strs(ids@), prev + seq![k as int]) =~= ids_at(strs(ids@), prev).push(strs(ids@)[k as int]));
            assert(strs(out@) =~= strs(before).push(ids@[k as int]@));
        } else {
            assert(labelled_below(label@, start as int, k + 1) =~= prev);
        }
        assert(strs(out@) =~= ids_at(strs(ids@), labelled_below(label@, start as int, k + 1)));
    }
    out
}

/// Groups positions into the connected components of the adjacency
/// relation; one merge per component with a link, in graph order, kept by
/// its earliest member.
fn connected_merge_groups(ids: &Vec<String>, adjacency: &Vec<Vec<usize>>) -> (r: Vec<EntityMerge>)
    requires
        adjacency@.len() == ids@.len(),
        rows_bounded(adjacency@),
        symmetric(graph_rel(adjacency@)),
    ensures
        merge_views(r@) == merges_before(graph_rel(adjacency@), strs(ids@), ids@.len() as int),
{
    let n = ids.len();
    let ghost e = graph_rel(adjacency@);
    let ghost idsv = strs(ids@);
    let mut label: Vec<usize> = Vec::new();
    for i in 0..n
        invariant
            label@.len() == i,
            forall|v: int| 0 <= v < i ==> label@[v] == n,
    {
        label.push(n);
    }
    let mut merges: Vec<EntityMerge> = Vec::new();
    assert(merge_views(merges@) =~= merges_before(e, idsv, 0));
    let mut start: usize = 0;
    while start < n
        invariant
            start <= n,
            n == ids@.len(),
            n == adjacency@.len(),
            e == graph_rel(adjacency@),
            idsv == strs(ids@),
            rows_bounded(adjacency@),
            symmetric(e),
            label@.len() == n,
            forall|v: int| 0 <= v < n ==> #[trigger] claimed(e, n, start as int, label@, v),
            forall|v: int| 0 <= v < n ==> #[trigger] unclaimed(e, n, start as int, label@, v),
            merge_views(merges@) == merges_before(e, idsv, start as int),
        decreases n - start,
    {
        if adjacency[start].len() == 0 || label[start] != n {
            proof {
                assert(!is_root(e, n as int, start as int)) by {
                    if adjacency@[start as int]@.len() == 0 {
                        if has_link(e, n as int, start as int) {
                            let j = choose|j: int| 0 <= j < n && #[trigger] e(start as int, j);
                            assert(adj_view(adjacency@)[start as int] == adjacency@[start as int]@);
                        }
                    } else {
                        assert(claimed(e, n, start as int, label@, start as int));
                    }
                }
                assert(merges_before(e, idsv, start + 1) =~= merges_before(e, idsv, start as int));
                assert forall|v: int| 0 <= v < n implies #[trigger] claimed(e, n, start + 1, label@, v) by {
                    assert(claimed(e, n, start as int, label@, v));
                }
                assert forall|v: int| 0 <= v < n implies #[trigger] unclaimed(e, n, start + 1, label@, v) by {
                    assert(unclaimed(e, n, start as int, label@, v));
                    if label@[v] == n {
                        assert forall|r: int| 0 <= r < start + 1 && is_root(e, n as int, r) implies !#[trigger] connected(e, n as int, r, v) by {
                            if r < start {
                            }
                        }
                    }
                }
            }
        } else {
            proof {
                let w = adjacency@[start as int]@[0];
                assert(w < n);
                assert(adj_view(adjacency@)[start as int] == adjacency@[start as int]@);
                assert(e(start as int, w as int));
                assert forall|r: int| 0 <= r < start implies !#[trigger] connected(e, n as int, r, start as int) by {
                    if connected(e, n as int, r, start as int) {
                        let m = lemma_first_connected(e, n as int, start as int, 0, r);
                        lemma_linked_of_connected(e, n as int, m, start as int);
                        assert forall|q: int| 0 <= q < m implies !#[trigger] connected(e, n as int, q, m) by {
                            if connected(e, n as int, q, m) {
                                lemma_connected_transitive(e, n as int, q, m, start as int);
                            }
                        }
                        assert(is_root(e, n as int, m));
                        assert(unclaimed(e, n, start as int, label@, start as int));
                    }
                }
                assert(is_root(e, n as int, start as int));
            }
            let ghost l0 = label@;
            claim_component(adjacency, &mut label, start);
            let merged = collect_group(ids, &label, start);
            proof {
                lemma_labelled_group(e, n as int, label@, start as int, n as int);
            }
            let merge = EntityMerge { canonical_entity_id: ids[start].clone(), merged_entity_ids: merged };
            let ghost prev = merges@;
            merges.push(merge);
            proof {
                assert(merge@ == merge_at(e, idsv, start as int));
                assert(merge_views(merges@) =~= merge_views(prev).push(merge@));
                assert(merges_before(e, idsv, start + 1) == merges_before(e, idsv, start as int) + seq![merge_at(e, idsv, start as int)]);
                assert forall|v: int| 0 <= v < n implies #[trigger] claimed(e, n, start + 1, label@, v) by {
                    assert(claimed(e, n, start as int, l0, v));
                    if l0[v] != n {
                        assert(label@[v] == l0[v]);
                    } else if label@[v] == start {
                        assert(connected(e, n as int, start as int, v));
                    }
                }
                assert forall|v: int| 0 <= v < n implies #[trigger] unclaimed(e, n, start + 1, label@, v) by {
                    assert(unclaimed(e, n, start as int, l0, v));
                    if label@[v] == n {
                        assert(l0[v] == n);
                        assert(!connected(e, n as int, start as int, v));
                        assert forall|r: int| 0 <= r < start + 1 && is_root(e, n as int, r) implies !#[trigger] connected(e, n as int, r, v) by {
                            if r < start {
                            }
                        }
                    }
                }
            }
        }
        start = start + 1;
    }
    merges
}

/// Builds a deterministic merge plan from semantic verification results.
///
/// Only `SameEntity` decisions link entities, and links are transitive:
/// `A = B` and `B = C` give one `A/B/C` group. `DifferentEntity` and
/// `Uncertain` are validated but never merged. Each group is kept by its
/// member that comes first in the graph, so the order and direction of the
/// verified pairs cannot change the plan.
///
/// Fails on a repeated graph ID, a pair naming an unknown entity, a pair of
/// one entity with itself, or one unordered pair with two different
/// decisions.
pub fn build_entity_merge_plan(graph: &PropositionGraph, verified: &[VerifiedEntityPair]) -> (r: Result<
    EntityMergePlan,
    MergePlanningError,
>)
    ensures
        match r {
            Ok(plan) => entity_merge_plan(graph@, pair_views(verified@)) == Ok::<Seq<EntityMergeView>, MergePlanningErrorView>(plan@),
            Err(err) => entity_merge_plan(graph@, pair_views(verified@)) == Err::<Seq<EntityMergeView>, MergePlanningErrorView>(err@),
        },
{
    let ids = match graph_entity_ids(graph) {
        Ok(ids) => ids,
        Err(err) => {
            return Err(err);
        },
    };
    let adjacency = match pair_links(&ids, verified) {
        Ok(adj) => adj,
        Err(err) => {
            return Err(err);
        },
    };
    proof {
        lemma_link_relation_symmetric(strs(ids@), pair_views(verified@));
    }
    let merges = connected_merge_groups(&ids, &adjacency);
    Ok(EntityMergePlan { merges })
}

// =====================================================================
// Laws
// =====================================================================
/// Two results name the same unordered entity pair with the same decision.
pub open spec fn same_result(x: VerifiedEntityPairView, y: VerifiedEntityPairView) -> bool {
    &&& x.decision == y.decision
    &&& (x.entity_id == y.entity_id && x.candidate_entity_id == y.candidate_entity_id) || (x.entity_id
        == y.candidate_entity_id && x.candidate_entity_id == y.entity_id)
}

/// Result `x` occurs in `p`, possibly reversed.
pub open spec fn occurs_in(x: VerifiedEntityPairView, p: Seq<VerifiedEntityPairView>) -> bool {
    exists|j: int| 0 <= j < p.len() && #[trigger] same_result(x, p[j])
}

/// Every result of `p1` occurs in `p2`, possibly reversed.
pub open spec fn covered_by(p1: Seq<VerifiedEntityPairView>, p2: Seq<VerifiedEntityPairView>) -> bool {
    forall|i: int| 0 <= i < p1.len() ==> #[trigger] occurs_in(p1[i], p2)
}

proof fn lemma_covered_links(ids: Seq<Seq<char>>, p1: Seq<VerifiedEntityPairView>, p2: Seq<VerifiedEntityPairView>, a: int, b: int)
    requires
        covered_by(p1, p2),
        same_entity_link(ids, p1, a, b),
    ensures
        same_entity_link(ids, p2, a, b),
{
    let i = choose|i: int| 0 <= i < p1.len() && #[trigger] links(ids, p1[i], a, b);
    assert(occurs_in(p1[i], p2));
    let j = choose|j: int| 0 <= j < p2.len() && #[trigger] same_result(p1[i], p2[j]);
    assert(links(ids, p2[j], a, b));
}

/// Both IDs of result `p` are graph entities, and they differ.
pub open spec fn pair_known(ids: Seq<Seq<char>>, p: VerifiedEntityPairView) -> bool {
    let l = index_in(ids, p.entity_id);
    let r = index_in(ids, p.candidate_entity_id);
    l >= 0 && r >= 0 && l != r
}

/// Results `x` and `y` concern the same unordered pair of graph positions.
pub open spec fn same_pair(ids: Seq<Seq<char>>, x: VerifiedEntityPairView, y: VerifiedEntityPairView) -> bool {
    let l = index_in(ids, x.entity_id);
    let r = index_in(ids, x.candidate_entity_id);
    concerns(ids, y, low(l, r), high(l, r))
}

/// Every result names two distinct graph entities, and results about one
/// unordered pair agree on the decision.
pub open spec fn consistent_batch(ids: Seq<Seq<char>>, ps: Seq<VerifiedEntityPairView>) -> bool {
    &&& forall|k: int| 0 <= k < ps.len() ==> pair_known(ids, #[trigger] ps[k])
    &&& forall|i: int, j: int|
        0 <= i < ps.len() && 0 <= j < ps.len() && same_pair(ids, #[trigger] ps[i], #[trigger] ps[j])
            ==> ps[i].decision == ps[j].decision
}

proof fn lemma_recorded_decision(ids: Seq<Seq<char>>, pre: Seq<VerifiedEntityPairView>, a: int, b: int)
    ensures
        recorded_decision(ids, pre, a, b) is None <==> forall|k: int|
            0 <= k < pre.len() ==> !concerns(ids, #[trigger] pre[k], a, b),
        recorded_decision(ids, pre, a, b) matches Some(d) ==> exists|k: int|
            0 <= k < pre.len() && concerns(ids, #[trigger] pre[k], a, b) && pre[k].decision == d,
    decreases pre.len(),
{
    if pre.len() > 0 {
        let q = pre.drop_last();
        lemma_recorded_decision(ids, q, a, b);
        assert forall|k: int| 0 <= k < q.len() implies q[k] == pre[k] by {}
        if recorded_decision(ids, q, a, b) is None {
            if !concerns(ids, pre.last(), a, b) {
                assert forall|k: int| 0 <= k < pre.len() implies !concerns(ids, #[trigger] pre[k], a, b) by {
                    if k < q.len() {
                        assert(q[k] == pre[k]);
                    }
                }
            }
        } else {
            let d = recorded_decision(ids, q, a, b)->Some_0;
            let k = choose|k: int| 0 <= k < q.len() && concerns(ids, #[trigger] q[k], a, b) && q[k].decision == d;
            assert(pre[k] == q[k]);
        }
    }
}

/// The results pass the pair checks exactly when the batch is consistent.
proof fn lemma_no_pair_problem(ids: Seq<Seq<char>>, ps: Seq<VerifiedEntityPairView>)
    ensures
        first_pair_problem(ids, ps) is None <==> consistent_batch(ids, ps),
    decreases ps.len(),
{
    if ps.len() > 0 {
        let q = ps.drop_last();
        let x = ps.last();
        let n = ps.len() - 1;
        lemma_no_pair_problem(ids, q);
        let l = index_in(ids, x.entity_id);
        let r = index_in(ids, x.candidate_entity_id);
        lemma_recorded_decision(ids, q, low(l, r), high(l, r));
        assert forall|k: int| 0 <= k < q.len() implies q[k] == ps[k] by {}
        if first_pair_problem(ids, ps) is None {
            assert(consistent_batch(ids, q));
            assert(pair_known(ids, x));
            assert forall|k: int| 0 <= k < ps.len() implies pair_known(ids, #[trigger] ps[k]) by {
                if k < n {
                    assert(q[k] == ps[k]);
                }
            }
            assert forall|i: int, j: int|
                0 <= i < ps.len() && 0 <= j < ps.len() && same_pair(ids, #[trigger] ps[i], #[trigger] ps[j])
                implies ps[i].decision == ps[j].decision by {
                lemma_same_pair_symmetric(ids, ps[i], ps[j]);
                if i < n && j < n {
                    assert(q[i] == ps[i] && q[j] == ps[j]);
                } else if i == n && j == n {
                } else {
                    let k = if i == n { j } else { i };
                    assert(q[k] == ps[k]);
                    assert(concerns(ids, q[k], low(l, r), high(l, r)));
                    let d = recorded_decision(ids, q, low(l, r), high(l, r))->Some_0;
                    let k0 = choose|k0: int|
                        0 <= k0 < q.len() && concerns(ids, #[trigger] q[k0], low(l, r), high(l, r))
                            && q[k0].decision == d;
                    lemma_concerns_same_pair(ids, q[k0], q[k], low(l, r), high(l, r));
                }
            }
        } else if consistent_batch(ids, ps) {
            assert forall|k: int| 0 <= k < q.len() implies pair_known(ids, #[trigger] q[k]) by {
                assert(q[k] == ps[k]);
            }
            assert forall|i: int, j: int|
                0 <= i < q.len() && 0 <= j < q.len() && same_pair(ids, #[trigger] q[i], #[trigger] q[j])
                implies q[i].decision == q[j].decision by {
                assert(q[i] == ps[i] && q[j] == ps[j]);
            }
            assert(pair_known(ids, ps[n]));
            if recorded_decision(ids, q, low(l, r), high(l, r)) is Some {
                let d = recorded_decision(ids, q, low(l, r), high(l, r))->Some_0;
                let k0 = choose|k0: int|
                    0 <= k0 < q.len() && concerns(ids, #[trigger] q[k0], low(l, r), high(l, r))
                        && q[k0].decision == d;
                assert(q[k0] == ps[k0]);
                assert(same_pair(ids, ps[n], ps[k0]));
            }
        }
    }
}

proof fn lemma_same_pair_symmetric(ids: Seq<Seq<char>>, x: VerifiedEntityPairView, y: VerifiedEntityPairView)
    ensures
        same_pair(ids, x, y) == same_pair(ids, y, x),
{
}

proof fn lemma_concerns_same_pair(
    ids: Seq<Seq<char>>,
    x: VerifiedEntityPairView,
    y: VerifiedEntityPairView,
    a: int,
    b: int,
)
    requires
        concerns(ids, x, a, b),
        concerns(ids, y, a, b),
    ensures
        same_pair(ids, x, y),
{
}

/// A batch covered by a consistent batch is consistent.
proof fn lemma_covered_consistent(ids: Seq<Seq<char>>, p1: Seq<VerifiedEntityPairView>, p2: Seq<VerifiedEntityPairView>)
    requires
        consistent_batch(ids, p1),
        covered_by(p2, p1),
    ensures
        consistent_batch(ids, p2),
{
    assert forall|k: int| 0 <= k < p2.len() implies pair_known(ids, #[trigger] p2[k]) by {
        assert(occurs_in(p2[k], p1));
        let j = choose|j: int| 0 <= j < p1.len() && #[trigger] same_result(p2[k], p1[j]);
        assert(pair_known(ids, p1[j]));
    }
    assert forall|i: int, j: int|
        0 <= i < p2.len() && 0 <= j < p2.len() && same_pair(ids, #[trigger] p2[i], #[trigger] p2[j])
        implies p2[i].decision == p2[j].decision by {
        assert(occurs_in(p2[i], p1));
        assert(occurs_in(p2[j], p1));
        let a = choose|a: int| 0 <= a < p1.len() && #[trigger] same_result(p2[i], p1[a]);
        let b = choose|b: int| 0 <= b < p1.len() && #[trigger] same_result(p2[j], p1[b]);
        assert(same_pair(ids, p1[a], p1[b]));
    }
}

/// The plan does not depend on the order or the direction of the verified
/// pairs: two batches holding the same results, each possibly listed in
/// another position and with its two IDs swapped, both succeed or both
/// fail, and when they succeed they give the same plan.
pub proof fn lemma_plan_ignores_pair_order_and_direction(
    g: PropositionGraphView,
    p1: Seq<VerifiedEntityPairView>,
    p2: Seq<VerifiedEntityPairView>,
)
    requires
        covered_by(p1, p2),
        covered_by(p2, p1),
    ensures
        (entity_merge_plan(g, p1) is Ok) <==> (entity_merge_plan(g, p2) is Ok),
        entity_merge_plan(g, p1) is Ok ==> entity_merge_plan(g, p1) == entity_merge_plan(g, p2),
{
    let ids = entity_id_list(g.entities);
    lemma_no_pair_problem(ids, p1);
    lemma_no_pair_problem(ids, p2);
    if consistent_batch(ids, p1) {
        lemma_covered_consistent(ids, p1, p2);
    }
    if consistent_batch(ids, p2) {
        lemma_covered_consistent(ids, p2, p1);
    }
    assert forall|a: int, b: int| #[trigger] link_relation(ids, p1)(a, b) == link_relation(ids, p2)(a, b) by {
        if same_entity_link(ids, p1, a, b) {
            lemma_covered_links(ids, p1, p2, a, b);
        }
        if same_entity_link(ids, p2, a, b) {
            lemma_covered_links(ids, p2, p1, a, b);
        }
    }
    assert(link_relation(ids, p1) =~= link_relation(ids, p2));
}

/// A batch without same-entity decisions plans no merges.
pub proof fn lemma_no_same_entity_no_merges(g: PropositionGraphView, ps: Seq<VerifiedEntityPairView>)
    requires
        entity_merge_plan(g, ps) is Ok,
        forall|k: int| 0 <= k < ps.len() ==> (#[trigger] ps[k]).decision != EntityMatchDecision::SameEntity,
    ensures
        entity_merge_plan(g, ps) == Ok::<Seq<EntityMergeView>, MergePlanningErrorView>(Seq::empty()),
{
    let ids = entity_id_list(g.entities);
    let e = link_relation(ids, ps);
    let n = ids.len() as int;
    assert forall|s: int| 0 <= s <= n implies #[trigger] merges_before(e, ids, s) == Seq::<EntityMergeView>::empty() by {
        lemma_no_roots(e, ids, ps, s);
    }
}

proof fn lemma_no_roots(e: spec_fn(int, int) -> bool, ids: Seq<Seq<char>>, ps: Seq<VerifiedEntityPairView>, s: int)
    requires
        e == link_relation(ids, ps),
        forall|k: int| 0 <= k < ps.len() ==> (#[trigger] ps[k]).decision != EntityMatchDecision::SameEntity,
    ensures
        merges_before(e, ids, s) == Seq::<EntityMergeView>::empty(),
    decreases s,
{
    if s > 0 {
        lemma_no_roots(e, ids, ps, s - 1);
        if has_link(e, ids.len() as int, s - 1) {
            let j = choose|j: int| 0 <= j < ids.len() && #[trigger] e(s - 1, j);
            let k = choose|k: int| 0 <= k < ps.len() && #[trigger] links(ids, ps[k], s - 1, j);
        }
        assert(merges_before(e, ids, s) =~= Seq::<EntityMergeView>::empty());
    }
}

/// Every merge keeps its earliest member: each merged ID sits later in the
/// graph than the canonical ID, and no ID is merged twice.
pub proof fn lemma_merge_members_follow_canonical(g: PropositionGraphView, ps: Seq<VerifiedEntityPairView>, m: int, k: int)
    requires
        entity_merge_plan(g, ps) is Ok,
        0 <= m < entity_merge_plan(g, ps)->Ok_0.len(),
        0 <= k < entity_merge_plan(g, ps)->Ok_0[m].merged_entity_ids.len(),
    ensures
        index_in(entity_id_list(g.entities), entity_merge_plan(g, ps)->Ok_0[m].canonical_entity_id) < index_in(
            entity_id_list(g.entities),
            entity_merge_plan(g, ps)->Ok_0[m].merged_entity_ids[k],
        ),
{
    let ids = entity_id_list(g.entities);
    let e = link_relation(ids, ps);
    let n = ids.len() as int;
    let i = lemma_root_of_merge(e, ids, n, m);
    let group = group_below(e, n, i, n);
    lemma_group_below_bounds(e, n, i, n);
    let pos = group[k];
    lemma_distinct_index(ids, i);
    lemma_distinct_index(ids, pos);
}

/// The `m`-th merge of `merges_before(e, ids, s)` is the merge at some root.
proof fn lemma_root_of_merge(e: spec_fn(int, int) -> bool, ids: Seq<Seq<char>>, s: int, m: int) -> (i: int)
    requires
        0 <= m < merges_before(e, ids, s).len(),
        s <= ids.len(),
    ensures
        0 <= i < s,
        is_root(e, ids.len() as int, i),
        merges_before(e, ids, s)[m] == merge_at(e, ids, i),
    decreases s,
{
    let prev = merges_before(e, ids, s - 1);
    if m < prev.len() {
        let i = lemma_root_of_merge(e, ids, s - 1, m);
        assert(merges_before(e, ids, s)[m] == prev[m]);
        i
    } else {
        s - 1
    }
}

proof fn lemma_group_below_bounds(e: spec_fn(int, int) -> bool, n: int, i: int, j: int)
    ensures
        forall|t: int| 0 <= t < group_below(e, n, i, j).len() ==> i < #[trigger] group_below(e, n, i, j)[t] < j,
    decreases j - i,
{
    if j > i + 1 {
        lemma_group_below_bounds(e, n, i, j - 1);
        let prev = group_below(e, n, i, j - 1);
        let tail = if connected(e, n, i, j - 1) {
            seq![j - 1]
        } else {
            Seq::<int>::empty()
        };
        assert(group_below(e, n, i, j) == prev + tail);
        assert forall|t: int| 0 <= t < group_below(e, n, i, j).len() implies i < #[trigger] group_below(e, n, i, j)[t] < j by {
            if t < prev.len() {
                assert(group_below(e, n, i, j)[t] == prev[t]);
            } else {
                assert(group_below(e, n, i, j)[t] == tail[t - prev.len()]);
            }
        }
    }
}

proof fn lemma_distinct_index(ids: Seq<Seq<char>>, k: int)
    requires
        first_repeated_id(ids) is None,
        0 <= k < ids.len(),
    ensures
        index_in(ids, ids[k]) == k,
{
    lemma_index_in(ids, ids[k]);
    let p = index_in(ids, ids[k]);
    if p != k {
        lemma_no_repeats(ids, p, k);
    }
}

proof fn lemma_no_repeats(ids: Seq<Seq<char>>, p: int, k: int)
    requires
        first_repeated_id(ids) is None,
        0 <= p < k < ids.len(),
    ensures
        ids[p] != ids[k],
    decreases ids.len(),
{
    if k < ids.len() - 1 {
        assert(ids.drop_last()[p] == ids[p] && ids.drop_last()[k] == ids[k]);
        lemma_no_repeats(ids.drop_last(), p, k);
    } else {
        assert(ids.drop_last()[p] == ids[p]);
        assert(ids.drop_last().contains(ids[p]));
    }
}

// =====================================================================
// Plans the rewriter accepts
// =====================================================================
/// The positions the merges of the roots before `s` assign: each root,
/// then the later members of its component.
pub open spec fn plan_positions(e: spec_fn(int, int) -> bool, n: int, s: int) -> Seq<int>
    decreases s,
{
    if s <= 0 {
        Seq::empty()
    } else {
        plan_positions(e, n, s - 1) + if is_root(e, n, s - 1) {
            seq![s - 1] + group_below(e, n, s - 1, n)
        } else {
            Seq::empty()
        }
    }
}

/// The members of a group are connected to its root and ascend.
proof fn lemma_group_below_members(e: spec_fn(int, int) -> bool, n: int, i: int, j: int)
    ensures
        forall|t: int|
            0 <= t < group_below(e, n, i, j).len() ==> i < #[trigger] group_below(e, n, i, j)[t] < j
                && connected(e, n, i, group_below(e, n, i, j)[t]),
        forall|t: int, u: int|
            0 <= t < u < group_below(e, n, i, j).len() ==> group_below(e, n, i, j)[t] < group_below(
                e,
                n,
                i,
                j,
            )[u],
    decreases j - i,
{
    if j > i + 1 {
        lemma_group_below_members(e, n, i, j - 1);
        let prev = group_below(e, n, i, j - 1);
        let tail = if connected(e, n, i, j - 1) {
            seq![j - 1]
        } else {
            Seq::<int>::empty()
        };
        let g = group_below(e, n, i, j);
        assert(g == prev + tail);
        assert forall|t: int| 0 <= t < g.len() implies i < #[trigger] g[t] < j && connected(e, n, i, g[t]) by {
            if t < prev.len() {
                assert(g[t] == prev[t]);
            } else {
                assert(g[t] == tail[t - prev.len()]);
            }
        }
        assert forall|t: int, u: int| 0 <= t < u < g.len() implies g[t] < g[u] by {
            assert(g[t] == prev[t]);
            if u < prev.len() {
                assert(g[u] == prev[u]);
            } else {
                assert(g[u] == j - 1);
            }
        }
    }
}

/// A later position connected to `i` belongs to its group.
proof fn lemma_group_below_contains(e: spec_fn(int, int) -> bool, n: int, i: int, j: int, m: int)
    requires
        connected(e, n, i, j),
        i < j < m,
    ensures
        group_below(e, n, i, m).contains(j),
    decreases m - i,
{
    let prev = group_below(e, n, i, m - 1);
    let tail = if connected(e, n, i, m - 1) {
        seq![m - 1]
    } else {
        Seq::<int>::empty()
    };
    assert(group_below(e, n, i, m) == prev + tail);
    if j < m - 1 {
        lemma_group_below_contains(e, n, i, j, m - 1);
        let k = choose|k: int| 0 <= k < prev.len() && prev[k] == j;
        assert((prev + tail)[k] == j);
    } else {
        assert((prev + tail)[prev.len() as int] == j);
    }
}

/// The merges of the roots before `s` pass the rewriter's plan check and
/// assign the IDs at `plan_positions`; no position they assign is connected
/// to a root at or after `s`.
proof fn lemma_plan_checks(
    e: spec_fn(int, int) -> bool,
    ids: Seq<Seq<char>>,
    ps: Seq<VerifiedEntityPairView>,
    s: int,
)
    requires
        e == link_relation(ids, ps),
        first_repeated_id(ids) is None,
        first_pair_problem(ids, ps) is None,
        0 <= s <= ids.len(),
    ensures
        check_plan(merges_before(e, ids, s), ids) == Ok::<Seq<Seq<char>>, GraphRewriteErrorView>(
            ids_at(ids, plan_positions(e, ids.len() as int, s)),
        ),
        forall|t: int|
            0 <= t < plan_positions(e, ids.len() as int, s).len() ==> 0 <= #[trigger] plan_positions(
                e,
                ids.len() as int,
                s,
            )[t] < ids.len(),
        forall|t: int, x: int|
            0 <= t < plan_positions(e, ids.len() as int, s).len() && s <= x < ids.len() && #[trigger] connected(
                e,
                ids.len() as int,
                plan_positions(e, ids.len() as int, s)[t],
                x,
            ) ==> !is_root(e, ids.len() as int, x),
    decreases s,
{
    let n = ids.len() as int;
    if s <= 0 {
        assert(ids_at(ids, plan_positions(e, n, s)) =~= Seq::<Seq<char>>::empty());
    } else {
        let r = s - 1;
        lemma_plan_checks(e, ids, ps, r);
        let prev = merges_before(e, ids, r);
        let pos_prev = plan_positions(e, n, r);
        let a = ids_at(ids, pos_prev);
        let pos = plan_positions(e, n, s);
        if !is_root(e, n, r) {
            assert(merges_before(e, ids, s) =~= prev);
            assert(pos =~= pos_prev);
        } else {
            lemma_link_relation_symmetric(ids, ps);
            let group = group_below(e, n, r, n);
            lemma_group_below_members(e, n, r, n);
            let m = merge_at(e, ids, r);
            let c = ids[r];
            let merged = m.merged_entity_ids;
            assert(merges_before(e, ids, s).drop_last() =~= prev);
            assert(merges_before(e, ids, s).last() == m);
            // The group is not empty: the root's link leads to a later position.
            let j = choose|j: int| 0 <= j < n && #[trigger] e(r, j);
            let k = choose|k: int| 0 <= k < ps.len() && #[trigger] links(ids, ps[k], r, j);
            lemma_no_problem_positions(ids, ps, k);
            lemma_connected_self(e, n, r);
            lemma_connected_step(e, n, r, r, j);
            if j < r {
                lemma_connected_symmetric(e, n, r, j);
                assert(connected(e, n, j, r));
            }
            lemma_group_below_contains(e, n, r, j, n);
            assert(merged.len() == group.len());
            assert(merged.len() > 0);
            lemma_distinct_index(ids, r);
            // The members are distinct graph IDs after the canonical one, and
            // none is assigned yet.
            assert forall|t: int| 0 <= t < merged.len() implies #[trigger] merged[t] != c && ids.contains(
                merged[t],
            ) && !a.push(c).contains(merged[t]) && index_in(ids, merged[t]) > r by {
                let q = group[t];
                assert(merged[t] == ids[q]);
                assert(r < q < n && connected(e, n, r, q));
                lemma_no_repeats(ids, r, q);
                lemma_distinct_index(ids, q);
                if a.push(c).contains(merged[t]) {
                    let u = choose|u: int| 0 <= u < a.push(c).len() && a.push(c)[u] == merged[t];
                    if u < a.len() {
                        let p = pos_prev[u];
                        assert(a[u] == ids[p]);
                        assert(0 <= p < n);
                        lemma_distinct_index(ids, p);
                        assert(p == q);
                        lemma_connected_symmetric(e, n, r, q);
                        assert(connected(e, n, p, r));
                    }
                }
            }
            assert forall|t: int, u: int| 0 <= t < u < merged.len() implies merged[t] != merged[u] by {
                assert(merged[t] == ids[group[t]] && merged[u] == ids[group[u]]);
                lemma_no_repeats(ids, group[t], group[u]);
            }
            if a.contains(c) {
                let u = choose|u: int| 0 <= u < a.len() && a[u] == c;
                let p = pos_prev[u];
                assert(0 <= p < n);
                lemma_distinct_index(ids, p);
                assert(p == r);
                assert(connected(e, n, p, r));
            }
            lemma_check_members_accepts(a.push(c), c, merged, ids);
            lemma_min_index_above(ids, merged, r);
            assert(ids.contains(c)) by {
                assert(ids[r] == c);
            }
            assert(pos =~= pos_prev + (seq![r] + group));
            assert(ids_at(ids, pos) =~= a.push(c) + merged);
            assert(check_merge(a, m, ids) == Ok::<Seq<Seq<char>>, GraphRewriteErrorView>(
                a.push(c) + merged,
            ));
            // Every newly assigned position is connected to this root, so no
            // later position connected to it is a root.
            assert forall|t: int, x: int|
                0 <= t < pos.len() && s <= x < n && #[trigger] connected(e, n, pos[t], x) implies !is_root(
                e,
                n,
                x,
            ) by {
                if t < pos_prev.len() {
                    assert(pos[t] == pos_prev[t]);
                } else if t == pos_prev.len() {
                    assert(pos[t] == r);
                    assert(connected(e, n, r, x));
                } else {
                    let q = group[t - pos_prev.len() - 1];
                    assert(pos[t] == q);
                    lemma_connected_transitive(e, n, r, q, x);
                    assert(connected(e, n, r, x));
                }
            }
            assert forall|t: int| 0 <= t < pos.len() implies 0 <= #[trigger] pos[t] < n by {
                if t < pos_prev.len() {
                    assert(pos[t] == pos_prev[t]);
                } else if t > pos_prev.len() {
                    assert(pos[t] == group[t - pos_prev.len() - 1]);
                }
            }
        }
    }
}

/// The rewriter accepts every plan the planner builds: each merge names
/// known entities, keeps its earliest member and assigns no entity twice,
/// so the only rewrite error left is a broken reference in the graph itself.
pub proof fn lemma_plan_passes_rewrite_validation(g: PropositionGraphView, ps: Seq<VerifiedEntityPairView>)
    requires
        entity_merge_plan(g, ps) is Ok,
    ensures
        check_plan(entity_merge_plan(g, ps)->Ok_0, entity_id_list(g.entities)) is Ok,
        rewrite_error(g, entity_merge_plan(g, ps)->Ok_0) == reference_error(g),
{
    let ids = entity_id_list(g.entities);
    lemma_plan_checks(link_relation(ids, ps), ids, ps, ids.len() as int);
}

/// The merge at root `i` belongs to the merges of the roots before `s`.
proof fn lemma_root_merge_listed(e: spec_fn(int, int) -> bool, ids: Seq<Seq<char>>, i: int, s: int)
    requires
        0 <= i < s,
        is_root(e, ids.len() as int, i),
    ensures
        merges_before(e, ids, s).contains(merge_at(e, ids, i)),
    decreases s,
{
    let prev = merges_before(e, ids, s - 1);
    let cur = merges_before(e, ids, s);
    if i < s - 1 {
        lemma_root_merge_listed(e, ids, i, s - 1);
        let k = choose|k: int| 0 <= k < prev.len() && prev[k] == merge_at(e, ids, i);
        assert(cur[k] == prev[k]);
    } else {
        assert(cur[prev.len() as int] == merge_at(e, ids, i));
    }
}

/// The entity with this ID is the canonical entity of the merge or one of
/// the entities it removes.
pub open spec fn in_merge(m: EntityMergeView, id: Seq<char>) -> bool {
    m.canonical_entity_id == id || m.merged_entity_ids.contains(id)
}

/// A position connected to root `i` is in the merge at `i`.
proof fn lemma_member_of_root_merge(e: spec_fn(int, int) -> bool, ids: Seq<Seq<char>>, i: int, x: int)
    requires
        0 <= i <= x < ids.len(),
        connected(e, ids.len() as int, i, x),
    ensures
        in_merge(merge_at(e, ids, i), ids[x]),
{
    if i < x {
        let n = ids.len() as int;
        lemma_group_below_contains(e, n, i, x, n);
        let group = group_below(e, n, i, n);
        let k = choose|k: int| 0 <= k < group.len() && group[k] == x;
        assert(ids_at(ids, group)[k] == ids[x]);
    }
}

/// Same-entity decisions are transitive: two entities joined by a chain of
/// same-entity results end up in one merge group.
pub proof fn lemma_linked_entities_share_a_merge(g: PropositionGraphView, ps: Seq<VerifiedEntityPairView>, a: int, b: int)
    requires
        entity_merge_plan(g, ps) is Ok,
        0 <= a < g.entities.len(),
        0 <= b < g.entities.len(),
        a != b,
        connected(
            link_relation(entity_id_list(g.entities), ps),
            entity_id_list(g.entities).len() as int,
            a,
            b,
        ),
    ensures
        exists|m: int|
            0 <= m < entity_merge_plan(g, ps)->Ok_0.len() && in_merge(
                #[trigger] entity_merge_plan(g, ps)->Ok_0[m],
                entity_id_list(g.entities)[a],
            ) && in_merge(entity_merge_plan(g, ps)->Ok_0[m], entity_id_list(g.entities)[b]),
{
    let ids = entity_id_list(g.entities);
    let n = ids.len() as int;
    let e = link_relation(ids, ps);
    lemma_link_relation_symmetric(ids, ps);
    lemma_connected_self(e, n, a);
    let r = lemma_first_connected(e, n, a, 0, a);
    // `r`, the earliest position connected to `a`, is the root of its component.
    lemma_connected_symmetric(e, n, r, a);
    lemma_connected_transitive(e, n, r, a, b);
    if r != a {
        lemma_linked_of_connected(e, n, r, a);
    } else {
        lemma_linked_of_connected(e, n, r, b);
    }
    assert forall|q: int| 0 <= q < r implies !#[trigger] connected(e, n, q, r) by {
        if connected(e, n, q, r) {
            lemma_connected_transitive(e, n, q, r, a);
        }
    }
    assert(is_root(e, n, r));
    lemma_root_merge_listed(e, ids, r, n);
    let plan = merges_before(e, ids, n);
    let m = choose|m: int| 0 <= m < plan.len() && plan[m] == merge_at(e, ids, r);
    lemma_member_of_root_merge(e, ids, r, a);
    if b < r {
        lemma_connected_symmetric(e, n, a, b);
        lemma_connected_transitive(e, n, b, a, a);
        assert(connected(e, n, b, a));
    }
    lemma_member_of_root_merge(e, ids, r, b);
    assert(entity_merge_plan(g, ps)->Ok_0 == plan);
    assert(in_merge(entity_merge_plan(g, ps)->Ok_0[m], ids[a]) && in_merge(entity_merge_plan(g, ps)->Ok_0[m], ids[b]));
}

/// A merge only joins entities that a chain of same-entity results links:
/// each removed entity is connected to the canonical entity it is merged
/// into.
pub proof fn lemma_merges_join_only_linked_entities(g: PropositionGraphView, ps: Seq<VerifiedEntityPairView>, m: int, k: int)
    requires
        entity_merge_plan(g, ps) is Ok,
        0 <= m < entity_merge_plan(g, ps)->Ok_0.len(),
        0 <= k < entity_merge_plan(g, ps)->Ok_0[m].merged_entity_ids.len(),
    ensures
        connected(
            link_relation(entity_id_list(g.entities), ps),
            entity_id_list(g.entities).len() as int,
            index_in(entity_id_list(g.entities), entity_merge_plan(g, ps)->Ok_0[m].canonical_entity_id),
            index_in(entity_id_list(g.entities), entity_merge_plan(g, ps)->Ok_0[m].merged_entity_ids[k]),
        ),
{
    let ids = entity_id_list(g.entities);
    let e = link_relation(ids, ps);
    let n = ids.len() as int;
    let i = lemma_root_of_merge(e, ids, n, m);
    let group = group_below(e, n, i, n);
    lemma_group_below_members(e, n, i, n);
    let pos = group[k];
    lemma_distinct_index(ids, i);
    lemma_distinct_index(ids, pos);
}

/// Two merges listed in order sit at ascending roots.
proof fn lemma_merge_roots_ascend(e: spec_fn(int, int) -> bool, ids: Seq<Seq<char>>, s: int, m1: int, m2: int) -> (r: (int, int))
    requires
        0 <= m1 < m2 < merges_before(e, ids, s).len(),
        s <= ids.len(),
    ensures
        0 <= r.0 < r.1 < s,
        is_root(e, ids.len() as int, r.0),
        is_root(e, ids.len() as int, r.1),
        merges_before(e, ids, s)[m1] == merge_at(e, ids, r.0),
        merges_before(e, ids, s)[m2] == merge_at(e, ids, r.1),
    decreases s,
{
    let prev = merges_before(e, ids, s - 1);
    if m2 < prev.len() {
        let r = lemma_merge_roots_ascend(e, ids, s - 1, m1, m2);
        assert(merges_before(e, ids, s)[m1] == prev[m1]);
        assert(merges_before(e, ids, s)[m2] == prev[m2]);
        r
    } else {
        let i1 = lemma_root_of_merge(e, ids, s - 1, m1);
        assert(merges_before(e, ids, s)[m1] == prev[m1]);
        (i1, s - 1)
    }
}

/// A position whose ID the merge at root `i` holds is connected to `i`.
proof fn lemma_in_root_merge_connected(e: spec_fn(int, int) -> bool, ids: Seq<Seq<char>>, i: int, x: int)
    requires
        first_repeated_id(ids) is None,
        0 <= i < ids.len(),
        0 <= x < ids.len(),
        in_merge(merge_at(e, ids, i), ids[x]),
    ensures
        connected(e, ids.len() as int, i, x),
{
    let n = ids.len() as int;
    lemma_distinct_index(ids, x);
    lemma_distinct_index(ids, i);
    if ids[i] == ids[x] {
        lemma_connected_self(e, n, i);
    } else {
        let group = group_below(e, n, i, n);
        lemma_group_below_members(e, n, i, n);
        let k = choose|k: int| 0 <= k < ids_at(ids, group).len() && ids_at(ids, group)[k] == ids[x];
        assert(ids[group[k]] == ids[x]);
        lemma_distinct_index(ids, group[k]);
    }
}

/// The plan holds one merge per connected component of same-entity results
/// with more than one member. Each merge is the component of its canonical
/// entity, which is the component's earliest graph member, with the other
/// members in graph order (`merge_at` at a root); every such component has
/// its merge; merges are ordered by the graph position of their canonical
/// entity; no entity belongs to two merges; and on a graph that
/// `validate_graph` accepts, the rewriter applies the plan without error.
pub proof fn lemma_plan_is_one_merge_per_component(g: PropositionGraphView, ps: Seq<VerifiedEntityPairView>)
    requires
        entity_merge_plan(g, ps) is Ok,
    ensures
        forall|m: int|
            0 <= m < entity_merge_plan(g, ps)->Ok_0.len() ==> exists|c: int|
                is_root(link_relation(entity_id_list(g.entities), ps), g.entities.len() as int, c)
                    && #[trigger] entity_merge_plan(g, ps)->Ok_0[m] == merge_at(
                    link_relation(entity_id_list(g.entities), ps),
                    entity_id_list(g.entities),
                    c,
                ),
        forall|c: int|
            #[trigger] is_root(link_relation(entity_id_list(g.entities), ps), g.entities.len() as int, c)
                ==> entity_merge_plan(g, ps)->Ok_0.contains(
                merge_at(link_relation(entity_id_list(g.entities), ps), entity_id_list(g.entities), c),
            ),
        forall|m1: int, m2: int|
            0 <= m1 < m2 < entity_merge_plan(g, ps)->Ok_0.len() ==> index_in(
                entity_id_list(g.entities),
                (#[trigger] entity_merge_plan(g, ps)->Ok_0[m1]).canonical_entity_id,
            ) < index_in(
                entity_id_list(g.entities),
                (#[trigger] entity_merge_plan(g, ps)->Ok_0[m2]).canonical_entity_id,
            ),
        forall|m1: int, m2: int, x: int|
            #![trigger in_merge(entity_merge_plan(g, ps)->Ok_0[m1], entity_id_list(g.entities)[x]), in_merge(entity_merge_plan(g, ps)->Ok_0[m2], entity_id_list(g.entities)[x])]
            0 <= m1 < entity_merge_plan(g, ps)->Ok_0.len() && 0 <= m2 < entity_merge_plan(g, ps)->Ok_0.len()
                && 0 <= x < g.entities.len() && in_merge(
                entity_merge_plan(g, ps)->Ok_0[m1],
                entity_id_list(g.entities)[x],
            ) && in_merge(entity_merge_plan(g, ps)->Ok_0[m2], entity_id_list(g.entities)[x])
                ==> m1 == m2,
        graph_violations(g) == Seq::<Seq<char>>::empty() ==> rewrite_error(
            g,
            entity_merge_plan(g, ps)->Ok_0,
        ) is None,
{
    let ids = entity_id_list(g.entities);
    let e = link_relation(ids, ps);
    let n = ids.len() as int;
    let plan = entity_merge_plan(g, ps)->Ok_0;
    assert(plan == merges_before(e, ids, n));
    assert(n == g.entities.len());
    lemma_link_relation_symmetric(ids, ps);
    assert forall|m: int| 0 <= m < plan.len() implies exists|c: int|
        is_root(e, n, c) && #[trigger] plan[m] == merge_at(e, ids, c) by {
        let c = lemma_root_of_merge(e, ids, n, m);
    }
    assert forall|c: int| #[trigger] is_root(e, n, c) implies plan.contains(merge_at(e, ids, c)) by {
        lemma_root_merge_listed(e, ids, c, n);
    }
    assert forall|m1: int, m2: int| 0 <= m1 < m2 < plan.len() implies index_in(
        ids,
        (#[trigger] plan[m1]).canonical_entity_id,
    ) < index_in(ids, (#[trigger] plan[m2]).canonical_entity_id) by {
        let r = lemma_merge_roots_ascend(e, ids, n, m1, m2);
        lemma_distinct_index(ids, r.0);
        lemma_distinct_index(ids, r.1);
    }
    assert forall|m1: int, m2: int, x: int|
        #![trigger in_merge(plan[m1], ids[x]), in_merge(plan[m2], ids[x])]
        0 <= m1 < plan.len() && 0 <= m2 < plan.len() && 0 <= x < n && in_merge(plan[m1], ids[x])
            && in_merge(plan[m2], ids[x]) implies m1 == m2 by {
        if m1 != m2 {
            let (a, b) = if m1 < m2 {
                (m1, m2)
            } else {
                (m2, m1)
            };
            let r = lemma_merge_roots_ascend(e, ids, n, a, b);
            lemma_in_root_merge_connected(e, ids, r.0, x);
            lemma_in_root_merge_connected(e, ids, r.1, x);
            lemma_connected_symmetric(e, n, r.1, x);
            lemma_connected_transitive(e, n, r.0, x, r.1);
            assert(!connected(e, n, r.0, r.1));
        }
    }
    lemma_plan_passes_rewrite_validation(g, ps);
    if graph_violations(g) == Seq::<Seq<char>>::empty() {
        lemma_valid_graph_has_no_reference_error(g);
    }
}

/// Each merge holds exactly one connected component of same-entity
/// results: its canonical entity is the component's earliest graph member,
/// an entity belongs to the merge exactly when a chain of same-entity
/// results connects it to the canonical entity, the merged IDs come in graph
/// order, and every entity with a same-entity result belongs to some merge.
pub proof fn lemma_merges_are_components(g: PropositionGraphView, ps: Seq<VerifiedEntityPairView>)
    requires
        entity_merge_plan(g, ps) is Ok,
    ensures
        forall|m: int|
            0 <= m < entity_merge_plan(g, ps)->Ok_0.len() ==> is_root(
                link_relation(entity_id_list(g.entities), ps),
                g.entities.len() as int,
                index_in(entity_id_list(g.entities), (#[trigger] entity_merge_plan(g, ps)->Ok_0[m]).canonical_entity_id),
            ),
        forall|m: int, x: int|
            #![trigger in_merge(entity_merge_plan(g, ps)->Ok_0[m], entity_id_list(g.entities)[x])]
            0 <= m < entity_merge_plan(g, ps)->Ok_0.len() && 0 <= x < g.entities.len() ==> (in_merge(
                entity_merge_plan(g, ps)->Ok_0[m],
                entity_id_list(g.entities)[x],
            ) <==> connected(
                link_relation(entity_id_list(g.entities), ps),
                g.entities.len() as int,
                index_in(entity_id_list(g.entities), entity_merge_plan(g, ps)->Ok_0[m].canonical_entity_id),
                x,
            )),
        forall|m: int, k1: int, k2: int|
            0 <= m < entity_merge_plan(g, ps)->Ok_0.len() && 0 <= k1 < k2
                < entity_merge_plan(g, ps)->Ok_0[m].merged_entity_ids.len() ==> index_in(
                entity_id_list(g.entities),
                #[trigger] entity_merge_plan(g, ps)->Ok_0[m].merged_entity_ids[k1],
            ) < index_in(
                entity_id_list(g.entities),
                #[trigger] entity_merge_plan(g, ps)->Ok_0[m].merged_entity_ids[k2],
            ),
        forall|x: int|
            0 <= x < g.entities.len() && #[trigger] has_link(
                link_relation(entity_id_list(g.entities), ps),
                g.entities.len() as int,
                x,
            ) ==> exists|m: int|
                0 <= m < entity_merge_plan(g, ps)->Ok_0.len() && in_merge(
                    #[trigger] entity_merge_plan(g, ps)->Ok_0[m],
                    entity_id_list(g.entities)[x],
                ),
{
    let ids = entity_id_list(g.entities);
    let e = link_relation(ids, ps);
    let n = ids.len() as int;
    let plan = entity_merge_plan(g, ps)->Ok_0;
    assert(plan == merges_before(e, ids, n));
    assert(n == g.entities.len());
    lemma_link_relation_symmetric(ids, ps);
    assert forall|m: int| 0 <= m < plan.len() implies is_root(e, n, index_in(ids, (#[trigger] plan[m]).canonical_entity_id)) by {
        let c = lemma_root_of_merge(e, ids, n, m);
        lemma_distinct_index(ids, c);
    }
    assert forall|m: int, x: int|
        #![trigger in_merge(plan[m], ids[x])]
        0 <= m < plan.len() && 0 <= x < n implies (in_merge(plan[m], ids[x]) <==> connected(
            e,
            n,
            index_in(ids, plan[m].canonical_entity_id),
            x,
        )) by {
        let c = lemma_root_of_merge(e, ids, n, m);
        lemma_distinct_index(ids, c);
        if in_merge(plan[m], ids[x]) {
            lemma_in_root_merge_connected(e, ids, c, x);
        }
        if connected(e, n, c, x) {
            if x < c {
                lemma_connected_symmetric(e, n, c, x);
                assert(!connected(e, n, x, c));
            }
            lemma_member_of_root_merge(e, ids, c, x);
        }
    }
    assert forall|m: int, k1: int, k2: int|
        0 <= m < plan.len() && 0 <= k1 < k2 < plan[m].merged_entity_ids.len() implies index_in(
            ids,
            #[trigger] plan[m].merged_entity_ids[k1],
        ) < index_in(ids, #[trigger] plan[m].merged_entity_ids[k2]) by {
        let c = lemma_root_of_merge(e, ids, n, m);
        let group = group_below(e, n, c, n);
        lemma_group_below_members(e, n, c, n);
        assert(plan[m].merged_entity_ids[k1] == ids[group[k1]]);
        assert(plan[m].merged_entity_ids[k2] == ids[group[k2]]);
        lemma_distinct_index(ids, group[k1]);
        lemma_distinct_index(ids, group[k2]);
    }
    lemma_no_pair_problem(ids, ps);
    assert forall|x: int| 0 <= x < n && #[trigger] has_link(e, n, x) implies exists|m: int|
        0 <= m < plan.len() && in_merge(#[trigger] plan[m], ids[x]) by {
        let j = choose|j: int| 0 <= j < n && #[trigger] e(x, j);
        let k = choose|k: int| 0 <= k < ps.len() && #[trigger] links(ids, ps[k], x, j);
        assert(pair_known(ids, ps[k]));
        lemma_connected_self(e, n, x);
        lemma_connected_step(e, n, x, x, j);
        lemma_linked_entities_share_a_merge(g, ps, x, j);
    }
}

/// A plan has one view per merge.
pub(crate) proof fn lemma_merge_count(plan: &EntityMergePlan)
    ensures
        plan@.len() == plan.merges@.len(),
{
}

} // verus!
