//! Bundle assembly: for each knowledge point, the related points, the
//! supporting entities and relations, and the question type.
use vstd::prelude::*;

use crate::graph::graph_index::{GraphIndex, mention_set};
use crate::graph::types::{
    EntityNode, EntityNodeView, GraphContextBundle, KnowledgePoint, KnowledgePointView,
    PropositionGraph, PropositionGraphView, QuestionType, Relation, RelationView, entity_views,
    point_views, relation_views,
};
use crate::text::{
    contains_str, lemma_seq_lt_irreflexive, lemma_seq_lt_total, lemma_seq_lt_transitive, seq_lt,
    str_eq, str_lt, strs,
};

verus! {

/// At most this many related points go into a bundle.
pub const MAX_RELATED_POINTS: usize = 3;

// =====================================================================
// Relatedness
// =====================================================================
/// How many of the root's entities the point `id` also mentions.
pub open spec fn same_hits(eids: Seq<Seq<char>>, ps: Seq<KnowledgePointView>, id: Seq<char>) -> nat
    decreases eids.len(),
{
    if eids.len() == 0 {
        0
    } else {
        same_hits(eids.drop_last(), ps, id) + if mention_set(ps, eids.last()).contains(id) {
            1nat
        } else {
            0nat
        }
    }
}

/// Outgoing relations of `e` whose target the point `id` mentions.
pub open spec fn out_hits(e: Seq<char>, rs: Seq<RelationView>, ps: Seq<KnowledgePointView>, id: Seq<char>) -> nat
    decreases rs.len(),
{
    if rs.len() == 0 {
        0
    } else {
        out_hits(e, rs.drop_last(), ps, id) + if rs.last().source_id == e && mention_set(
            ps,
            rs.last().target_id,
        ).contains(id) {
            1nat
        } else {
            0nat
        }
    }
}

/// Incoming relations of `e` whose source the point `id` mentions.
pub open spec fn in_hits(e: Seq<char>, rs: Seq<RelationView>, ps: Seq<KnowledgePointView>, id: Seq<char>) -> nat
    decreases rs.len(),
{
    if rs.len() == 0 {
        0
    } else {
        in_hits(e, rs.drop_last(), ps, id) + if rs.last().target_id == e && mention_set(
            ps,
            rs.last().source_id,
        ).contains(id) {
            1nat
        } else {
            0nat
        }
    }
}

/// Relation hits over all of the root's entities.
pub open spec fn link_hits(eids: Seq<Seq<char>>, rs: Seq<RelationView>, ps: Seq<KnowledgePointView>, id: Seq<char>) -> nat
    decreases eids.len(),
{
    if eids.len() == 0 {
        0
    } else {
        link_hits(eids.drop_last(), rs, ps, id) + out_hits(eids.last(), rs, ps, id) + in_hits(
            eids.last(),
            rs,
            ps,
            id,
        )
    }
}

/// The score of point ID `id` as a neighbour of `root`: one per shared
/// entity and one per relation linking a root entity to an entity the
/// point mentions; zero for the root's own ID.
pub open spec fn relatedness(root: KnowledgePointView, g: PropositionGraphView, id: Seq<char>) -> nat {
    if id == root.id {
        0
    } else {
        same_hits(root.entity_ids, g.knowledge_points, id) + link_hits(
            root.entity_ids,
            g.relations,
            g.knowledge_points,
            id,
        )
    }
}

/// Ranking of scored candidates: higher score first, then smaller ID.
pub open spec fn ranks_before(root: KnowledgePointView, g: PropositionGraphView, a: Seq<char>, b: Seq<char>) -> bool {
    relatedness(root, g, a) > relatedness(root, g, b) || (relatedness(root, g, a) == relatedness(
        root,
        g,
        b,
    ) && seq_lt(a, b))
}

/// `r` is the best-ranked candidates, at most the cap, in rank order.
pub open spec fn top_related(root: KnowledgePointView, g: PropositionGraphView, r: Seq<Seq<char>>) -> bool {
    &&& r.len() <= MAX_RELATED_POINTS
    &&& forall|i: int| 0 <= i < r.len() ==> relatedness(root, g, #[trigger] r[i]) > 0
    &&& forall|i: int, j: int| 0 <= i < j < r.len() ==> ranks_before(root, g, #[trigger] r[i], #[trigger] r[j])
    &&& forall|c: Seq<char>|
        relatedness(root, g, c) > 0 && !r.contains(c) ==> r.len() == MAX_RELATED_POINTS && forall|i: int|
            0 <= i < r.len() ==> ranks_before(root, g, #[trigger] r[i], c)
}

/// The first point with ID `id`.
pub open spec fn first_point(ps: Seq<KnowledgePointView>, id: Seq<char>) -> Option<KnowledgePointView>
    decreases ps.len(),
{
    if ps.len() == 0 {
        None
    } else {
        match first_point(ps.drop_last(), id) {
            Some(p) => Some(p),
            None => if ps.last().id == id {
                Some(ps.last())
            } else {
                None
            },
        }
    }
}


// =====================================================================
// Scoring
// =====================================================================
proof fn lemma_same_hits_mono(eids: Seq<Seq<char>>, ps: Seq<KnowledgePointView>, id: Seq<char>, k: int)
    requires
        0 <= k <= eids.len(),
    ensures
        same_hits(eids.take(k), ps, id) <= same_hits(eids, ps, id),
    decreases eids.len() - k,
{
    if k < eids.len() {
        lemma_same_hits_mono(eids, ps, id, k + 1);
        assert(eids.take(k + 1).drop_last() =~= eids.take(k));
    } else {
        assert(eids.take(k) =~= eids);
    }
}

proof fn lemma_link_hits_mono(eids: Seq<Seq<char>>, rs: Seq<RelationView>, ps: Seq<KnowledgePointView>, id: Seq<char>, k: int)
    requires
        0 <= k <= eids.len(),
    ensures
        link_hits(eids.take(k), rs, ps, id) <= link_hits(eids, rs, ps, id),
    decreases eids.len() - k,
{
    if k < eids.len() {
        lemma_link_hits_mono(eids, rs, ps, id, k + 1);
        assert(eids.take(k + 1).drop_last() =~= eids.take(k));
    } else {
        assert(eids.take(k) =~= eids);
    }
}

proof fn lemma_out_hits_mono(e: Seq<char>, rs: Seq<RelationView>, ps: Seq<KnowledgePointView>, id: Seq<char>, k: int)
    requires
        0 <= k <= rs.len(),
    ensures
        out_hits(e, rs.take(k), ps, id) <= out_hits(e, rs, ps, id),
    decreases rs.len() - k,
{
    if k < rs.len() {
        lemma_out_hits_mono(e, rs, ps, id, k + 1);
        assert(rs.take(k + 1).drop_last() =~= rs.take(k));
    } else {
        assert(rs.take(k) =~= rs);
    }
}

proof fn lemma_in_hits_mono(e: Seq<char>, rs: Seq<RelationView>, ps: Seq<KnowledgePointView>, id: Seq<char>, k: int)
    requires
        0 <= k <= rs.len(),
    ensures
        in_hits(e, rs.take(k), ps, id) <= in_hits(e, rs, ps, id),
    decreases rs.len() - k,
{
    if k < rs.len() {
        lemma_in_hits_mono(e, rs, ps, id, k + 1);
        assert(rs.take(k + 1).drop_last() =~= rs.take(k));
    } else {
        assert(rs.take(k) =~= rs);
    }
}

/// The relatedness score of `id` for `root`, computed by counting.
fn score_of(root: &KnowledgePoint, graph: &PropositionGraph, index: &GraphIndex, id: &str) -> (s: usize)
    requires
        index.graph() == graph@,
        id@ != root@.id,
        relatedness(root@, graph@, id@) <= usize::MAX,
    ensures
        s == relatedness(root@, graph@, id@),
{
    let ghost ps = graph@.knowledge_points;
    let ghost rs = graph@.relations;
    let ghost eids = root@.entity_ids;
    let ghost total = relatedness(root@, graph@, id@);
    let n = root.entity_ids.len();
    let mut score: usize = 0;
    assert(eids.take(0) =~= Seq::<Seq<char>>::empty());
    for i in 0..n
        invariant
            n == eids.len(),
            eids == root@.entity_ids,
            ps == graph@.knowledge_points,
            rs == graph@.relations,
            index.graph() == graph@,
            total == relatedness(root@, graph@, id@),
            id@ != root@.id,
            total <= usize::MAX,
            score == same_hits(eids.take(i as int), ps, id@),
    {
        let e = &root.entity_ids[i];
        let pts = index.points_for_entity(e.as_str());
        proof {
            assert(eids.take(i + 1).drop_last() =~= eids.take(i as int));
            assert(eids.take(i + 1).last() == e@);
            lemma_same_hits_mono(eids, ps, id@, i + 1);
            lemma_link_hits_mono(eids, rs, ps, id@, 0);
            assert(strs(pts@).contains(id@) <==> strs(pts@).to_set().contains(id@));
        }
        if contains_str(&pts, id) {
            score = score + 1;
        }
    }
    assert(eids.take(n as int) =~= eids);
    let ghost same = score as nat;
    for i in 0..n
        invariant
            n == eids.len(),
            eids == root@.entity_ids,
            ps == graph@.knowledge_points,
            rs == graph@.relations,
            index.graph() == graph@,
            total == relatedness(root@, graph@, id@),
            id@ != root@.id,
            total <= usize::MAX,
            same == same_hits(eids, ps, id@),
            score == same + link_hits(eids.take(i as int), rs, ps, id@),
    {
        let e = &root.entity_ids[i];
        proof {
            assert(eids.take(i + 1).drop_last() =~= eids.take(i as int));
            assert(eids.take(i + 1).last() == e@);
            lemma_link_hits_mono(eids, rs, ps, id@, i + 1);
        }
        let ghost base = score as nat;
        assert(rs.take(0) =~= Seq::<RelationView>::empty());
        for j in 0..graph.relations.len()
            invariant
                rs == graph@.relations,
                ps == graph@.knowledge_points,
                index.graph() == graph@,
                base + out_hits(e@, rs, ps, id@) + in_hits(e@, rs, ps, id@) <= usize::MAX,
                score == base + out_hits(e@, rs.take(j as int), ps, id@),
        {
            let r = &graph.relations[j];
            proof {
                assert(rs.take(j + 1).drop_last() =~= rs.take(j as int));
                assert(rs.take(j + 1).last() == r@);
                lemma_out_hits_mono(e@, rs, ps, id@, j + 1);
            }
            if str_eq(r.source_id.as_str(), e.as_str()) {
                let pts = index.points_for_entity(r.target_id.as_str());
                proof {
                    assert(strs(pts@).contains(id@) <==> strs(pts@).to_set().contains(id@));
                }
                if contains_str(&pts, id) {
                    score = score + 1;
                }
            }
        }
        assert(rs.take(graph.relations@.len() as int) =~= rs);
        let ghost mid = score as nat;
        for j in 0..graph.relations.len()
            invariant
                rs == graph@.relations,
                ps == graph@.knowledge_points,
                index.graph() == graph@,
                mid + in_hits(e@, rs, ps, id@) <= usize::MAX,
                score == mid + in_hits(e@, rs.take(j as int), ps, id@),
        {
            let r = &graph.relations[j];
            proof {
                assert(rs.take(j + 1).drop_last() =~= rs.take(j as int));
                assert(rs.take(j + 1).last() == r@);
                lemma_in_hits_mono(e@, rs, ps, id@, j + 1);
            }
            if str_eq(r.target_id.as_str(), e.as_str()) {
                let pts = index.points_for_entity(r.source_id.as_str());
                proof {
                    assert(strs(pts@).contains(id@) <==> strs(pts@).to_set().contains(id@));
                }
                if contains_str(&pts, id) {
                    score = score + 1;
                }
            }
        }
        assert(rs.take(graph.relations@.len() as int) =~= rs);
    }
    assert(eids.take(n as int) =~= eids);
    score
}


// =====================================================================
// Ranking
// =====================================================================
/// Some point has ID `id`.
pub open spec fn is_point_id(ps: Seq<KnowledgePointView>, id: Seq<char>) -> bool {
    exists|k: int| 0 <= k < ps.len() && (#[trigger] ps[k]).id == id
}

proof fn lemma_mention_is_point(ps: Seq<KnowledgePointView>, x: Seq<char>, id: Seq<char>)
    requires
        mention_set(ps, x).contains(id),
    ensures
        is_point_id(ps, id),
{
    let k = choose|k: int| 0 <= k < ps.len() && ps[k].id == id && ps[k].entity_ids.contains(x);
    assert(ps[k].id == id);
}

proof fn lemma_hits_are_points(root: KnowledgePointView, g: PropositionGraphView, id: Seq<char>)
    requires
        relatedness(root, g, id) > 0,
    ensures
        is_point_id(g.knowledge_points, id),
{
    let ps = g.knowledge_points;
    let rs = g.relations;
    if same_hits(root.entity_ids, ps, id) > 0 {
        lemma_same_hits_point(root.entity_ids, ps, id);
    } else {
        lemma_link_hits_point(root.entity_ids, rs, ps, id);
    }
}

proof fn lemma_same_hits_point(eids: Seq<Seq<char>>, ps: Seq<KnowledgePointView>, id: Seq<char>)
    requires
        same_hits(eids, ps, id) > 0,
    ensures
        is_point_id(ps, id),
    decreases eids.len(),
{
    if mention_set(ps, eids.last()).contains(id) {
        lemma_mention_is_point(ps, eids.last(), id);
    } else {
        lemma_same_hits_point(eids.drop_last(), ps, id);
    }
}

proof fn lemma_out_hits_point(e: Seq<char>, rs: Seq<RelationView>, ps: Seq<KnowledgePointView>, id: Seq<char>)
    requires
        out_hits(e, rs, ps, id) > 0,
    ensures
        is_point_id(ps, id),
    decreases rs.len(),
{
    if rs.last().source_id == e && mention_set(ps, rs.last().target_id).contains(id) {
        lemma_mention_is_point(ps, rs.last().target_id, id);
    } else {
        lemma_out_hits_point(e, rs.drop_last(), ps, id);
    }
}

proof fn lemma_in_hits_point(e: Seq<char>, rs: Seq<RelationView>, ps: Seq<KnowledgePointView>, id: Seq<char>)
    requires
        in_hits(e, rs, ps, id) > 0,
    ensures
        is_point_id(ps, id),
    decreases rs.len(),
{
    if rs.last().target_id == e && mention_set(ps, rs.last().source_id).contains(id) {
        lemma_mention_is_point(ps, rs.last().source_id, id);
    } else {
        lemma_in_hits_point(e, rs.drop_last(), ps, id);
    }
}

proof fn lemma_link_hits_point(eids: Seq<Seq<char>>, rs: Seq<RelationView>, ps: Seq<KnowledgePointView>, id: Seq<char>)
    requires
        link_hits(eids, rs, ps, id) > 0,
    ensures
        is_point_id(ps, id),
    decreases eids.len(),
{
    if out_hits(eids.last(), rs, ps, id) > 0 {
        lemma_out_hits_point(eids.last(), rs, ps, id);
    } else if in_hits(eids.last(), rs, ps, id) > 0 {
        lemma_in_hits_point(eids.last(), rs, ps, id);
    } else {
        lemma_link_hits_point(eids.drop_last(), rs, ps, id);
    }
}

proof fn lemma_ranks_before_order(root: KnowledgePointView, g: PropositionGraphView, a: Seq<char>, b: Seq<char>, c: Seq<char>)
    ensures
        !ranks_before(root, g, a, a),
        ranks_before(root, g, a, b) && ranks_before(root, g, b, c) ==> ranks_before(root, g, a, c),
        a != b ==> ranks_before(root, g, a, b) || ranks_before(root, g, b, a),
{
    lemma_seq_lt_irreflexive(a);
    lemma_seq_lt_total(a, b);
    if seq_lt(a, b) && seq_lt(b, c) {
        lemma_seq_lt_transitive(a, b, c);
    }
}

/// Candidate IDs in rank order.
pub open spec fn ranked(root: KnowledgePointView, g: PropositionGraphView, s: Seq<Seq<char>>) -> bool {
    forall|i: int, j: int| 0 <= i < j < s.len() ==> ranks_before(root, g, #[trigger] s[i], #[trigger] s[j])
}

/// Inserts a candidate at its rank.
fn insert_ranked(
    ids: &mut Vec<String>,
    scores: &mut Vec<usize>,
    id: String,
    score: usize,
    Ghost(root): Ghost<KnowledgePointView>,
    Ghost(g): Ghost<PropositionGraphView>,
)
    requires
        old(ids)@.len() == old(scores)@.len(),
        ranked(root, g, strs(old(ids)@)),
        forall|k: int| 0 <= k < old(ids)@.len() ==> old(scores)@[k] == relatedness(root, g, #[trigger] old(ids)@[k]@),
        score == relatedness(root, g, id@),
        !strs(old(ids)@).contains(id@),
    ensures
        final(ids)@.len() == final(scores)@.len(),
        ranked(root, g, strs(final(ids)@)),
        forall|k: int| 0 <= k < final(ids)@.len() ==> final(scores)@[k] == relatedness(root, g, #[trigger] final(ids)@[k]@),
        strs(final(ids)@).to_set() == strs(old(ids)@).to_set().insert(id@),
{
    let ghost old_s = strs(ids@);
    let ghost idv = id@;
    let mut p: usize = 0;
    while p < ids.len() && (scores[p] > score || (scores[p] == score && str_lt(
        ids[p].as_str(),
        id.as_str(),
    )))
        invariant
            old_s == strs(ids@),
            idv == id@,
            ids@.len() == scores@.len(),
            score == relatedness(root, g, idv),
            forall|k: int| 0 <= k < ids@.len() ==> scores@[k] == relatedness(root, g, #[trigger] ids@[k]@),
            p <= old_s.len(),
            forall|k: int| 0 <= k < p ==> ranks_before(root, g, #[trigger] old_s[k], idv),
        decreases old_s.len() - p,
    {
        assert(old_s[p as int] == ids@[p as int]@);
        p = p + 1;
    }
    proof {
        if p < old_s.len() {
            assert(old_s[p as int] == ids@[p as int]@);
            assert(old_s[p as int] != idv);
            lemma_ranks_before_order(root, g, old_s[p as int], idv, idv);
        }
    }
    let ghost old_scores = scores@;
    ids.insert(p, id);
    scores.insert(p, score);
    proof {
        let s2 = strs(ids@);
        assert(s2 =~= old_s.insert(p as int, idv));
        old_s.insert_ensures(p as int, idv);
        old_scores.insert_ensures(p as int, score);
        assert forall|i: int, j: int| 0 <= i < j < s2.len() implies ranks_before(
            root,
            g,
            #[trigger] s2[i],
            #[trigger] s2[j],
        ) by {
            if j < p {
            } else if i < p && j == p {
            } else if i < p {
                assert(s2[j] == old_s[j - 1]);
                lemma_ranks_before_order(root, g, old_s[i], idv, old_s[p as int]);
                if j - 1 > p {
                    lemma_ranks_before_order(root, g, old_s[i], old_s[p as int], old_s[j - 1]);
                }
            } else if i == p {
                assert(s2[j] == old_s[j - 1]);
                if j - 1 > p {
                    lemma_ranks_before_order(root, g, idv, old_s[p as int], old_s[j - 1]);
                }
            } else {
                assert(s2[i] == old_s[i - 1]);
                assert(s2[j] == old_s[j - 1]);
            }
        }
        assert forall|k: int| 0 <= k < ids@.len() implies scores@[k] == relatedness(
            root,
            g,
            #[trigger] ids@[k]@,
        ) by {
            if k < p {
                assert(ids@[k] == old(ids)@[k]);
            } else if k > p {
                assert(ids@[k] == old(ids)@[k - 1]);
            }
        }
        crate::text::lemma_insert_to_set(old_s, p as int, idv);
    }
}

proof fn lemma_first_point(ps: Seq<KnowledgePointView>, id: Seq<char>, k: int)
    requires
        0 <= k < ps.len(),
        ps[k].id == id,
        forall|j: int| 0 <= j < k ==> (#[trigger] ps[j]).id != id,
    ensures
        first_point(ps, id) == Some(ps[k]),
    decreases ps.len(),
{
    if k < ps.len() - 1 {
        lemma_first_point(ps.drop_last(), id, k);
        assert(ps.drop_last()[k] == ps[k]);
    } else {
        lemma_no_point(ps.drop_last(), id);
    }
}

proof fn lemma_no_point(ps: Seq<KnowledgePointView>, id: Seq<char>)
    requires
        forall|j: int| 0 <= j < ps.len() ==> (#[trigger] ps[j]).id != id,
    ensures
        first_point(ps, id) is None,
    decreases ps.len(),
{
    if ps.len() > 0 {
        lemma_no_point(ps.drop_last(), id);
        assert(ps[ps.len() - 1].id != id);
    }
}

/// The IDs of a list of points.
pub open spec fn point_ids(ps: Seq<KnowledgePointView>) -> Seq<Seq<char>> {
    ps.map_values(|p: KnowledgePointView| p.id)
}

/// Selects up to three related points for `root`, best score first and
/// then by point ID; every point with a positive score competes, and the
/// root itself never does. Each selected ID is given as the first point
/// that carries it.
pub fn find_related_points(
    root_point: &KnowledgePoint,
    graph: &PropositionGraph,
    index: &GraphIndex,
) -> (r: Vec<KnowledgePoint>)
    requires
        index.graph() == graph@,
        forall|id: Seq<char>| relatedness(root_point@, graph@, id) <= usize::MAX,
    ensures
        top_related(root_point@, graph@, point_ids(point_views(r@))),
        forall|i: int| 0 <= i < r@.len() ==> Some(#[trigger] r@[i]@) == first_point(
            graph@.knowledge_points,
            r@[i].id@,
        ),
{
    let ghost root = root_point@;
    let ghost g = graph@;
    let ghost ps = g.knowledge_points;
    let mut ids: Vec<String> = Vec::new();
    let mut scores: Vec<usize> = Vec::new();
    for i in 0..graph.knowledge_points.len()
        invariant
            root == root_point@,
            g == graph@,
            ps == g.knowledge_points,
            index.graph() == graph@,
            forall|id: Seq<char>| relatedness(root, g, id) <= usize::MAX,
            ids@.len() == scores@.len(),
            ranked(root, g, strs(ids@)),
            forall|k: int| 0 <= k < ids@.len() ==> scores@[k] == relatedness(root, g, #[trigger] ids@[k]@),
            forall|c: Seq<char>|
                #[trigger] strs(ids@).contains(c) <==> (relatedness(root, g, c) > 0 && is_point_id(
                    ps.take(i as int),
                    c,
                )),
    {
        let p = &graph.knowledge_points[i];
        let ghost before = strs(ids@);
        proof {
            assert(ps[i as int] == p@);
        }
        if !str_eq(p.id.as_str(), root_point.id.as_str()) && !contains_str(&ids, p.id.as_str()) {
            let score = score_of(root_point, graph, index, p.id.as_str());
            if score > 0 {
                insert_ranked(&mut ids, &mut scores, p.id.clone(), score, Ghost(root), Ghost(g));
            }
        }
        assert forall|c: Seq<char>| #[trigger] strs(ids@).contains(c) <==> (relatedness(root, g, c) > 0
            && is_point_id(ps.take(i + 1), c)) by {
            assert(strs(ids@).contains(c) <==> strs(ids@).to_set().contains(c));
            assert(before.contains(c) <==> before.to_set().contains(c));
            if is_point_id(ps.take(i + 1), c) {
                let k = choose|k: int| 0 <= k < ps.take(i + 1).len() && (#[trigger] ps.take(i + 1)[k]).id == c;
                if k < i {
                    assert(ps.take(i as int)[k] == ps.take(i + 1)[k]);
                }
            }
            if is_point_id(ps.take(i as int), c) {
                let k = choose|k: int| 0 <= k < ps.take(i as int).len() && (#[trigger] ps.take(i as int)[k]).id == c;
                assert(ps.take(i + 1)[k] == ps.take(i as int)[k]);
            }
            if c == p@.id {
                assert(ps.take(i + 1)[i as int] == p@);
            }
        }
    }
    assert(ps.take(graph.knowledge_points@.len() as int) =~= ps);
    // The first MAX_RELATED_POINTS ranked candidates, each as its first point.
    let m = if ids.len() < MAX_RELATED_POINTS {
        ids.len()
    } else {
        MAX_RELATED_POINTS
    };
    let mut result: Vec<KnowledgePoint> = Vec::new();
    for t in 0..m
        invariant
            m <= ids@.len(),
            g == graph@,
            ps == g.knowledge_points,
            result@.len() == t,
            forall|k: int| 0 <= k < t ==> (#[trigger] result@[k]).id@ == ids@[k]@,
            forall|k: int| 0 <= k < t ==> Some(#[trigger] result@[k]@) == first_point(ps, result@[k].id@),
            forall|c: Seq<char>|
                #[trigger] strs(ids@).contains(c) <==> (relatedness(root, g, c) > 0 && is_point_id(ps, c)),
    {
        let target = &ids[t];
        proof {
            assert(strs(ids@)[t as int] == target@);
            assert(strs(ids@).contains(target@));
        }
        let mut k: usize = 0;
        while k < graph.knowledge_points.len() && !str_eq(
            graph.knowledge_points[k].id.as_str(),
            target.as_str(),
        )
            invariant
                g == graph@,
                ps == g.knowledge_points,
                k <= ps.len(),
                is_point_id(ps, target@),
                forall|j: int| 0 <= j < k ==> (#[trigger] ps[j]).id != target@,
            decreases ps.len() - k,
        {
            k = k + 1;
        }
        proof {
            if k == ps.len() {
                let j = choose|j: int| 0 <= j < ps.len() && (#[trigger] ps[j]).id == target@;
                assert(ps[j].id != target@);
            }
            lemma_first_point(ps, target@, k as int);
        }
        result.push(graph.knowledge_points[k].duplicate());
    }
    proof {
        let r = point_ids(point_views(result@));
        let all = strs(ids@);
        assert(r =~= all.take(m as int));
        assert forall|c: Seq<char>| relatedness(root, g, c) > 0 && !r.contains(c) implies r.len()
            == MAX_RELATED_POINTS && forall|i: int| 0 <= i < r.len() ==> ranks_before(root, g, #[trigger] r[i], c) by {
            lemma_hits_are_points(root, g, c);
            assert(all.contains(c));
            let q = choose|q: int| 0 <= q < all.len() && all[q] == c;
            if q < m {
                assert(r[q] == c);
            }
            assert forall|i: int| 0 <= i < r.len() implies ranks_before(root, g, #[trigger] r[i], c) by {
                assert(r[i] == all[i]);
            }
        }
        assert forall|i: int| 0 <= i < r.len() implies relatedness(root, g, #[trigger] r[i]) > 0 by {
            assert(r[i] == all[i]);
            assert(all.contains(all[i]));
        }
        assert forall|i: int, j: int| 0 <= i < j < r.len() implies ranks_before(root, g, #[trigger] r[i], #[trigger] r[j]) by {
            assert(r[i] == all[i] && r[j] == all[j]);
        }
    }
    result
}


// =====================================================================
// Bundles
// =====================================================================
/// The relations with an endpoint among `eids`, in graph order.
pub open spec fn supporting_relations(eids: Seq<Seq<char>>, rs: Seq<RelationView>) -> Seq<RelationView>
    decreases rs.len(),
{
    if rs.len() == 0 {
        Seq::empty()
    } else {
        let prev = supporting_relations(eids, rs.drop_last());
        let r = rs.last();
        if eids.contains(r.source_id) || eids.contains(r.target_id) {
            prev.push(r)
        } else {
            prev
        }
    }
}

/// The first entity with ID `id`.
pub open spec fn first_entity(es: Seq<EntityNodeView>, id: Seq<char>) -> Option<EntityNodeView>
    decreases es.len(),
{
    if es.len() == 0 {
        None
    } else {
        match first_entity(es.drop_last(), id) {
            Some(e) => Some(e),
            None => if es.last().id == id {
                Some(es.last())
            } else {
                None
            },
        }
    }
}

/// Visits one endpoint: the first time an ID is seen, its first entity (if
/// the graph has one) is added.
pub open spec fn visit_endpoint(
    state: (Seq<Seq<char>>, Seq<EntityNodeView>),
    id: Seq<char>,
    es: Seq<EntityNodeView>,
) -> (Seq<Seq<char>>, Seq<EntityNodeView>) {
    if state.0.contains(id) {
        state
    } else {
        (
            state.0.push(id),
            match first_entity(es, id) {
                Some(e) => state.1.push(e),
                None => state.1,
            },
        )
    }
}

/// The endpoints seen so far and the supporting entities, relation by
/// relation, source before target.
pub open spec fn support_walk(rels: Seq<RelationView>, es: Seq<EntityNodeView>) -> (Seq<Seq<char>>, Seq<EntityNodeView>)
    decreases rels.len(),
{
    if rels.len() == 0 {
        (Seq::empty(), Seq::empty())
    } else {
        let prev = support_walk(rels.drop_last(), es);
        visit_endpoint(visit_endpoint(prev, rels.last().source_id, es), rels.last().target_id, es)
    }
}

/// `b` is the bundle the graph yields for `root`.
pub open spec fn is_bundle_for(
    b: crate::graph::types::GraphContextBundleView,
    root: KnowledgePointView,
    g: PropositionGraphView,
) -> bool {
    &&& b.root_point == root
    &&& top_related(root, g, point_ids(b.related_points))
    &&& forall|j: int| 0 <= j < b.related_points.len() ==> Some(#[trigger] b.related_points[j]) == first_point(
        g.knowledge_points,
        b.related_points[j].id,
    )
    &&& b.supporting_relations == supporting_relations(root.entity_ids, g.relations)
    &&& b.supporting_entities == support_walk(b.supporting_relations, g.entities).1
    &&& b.question_type == if b.supporting_relations.len() == 0 {
        QuestionType::Recall
    } else {
        QuestionType::Relational
    }
}

/// The first entity with this ID, copied.
fn find_entity(entities: &Vec<EntityNode>, id: &str) -> (r: Option<EntityNode>)
    ensures
        match r {
            Some(e) => first_entity(entity_views(entities@), id@) == Some(e@),
            None => first_entity(entity_views(entities@), id@) is None,
        },
{
    let ghost es = entity_views(entities@);
    for k in 0..entities.len()
        invariant
            es == entity_views(entities@),
            forall|j: int| 0 <= j < k ==> (#[trigger] es[j]).id != id@,
    {
        if str_eq(entities[k].id.as_str(), id) {
            proof {
                lemma_first_entity(es, id@, k as int);
            }
            return Some(entities[k].duplicate());
        }
    }
    proof {
        lemma_no_entity(es, id@);
    }
    None
}

proof fn lemma_first_entity(es: Seq<EntityNodeView>, id: Seq<char>, k: int)
    requires
        0 <= k < es.len(),
        es[k].id == id,
        forall|j: int| 0 <= j < k ==> (#[trigger] es[j]).id != id,
    ensures
        first_entity(es, id) == Some(es[k]),
    decreases es.len(),
{
    if k < es.len() - 1 {
        lemma_first_entity(es.drop_last(), id, k);
        assert(es.drop_last()[k] == es[k]);
    } else {
        lemma_no_entity(es.drop_last(), id);
    }
}

proof fn lemma_no_entity(es: Seq<EntityNodeView>, id: Seq<char>)
    requires
        forall|j: int| 0 <= j < es.len() ==> (#[trigger] es[j]).id != id,
    ensures
        first_entity(es, id) is None,
    decreases es.len(),
{
    if es.len() > 0 {
        lemma_no_entity(es.drop_last(), id);
        assert(es[es.len() - 1].id != id);
    }
}

/// Adds one endpoint to the walk state.
fn visit(seen: &mut Vec<String>, out: &mut Vec<EntityNode>, id: &String, entities: &Vec<EntityNode>)
    ensures
        (strs(final(seen)@), entity_views(final(out)@)) == visit_endpoint(
            (strs(old(seen)@), entity_views(old(out)@)),
            id@,
            entity_views(entities@),
        ),
{
    if !contains_str(seen, id.as_str()) {
        let ghost prev_seen = seen@;
        seen.push(id.clone());
        assert(strs(seen@) =~= strs(prev_seen).push(id@));
        match find_entity(entities, id.as_str()) {
            Some(e) => {
                let ghost prev_out = out@;
                out.push(e);
                assert(entity_views(out@) =~= entity_views(prev_out).push(e@));
            },
            None => {},
        }
    }
}

/// Builds the bundle for one root point.
fn bundle_for(root_point: &KnowledgePoint, graph: &PropositionGraph, index: &GraphIndex) -> (b: GraphContextBundle)
    requires
        index.graph() == graph@,
        forall|id: Seq<char>| relatedness(root_point@, graph@, id) <= usize::MAX,
    ensures
        is_bundle_for(b@, root_point@, graph@),
{
    let related = find_related_points(root_point, graph, index);
    let ghost rs = graph@.relations;
    let ghost eids = root_point@.entity_ids;
    let mut supporting: Vec<Relation> = Vec::new();
    assert(rs.take(0) =~= Seq::<RelationView>::empty());
    assert(relation_views(supporting@) =~= Seq::<RelationView>::empty());
    for i in 0..graph.relations.len()
        invariant
            rs == graph@.relations,
            eids == root_point@.entity_ids,
            relation_views(supporting@) == supporting_relations(eids, rs.take(i as int)),
    {
        let rel = &graph.relations[i];
        proof {
            assert(rs.take(i + 1).drop_last() =~= rs.take(i as int));
            assert(rs.take(i + 1).last() == rel@);
        }
        if contains_str(&root_point.entity_ids, rel.source_id.as_str()) || contains_str(
            &root_point.entity_ids,
            rel.target_id.as_str(),
        ) {
            let ghost prev = supporting@;
            supporting.push(rel.duplicate());
            assert(relation_views(supporting@) =~= relation_views(prev).push(rel@));
        }
    }
    assert(rs.take(graph.relations@.len() as int) =~= rs);
    let ghost sr = relation_views(supporting@);
    let mut seen: Vec<String> = Vec::new();
    let mut entities_out: Vec<EntityNode> = Vec::new();
    assert(sr.take(0) =~= Seq::<RelationView>::empty());
    assert(strs(seen@) =~= Seq::<Seq<char>>::empty());
    assert(entity_views(entities_out@) =~= Seq::<EntityNodeView>::empty());
    for i in 0..supporting.len()
        invariant
            sr == relation_views(supporting@),
            (strs(seen@), entity_views(entities_out@)) == support_walk(sr.take(i as int), graph@.entities),
    {
        proof {
            assert(sr.take(i + 1).drop_last() =~= sr.take(i as int));
            assert(sr.take(i + 1).last() == supporting@[i as int]@);
        }
        visit(&mut seen, &mut entities_out, &supporting[i].source_id, &graph.entities);
        visit(&mut seen, &mut entities_out, &supporting[i].target_id, &graph.entities);
    }
    assert(sr.take(supporting@.len() as int) =~= sr);
    let question_type = if supporting.len() == 0 {
        QuestionType::Recall
    } else {
        QuestionType::Relational
    };
    GraphContextBundle {
        root_point: root_point.duplicate(),
        related_points: related,
        question_type,
        supporting_entities: entities_out,
        supporting_relations: supporting,
    }
}

/// Assembles one bundle per knowledge point, in graph order: the point,
/// its related points, the relations touching its entities and the
/// entities at their ends, and a relational question type exactly when
/// there are supporting relations.
pub fn assemble_bundles(graph: &PropositionGraph, index: &GraphIndex) -> (r: Vec<GraphContextBundle>)
    requires
        index.graph() == graph@,
        forall|i: int, id: Seq<char>|
            0 <= i < graph@.knowledge_points.len() ==> #[trigger] relatedness(
                graph@.knowledge_points[i],
                graph@,
                id,
            ) <= usize::MAX,
    ensures
        r@.len() == graph@.knowledge_points.len(),
        forall|i: int| 0 <= i < r@.len() ==> is_bundle_for(#[trigger] r@[i]@, graph@.knowledge_points[i], graph@),
{
    let mut bundles: Vec<GraphContextBundle> = Vec::new();
    for i in 0..graph.knowledge_points.len()
        invariant
            index.graph() == graph@,
            forall|i: int, id: Seq<char>|
                0 <= i < graph@.knowledge_points.len() ==> #[trigger] relatedness(
                    graph@.knowledge_points[i],
                    graph@,
                    id,
                ) <= usize::MAX,
            bundles@.len() == i,
            forall|k: int| 0 <= k < i ==> is_bundle_for(#[trigger] bundles@[k]@, graph@.knowledge_points[k], graph@),
    {
        let root = &graph.knowledge_points[i];
        proof {
            assert(graph@.knowledge_points[i as int] == root@);
            assert forall|id: Seq<char>| relatedness(root@, graph@, id) <= usize::MAX by {
                assert(relatedness(graph@.knowledge_points[i as int], graph@, id) <= usize::MAX);
            }
        }
        let b = bundle_for(root, graph, index);
        bundles.push(b);
    }
    bundles
}


/// A bundle never lists its root among the related points, holds at most
/// three of them, and asks a relational question exactly when it has
/// supporting relations.
pub proof fn lemma_bundle_shape(
    b: crate::graph::types::GraphContextBundleView,
    root: KnowledgePointView,
    g: PropositionGraphView,
)
    requires
        is_bundle_for(b, root, g),
    ensures
        forall|j: int| 0 <= j < b.related_points.len() ==> (#[trigger] b.related_points[j]).id != root.id,
        b.related_points.len() <= MAX_RELATED_POINTS,
        (b.question_type == QuestionType::Relational) <==> b.supporting_relations.len() > 0,
{
    let ids = point_ids(b.related_points);
    assert forall|j: int| 0 <= j < b.related_points.len() implies (#[trigger] b.related_points[j]).id
        != root.id by {
        assert(ids[j] == b.related_points[j].id);
        assert(relatedness(root, g, ids[j]) > 0);
    }
}

// =====================================================================
// Laws
// =====================================================================
/// The graph has an entity with this ID.
pub open spec fn graph_has_entity(es: Seq<EntityNodeView>, id: Seq<char>) -> bool {
    exists|j: int| 0 <= j < es.len() && (#[trigger] es[j]).id == id
}

/// Every seen ID that names a graph entity has an entity with that ID among
/// the collected entities.
spec fn covers_seen(state: (Seq<Seq<char>>, Seq<EntityNodeView>), es: Seq<EntityNodeView>) -> bool {
    forall|id: Seq<char>|
        #![trigger state.0.contains(id), graph_has_entity(es, id)]
        state.0.contains(id) && graph_has_entity(es, id) ==> graph_has_entity(state.1, id)
}

proof fn lemma_first_entity_found(es: Seq<EntityNodeView>, id: Seq<char>)
    ensures
        graph_has_entity(es, id) ==> first_entity(es, id) is Some,
        first_entity(es, id) matches Some(e) ==> e.id == id,
    decreases es.len(),
{
    if es.len() > 0 {
        let init = es.drop_last();
        lemma_first_entity_found(init, id);
        if graph_has_entity(es, id) && first_entity(init, id) is None {
            let j = choose|j: int| 0 <= j < es.len() && (#[trigger] es[j]).id == id;
            if j < init.len() {
                assert(init[j] == es[j]);
                assert(graph_has_entity(init, id));
            }
        }
    }
}

proof fn lemma_visit_endpoint(state: (Seq<Seq<char>>, Seq<EntityNodeView>), id: Seq<char>, es: Seq<EntityNodeView>)
    requires
        covers_seen(state, es),
    ensures
        covers_seen(visit_endpoint(state, id, es), es),
        visit_endpoint(state, id, es).0.contains(id),
        forall|x: Seq<char>| state.0.contains(x) ==> #[trigger] visit_endpoint(state, id, es).0.contains(x),
{
    let next = visit_endpoint(state, id, es);
    lemma_first_entity_found(es, id);
    if !state.0.contains(id) {
        assert(next.0[next.0.len() - 1] == id);
        assert forall|x: Seq<char>| state.0.contains(x) implies #[trigger] next.0.contains(x) by {
            let k = choose|k: int| 0 <= k < state.0.len() && state.0[k] == x;
            assert(next.0[k] == x);
        }
        assert forall|x: Seq<char>|
            #![trigger next.0.contains(x), graph_has_entity(es, x)]
            next.0.contains(x) && graph_has_entity(es, x) implies graph_has_entity(next.1, x) by {
            if x == id {
                let e = first_entity(es, id)->Some_0;
                assert(next.1[next.1.len() - 1] == e);
            } else {
                let k = choose|k: int| 0 <= k < next.0.len() && next.0[k] == x;
                assert(next.0 == state.0.push(id));
                assert(k < state.0.len());
                assert(state.0[k] == x);
                assert(state.0.contains(x));
                assert(graph_has_entity(state.1, x));
                let j = choose|j: int| 0 <= j < state.1.len() && (#[trigger] state.1[j]).id == x;
                assert(next.1[j] == state.1[j]);
            }
        }
    }
}

proof fn lemma_support_walk(rels: Seq<RelationView>, es: Seq<EntityNodeView>)
    ensures
        covers_seen(support_walk(rels, es), es),
        forall|k: int|
            0 <= k < rels.len() ==> support_walk(rels, es).0.contains(#[trigger] rels[k].source_id)
                && support_walk(rels, es).0.contains(rels[k].target_id),
    decreases rels.len(),
{
    if rels.len() > 0 {
        let init = rels.drop_last();
        lemma_support_walk(init, es);
        let prev = support_walk(init, es);
        let r = rels.last();
        let mid = visit_endpoint(prev, r.source_id, es);
        lemma_visit_endpoint(prev, r.source_id, es);
        lemma_visit_endpoint(mid, r.target_id, es);
        assert forall|k: int| 0 <= k < rels.len() implies support_walk(rels, es).0.contains(
            #[trigger] rels[k].source_id,
        ) && support_walk(rels, es).0.contains(rels[k].target_id) by {
            if k < init.len() {
                assert(init[k] == rels[k]);
            }
        }
    }
}

/// The supporting entities of a bundle cover its supporting relations:
/// for every supporting relation, the graph's entity at each end (when the
/// graph has an entity with that ID) is among the supporting entities.
pub proof fn lemma_bundle_entities_cover_relations(
    b: crate::graph::types::GraphContextBundleView,
    root: KnowledgePointView,
    g: PropositionGraphView,
)
    requires
        is_bundle_for(b, root, g),
    ensures
        forall|k: int|
            0 <= k < b.supporting_relations.len() && graph_has_entity(
                g.entities,
                (#[trigger] b.supporting_relations[k]).source_id,
            ) ==> graph_has_entity(b.supporting_entities, b.supporting_relations[k].source_id),
        forall|k: int|
            0 <= k < b.supporting_relations.len() && graph_has_entity(
                g.entities,
                (#[trigger] b.supporting_relations[k]).target_id,
            ) ==> graph_has_entity(b.supporting_entities, b.supporting_relations[k].target_id),
{
    lemma_support_walk(b.supporting_relations, g.entities);
    let w = support_walk(b.supporting_relations, g.entities);
    assert forall|k: int|
        0 <= k < b.supporting_relations.len() && graph_has_entity(
            g.entities,
            (#[trigger] b.supporting_relations[k]).source_id,
        ) implies graph_has_entity(b.supporting_entities, b.supporting_relations[k].source_id) by {
        assert(w.0.contains(b.supporting_relations[k].source_id));
    }
    assert forall|k: int|
        0 <= k < b.supporting_relations.len() && graph_has_entity(
            g.entities,
            (#[trigger] b.supporting_relations[k]).target_id,
        ) implies graph_has_entity(b.supporting_entities, b.supporting_relations[k].target_id) by {
        assert(w.0.contains(b.supporting_relations[k].target_id));
    }
}

} // verus!
