//! Lookup tables over a consolidated graph: the points that mention each
//! entity, the outgoing edges of each entity, and entity and point lookup
//! by ID.
use vstd::prelude::*;

use crate::graph::types::{
    EntityNode, EntityNodeView, KnowledgePoint, KnowledgePointView, PropositionGraph,
    PropositionGraphView, RelationType, RelationView, entity_views, point_views,
};
use crate::text::{
    contains_str, insert_sorted_unique, lemma_seq_lt_irreflexive, lemma_seq_lt_total,
    lemma_seq_lt_transitive, lemma_strictly_sorted_unique, seq_lt, str_eq, str_lt,
    strictly_sorted, strs,
};

verus! {

// =====================================================================
// Specification
// =====================================================================
/// The IDs of the points that mention entity `e`.
pub open spec fn mention_set(ps: Seq<KnowledgePointView>, e: Seq<char>) -> Set<Seq<char>> {
    Set::new(
        |id: Seq<char>|
            exists|i: int| 0 <= i < ps.len() && ps[i].id == id && ps[i].entity_ids.contains(e),
    )
}

/// Some point lists `x` among its entity IDs.
pub open spec fn referenced_by_points(ps: Seq<KnowledgePointView>, x: Seq<char>) -> bool {
    exists|i: int| 0 <= i < ps.len() && (#[trigger] ps[i]).entity_ids.contains(x)
}

/// Some relation starts at `x`.
pub open spec fn is_source(rs: Seq<RelationView>, x: Seq<char>) -> bool {
    exists|i: int| 0 <= i < rs.len() && (#[trigger] rs[i]).source_id == x
}

/// The outgoing edges of `e` as (relation type, target ID), in relation order.
pub open spec fn edges_of(rs: Seq<RelationView>, e: Seq<char>) -> Seq<(RelationType, Seq<char>)>
    decreases rs.len(),
{
    if rs.len() == 0 {
        Seq::empty()
    } else if rs.last().source_id == e {
        edges_of(rs.drop_last(), e).push((rs.last().relation_type, rs.last().target_id))
    } else {
        edges_of(rs.drop_last(), e)
    }
}

/// Position of a relation type when types are ordered by their names.
pub open spec fn type_rank(t: RelationType) -> nat {
    match t {
        RelationType::Consequence => 0,
        RelationType::Contrasts => 1,
        RelationType::CounterExample => 2,
        RelationType::Example => 3,
        RelationType::Prerequisite => 4,
        RelationType::RelatedTo => 5,
    }
}

/// Edge order: by target ID, then by relation type name.
pub open spec fn edge_le(a: (RelationType, Seq<char>), b: (RelationType, Seq<char>)) -> bool {
    seq_lt(a.1, b.1) || (a.1 == b.1 && type_rank(a.0) <= type_rank(b.0))
}

/// Edges in nondecreasing edge order.
pub open spec fn edges_sorted(s: Seq<(RelationType, Seq<char>)>) -> bool {
    forall|i: int, j: int| 0 <= i < j < s.len() ==> edge_le(#[trigger] s[i], #[trigger] s[j])
}

/// The last entity with ID `id`.
pub open spec fn last_entity(es: Seq<EntityNodeView>, id: Seq<char>) -> Option<EntityNodeView>
    decreases es.len(),
{
    if es.len() == 0 {
        None
    } else if es.last().id == id {
        Some(es.last())
    } else {
        last_entity(es.drop_last(), id)
    }
}

/// The last knowledge point with ID `id`.
pub open spec fn last_point(ps: Seq<KnowledgePointView>, id: Seq<char>) -> Option<KnowledgePointView>
    decreases ps.len(),
{
    if ps.len() == 0 {
        None
    } else if ps.last().id == id {
        Some(ps.last())
    } else {
        last_point(ps.drop_last(), id)
    }
}

/// The sorted, distinct IDs of the points that mention entity `e`.
pub open spec fn sorted_mentions(ps: Seq<KnowledgePointView>, e: Seq<char>) -> Seq<Seq<char>> {
    choose|s: Seq<Seq<char>>| strictly_sorted(s) && s.to_set() == mention_set(ps, e)
}

/// The outgoing edges of entity `e` in edge order.
pub open spec fn sorted_edges(rs: Seq<RelationView>, e: Seq<char>) -> Seq<(RelationType, Seq<char>)> {
    choose|s: Seq<(RelationType, Seq<char>)>| edges_sorted(s) && s.to_multiset() == edges_of(rs, e).to_multiset()
}

/// Entity IDs that some point or relation source references.
pub open spec fn is_referenced(g: PropositionGraphView, x: Seq<char>) -> bool {
    referenced_by_points(g.knowledge_points, x) || is_source(g.relations, x)
}

/// The sorted, distinct entity IDs that the graph references.
pub open spec fn sorted_referenced_ids(g: PropositionGraphView) -> Seq<Seq<char>> {
    choose|s: Seq<Seq<char>>| strictly_sorted(s) && forall|x: Seq<char>| #[trigger] s.contains(x) <==> is_referenced(g, x)
}

/// Each list that `points_for_entity` may return is `sorted_mentions`.
pub proof fn lemma_sorted_mentions_unique(ps: Seq<KnowledgePointView>, e: Seq<char>, s: Seq<Seq<char>>)
    requires
        strictly_sorted(s),
        s.to_set() == mention_set(ps, e),
    ensures
        sorted_mentions(ps, e) == s,
{
    let c = sorted_mentions(ps, e);
    lemma_strictly_sorted_unique(c, s);
}

/// Each list that `all_entity_ids` may return is `sorted_referenced_ids`.
pub proof fn lemma_sorted_referenced_ids_unique(g: PropositionGraphView, s: Seq<Seq<char>>)
    requires
        strictly_sorted(s),
        forall|x: Seq<char>| #[trigger] s.contains(x) <==> is_referenced(g, x),
    ensures
        sorted_referenced_ids(g) == s,
{
    let c = sorted_referenced_ids(g);
    assert forall|x: Seq<char>| c.to_set().contains(x) <==> s.to_set().contains(x) by {
        assert(c.contains(x) <==> is_referenced(g, x));
    }
    assert(c.to_set() =~= s.to_set());
    lemma_strictly_sorted_unique(c, s);
}

/// `edge_le` orders no two distinct edges both ways.
proof fn lemma_edge_le_antisymmetric(a: (RelationType, Seq<char>), b: (RelationType, Seq<char>))
    requires
        edge_le(a, b),
        edge_le(b, a),
    ensures
        a == b,
{
    lemma_seq_lt_irreflexive(a.1);
    if seq_lt(a.1, b.1) && seq_lt(b.1, a.1) {
        lemma_seq_lt_transitive(a.1, b.1, a.1);
    }
    assert(a.0 == b.0);
}

/// Two edge lists in edge order with the same members, counted with
/// multiplicity, are equal.
pub proof fn lemma_sorted_edge_lists_unique(a: Seq<(RelationType, Seq<char>)>, b: Seq<(RelationType, Seq<char>)>)
    requires
        edges_sorted(a),
        edges_sorted(b),
        a.to_multiset() == b.to_multiset(),
    ensures
        a == b,
    decreases a.len(),
{
    vstd::seq_lib::to_multiset_len(a);
    vstd::seq_lib::to_multiset_len(b);
    if a.len() == 0 {
        assert(a =~= b);
    } else {
        vstd::seq_lib::to_multiset_contains(a, a[0]);
        vstd::seq_lib::to_multiset_contains(b, a[0]);
        vstd::seq_lib::to_multiset_contains(b, b[0]);
        vstd::seq_lib::to_multiset_contains(a, b[0]);
        assert(a.contains(a[0]));
        assert(b.contains(b[0]));
        let j = choose|j: int| 0 <= j < b.len() && b[j] == a[0];
        let k = choose|k: int| 0 <= k < a.len() && a[k] == b[0];
        if a[0] != b[0] {
            assert(edge_le(a[0], a[k]));
            assert(edge_le(b[0], b[j]));
            lemma_edge_le_antisymmetric(a[0], b[0]);
        }
        let a1 = a.drop_first();
        let b1 = b.drop_first();
        vstd::seq_lib::to_multiset_remove(a, 0);
        vstd::seq_lib::to_multiset_remove(b, 0);
        assert(a.remove(0) =~= a1);
        assert(b.remove(0) =~= b1);
        assert forall|i: int, j: int| 0 <= i < j < a1.len() implies edge_le(#[trigger] a1[i], #[trigger] a1[j]) by {
            assert(a1[i] == a[i + 1] && a1[j] == a[j + 1]);
        }
        assert forall|i: int, j: int| 0 <= i < j < b1.len() implies edge_le(#[trigger] b1[i], #[trigger] b1[j]) by {
            assert(b1[i] == b[i + 1] && b1[j] == b[j + 1]);
        }
        lemma_sorted_edge_lists_unique(a1, b1);
        assert forall|i: int| 0 <= i < a.len() implies a[i] == b[i] by {
            if i > 0 {
                assert(a[i] == a1[i - 1] && b[i] == b1[i - 1]);
            }
        }
        assert(a =~= b);
    }
}

/// Each list that `edges_from_entity` may return is `sorted_edges`.
pub proof fn lemma_sorted_edges_unique(rs: Seq<RelationView>, e: Seq<char>, s: Seq<(RelationType, Seq<char>)>)
    requires
        edges_sorted(s),
        s.to_multiset() == edges_of(rs, e).to_multiset(),
    ensures
        sorted_edges(rs, e) == s,
{
    let c = sorted_edges(rs, e);
    lemma_sorted_edge_lists_unique(c, s);
}

pub open spec fn edge_views(v: Seq<(RelationType, String)>) -> Seq<(RelationType, Seq<char>)> {
    v.map_values(|e: (RelationType, String)| (e.0, e.1@))
}

// =====================================================================
// The index
// =====================================================================
/// Lookup tables over one consolidated graph.
pub struct GraphIndex {
    point_keys: Vec<String>,
    point_lists: Vec<Vec<String>>,
    edge_keys: Vec<String>,
    edge_lists: Vec<Vec<(RelationType, String)>>,
    entities: Vec<EntityNode>,
    points: Vec<KnowledgePoint>,
    source: Ghost<PropositionGraphView>,
}

impl GraphIndex {
    /// The graph this index was built from.
    pub closed spec fn graph(self) -> PropositionGraphView {
        self.source@
    }

    #[verifier::type_invariant]
    closed spec fn inv(self) -> bool {
        let g = self.source@;
        &&& entity_views(self.entities@) == g.entities
        &&& point_views(self.points@) == g.knowledge_points
        &&& self.point_keys@.len() == self.point_lists@.len()
        &&& forall|k: int|
            0 <= k < self.point_lists@.len() ==> strictly_sorted(
                strs(#[trigger] self.point_lists@[k]@),
            ) && strs(self.point_lists@[k]@).to_set() == mention_set(
                g.knowledge_points,
                self.point_keys@[k]@,
            )
        &&& forall|x: Seq<char>|
            referenced_by_points(g.knowledge_points, x) <==> #[trigger] strs(self.point_keys@).contains(x)
        &&& self.edge_keys@.len() == self.edge_lists@.len()
        &&& forall|k: int|
            0 <= k < self.edge_lists@.len() ==> edges_sorted(
                edge_views(#[trigger] self.edge_lists@[k]@),
            ) && edge_views(self.edge_lists@[k]@).to_multiset() == edges_of(
                g.relations,
                self.edge_keys@[k]@,
            ).to_multiset()
        &&& forall|x: Seq<char>| is_source(g.relations, x) <==> #[trigger] strs(self.edge_keys@).contains(x)
    }
}


// =====================================================================
// Building
// =====================================================================
/// The entity IDs that points reference, each once.
fn collect_point_keys(points: &Vec<KnowledgePoint>) -> (r: Vec<String>)
    ensures
        forall|x: Seq<char>| referenced_by_points(point_views(points@), x) <==> #[trigger] strs(r@).contains(x),
{
    let ghost ps = point_views(points@);
    let mut keys: Vec<String> = Vec::new();
    for i in 0..points.len()
        invariant
            ps == point_views(points@),
            forall|x: Seq<char>| referenced_by_points(ps.take(i as int), x) <==> #[trigger] strs(keys@).contains(x),
    {
        let p = &points[i];
        for j in 0..p.entity_ids.len()
            invariant
                ps == point_views(points@),
                i < ps.len(),
                ps[i as int] == p@,
                forall|x: Seq<char>|
                    (referenced_by_points(ps.take(i as int), x) || p@.entity_ids.take(j as int).contains(x))
                        <==> #[trigger] strs(keys@).contains(x),
        {
            let ghost prev = strs(keys@);
            let id = &p.entity_ids[j];
            assert(p@.entity_ids[j as int] == id@);
            if !contains_str(&keys, id.as_str()) {
                keys.push(id.clone());
                assert(strs(keys@) =~= prev.push(id@));
            }
            assert forall|x: Seq<char>|
                (referenced_by_points(ps.take(i as int), x) || p@.entity_ids.take(j + 1).contains(x))
                    <==> #[trigger] strs(keys@).contains(x) by {
                assert(p@.entity_ids.take(j + 1) =~= p@.entity_ids.take(j as int).push(id@));
                vstd::seq_lib::lemma_seq_contains_after_push(p@.entity_ids.take(j as int), id@, x);
                vstd::seq_lib::lemma_seq_contains_after_push(prev, id@, x);
            }
        }
        assert forall|x: Seq<char>| referenced_by_points(ps.take(i + 1), x) <==> #[trigger] strs(
            keys@,
        ).contains(x) by {
            assert(p@.entity_ids.take(p@.entity_ids.len() as int) =~= p@.entity_ids);
            if referenced_by_points(ps.take(i + 1), x) {
                let k = choose|k: int| 0 <= k < ps.take(i + 1).len() && (#[trigger] ps.take(i + 1)[k]).entity_ids.contains(x);
                if k < i {
                    assert(ps.take(i as int)[k] == ps.take(i + 1)[k]);
                }
            }
            if referenced_by_points(ps.take(i as int), x) {
                let k = choose|k: int| 0 <= k < ps.take(i as int).len() && (#[trigger] ps.take(i as int)[k]).entity_ids.contains(x);
                assert(ps.take(i + 1)[k] == ps.take(i as int)[k]);
            }
            if p@.entity_ids.contains(x) {
                assert(ps.take(i + 1)[i as int] == p@);
            }
        }
    }
    assert(ps.take(points@.len() as int) =~= ps);
    keys
}

/// The sorted, distinct IDs of the points that mention `key`.
fn point_list_for(points: &Vec<KnowledgePoint>, key: &str) -> (r: Vec<String>)
    ensures
        strictly_sorted(strs(r@)),
        strs(r@).to_set() == mention_set(point_views(points@), key@),
{
    let ghost ps = point_views(points@);
    let mut list: Vec<String> = Vec::new();
    assert(strs(list@).to_set() =~= mention_set(ps.take(0), key@));
    for i in 0..points.len()
        invariant
            ps == point_views(points@),
            strictly_sorted(strs(list@)),
            strs(list@).to_set() == mention_set(ps.take(i as int), key@),
    {
        let p = &points[i];
        let ghost before = strs(list@).to_set();
        if contains_str(&p.entity_ids, key) {
            insert_sorted_unique(&mut list, p.id.clone());
        }
        assert forall|id: Seq<char>| #[trigger] mention_set(ps.take(i + 1), key@).contains(id) <==> strs(
            list@,
        ).to_set().contains(id) by {
            if mention_set(ps.take(i + 1), key@).contains(id) {
                let k = choose|k: int|
                    0 <= k < ps.take(i + 1).len() && (#[trigger] ps.take(i + 1)[k]).id == id
                        && ps.take(i + 1)[k].entity_ids.contains(key@);
                if k < i {
                    assert(ps.take(i as int)[k] == ps.take(i + 1)[k]);
                    assert(mention_set(ps.take(i as int), key@).contains(id));
                } else {
                    assert(ps.take(i + 1)[k] == p@);
                }
            }
            if mention_set(ps.take(i as int), key@).contains(id) {
                let k = choose|k: int|
                    0 <= k < ps.take(i as int).len() && (#[trigger] ps.take(i as int)[k]).id == id
                        && ps.take(i as int)[k].entity_ids.contains(key@);
                assert(ps.take(i + 1)[k] == ps.take(i as int)[k]);
            }
            if p@.entity_ids.contains(key@) && id == p@.id {
                assert(ps.take(i + 1)[i as int] == p@);
            }
        }
        assert(mention_set(ps.take(i + 1), key@) =~= strs(list@).to_set());
    }
    assert(ps.take(points@.len() as int) =~= ps);
    list
}

/// The distinct source IDs of the relations.
fn collect_sources(relations: &Vec<crate::graph::types::Relation>) -> (r: Vec<String>)
    ensures
        forall|x: Seq<char>| is_source(crate::graph::types::relation_views(relations@), x) <==> #[trigger] strs(r@).contains(x),
{
    let ghost rs = crate::graph::types::relation_views(relations@);
    let mut keys: Vec<String> = Vec::new();
    for i in 0..relations.len()
        invariant
            rs == crate::graph::types::relation_views(relations@),
            forall|x: Seq<char>| is_source(rs.take(i as int), x) <==> #[trigger] strs(keys@).contains(x),
    {
        let r = &relations[i];
        let ghost prev = strs(keys@);
        if !contains_str(&keys, r.source_id.as_str()) {
            keys.push(r.source_id.clone());
            assert(strs(keys@) =~= prev.push(r.source_id@));
        }
        assert forall|x: Seq<char>| is_source(rs.take(i + 1), x) <==> #[trigger] strs(keys@).contains(x) by {
            vstd::seq_lib::lemma_seq_contains_after_push(prev, r.source_id@, x);
            if is_source(rs.take(i + 1), x) {
                let k = choose|k: int| 0 <= k < rs.take(i + 1).len() && (#[trigger] rs.take(i + 1)[k]).source_id == x;
                if k < i {
                    assert(rs.take(i as int)[k] == rs.take(i + 1)[k]);
                } else {
                    assert(rs.take(i + 1)[k] == r@);
                }
            }
            if is_source(rs.take(i as int), x) {
                let k = choose|k: int| 0 <= k < rs.take(i as int).len() && (#[trigger] rs.take(i as int)[k]).source_id == x;
                assert(rs.take(i + 1)[k] == rs.take(i as int)[k]);
            }
            if x == r.source_id@ {
                assert(rs.take(i + 1)[i as int] == r@);
            }
        }
    }
    assert(rs.take(relations@.len() as int) =~= rs);
    keys
}

fn type_rank_exec(t: RelationType) -> (r: u8)
    ensures
        r == type_rank(t),
{
    match t {
        RelationType::Consequence => 0,
        RelationType::Contrasts => 1,
        RelationType::CounterExample => 2,
        RelationType::Example => 3,
        RelationType::Prerequisite => 4,
        RelationType::RelatedTo => 5,
    }
}

proof fn lemma_edge_le_transitive(a: (RelationType, Seq<char>), b: (RelationType, Seq<char>), c: (RelationType, Seq<char>))
    requires
        edge_le(a, b),
        edge_le(b, c),
    ensures
        edge_le(a, c),
{
    if seq_lt(a.1, b.1) && seq_lt(b.1, c.1) {
        lemma_seq_lt_transitive(a.1, b.1, c.1);
    }
}

proof fn lemma_edge_le_total(a: (RelationType, Seq<char>), b: (RelationType, Seq<char>))
    ensures
        edge_le(a, b) || edge_le(b, a),
{
    lemma_seq_lt_total(a.1, b.1);
}

/// Inserts an edge after every edge not greater than it.
fn insert_edge(v: &mut Vec<(RelationType, String)>, e: (RelationType, String))
    requires
        edges_sorted(edge_views(old(v)@)),
    ensures
        edges_sorted(edge_views(final(v)@)),
        edge_views(final(v)@).to_multiset() == edge_views(old(v)@).to_multiset().insert((e.0, e.1@)),
{
    let ghost old_s = edge_views(v@);
    let ghost ev = (e.0, e.1@);
    let mut p: usize = 0;
    while p < v.len() && (str_lt(v[p].1.as_str(), e.1.as_str()) || (str_eq(
        v[p].1.as_str(),
        e.1.as_str(),
    ) && type_rank_exec(v[p].0) <= type_rank_exec(e.0)))
        invariant
            old_s == edge_views(v@),
            ev == (e.0, e.1@),
            p <= old_s.len(),
            forall|k: int| 0 <= k < p ==> edge_le(#[trigger] old_s[k], ev),
        decreases old_s.len() - p,
    {
        assert(old_s[p as int] == (v@[p as int].0, v@[p as int].1@));
        p = p + 1;
    }
    proof {
        if p < old_s.len() {
            assert(old_s[p as int] == (v@[p as int].0, v@[p as int].1@));
            lemma_edge_le_total(old_s[p as int], ev);
        }
    }
    v.insert(p, e);
    proof {
        let s2 = edge_views(v@);
        assert(s2 =~= old_s.insert(p as int, ev));
        old_s.insert_ensures(p as int, ev);
        assert forall|i: int, j: int| 0 <= i < j < s2.len() implies edge_le(
            #[trigger] s2[i],
            #[trigger] s2[j],
        ) by {
            if j < p {
            } else if i < p && j == p {
            } else if i < p {
                assert(s2[j] == old_s[j - 1]);
            } else if i == p {
                assert(s2[j] == old_s[j - 1]);
                if j - 1 > p {
                    lemma_edge_le_transitive(ev, old_s[p as int], old_s[j - 1]);
                }
            } else {
                assert(s2[i] == old_s[i - 1]);
                assert(s2[j] == old_s[j - 1]);
            }
        }
        vstd::seq_lib::to_multiset_insert(old_s, p as int, ev);
    }
}

/// The outgoing edges of `key`, in edge order.
fn edge_list_for(relations: &Vec<crate::graph::types::Relation>, key: &str) -> (r: Vec<(RelationType, String)>)
    ensures
        edges_sorted(edge_views(r@)),
        edge_views(r@).to_multiset() == edges_of(crate::graph::types::relation_views(relations@), key@).to_multiset(),
{
    let ghost rs = crate::graph::types::relation_views(relations@);
    let mut list: Vec<(RelationType, String)> = Vec::new();
    assert(edge_views(list@) =~= Seq::<(RelationType, Seq<char>)>::empty());
    assert(rs.take(0) =~= Seq::<RelationView>::empty());
    assert(edges_of(rs.take(0), key@) =~= Seq::<(RelationType, Seq<char>)>::empty());
    for i in 0..relations.len()
        invariant
            rs == crate::graph::types::relation_views(relations@),
            edges_sorted(edge_views(list@)),
            edge_views(list@).to_multiset() == edges_of(rs.take(i as int), key@).to_multiset(),
    {
        let r = &relations[i];
        proof {
            assert(rs.take(i + 1).drop_last() =~= rs.take(i as int));
            assert(rs.take(i + 1).last() == r@);
        }
        if str_eq(r.source_id.as_str(), key) {
            insert_edge(&mut list, (r.relation_type, r.target_id.clone()));
            proof {
                let prev = edges_of(rs.take(i as int), key@);
                vstd::seq_lib::to_multiset_build(prev, (r.relation_type, r.target_id@));
            }
        }
    }
    assert(rs.take(relations@.len() as int) =~= rs);
    list
}

/// Builds the lookup tables for a consolidated graph.
pub fn build_index(graph: &PropositionGraph) -> (r: GraphIndex)
    ensures
        r.graph() == graph@,
{
    let ghost g = graph@;
    let point_keys = collect_point_keys(&graph.knowledge_points);
    let mut point_lists: Vec<Vec<String>> = Vec::new();
    for k in 0..point_keys.len()
        invariant
            g == graph@,
            point_lists@.len() == k,
            forall|j: int|
                0 <= j < k ==> strictly_sorted(strs(#[trigger] point_lists@[j]@)) && strs(
                    point_lists@[j]@,
                ).to_set() == mention_set(g.knowledge_points, point_keys@[j]@),
    {
        let list = point_list_for(&graph.knowledge_points, point_keys[k].as_str());
        point_lists.push(list);
    }
    let edge_keys = collect_sources(&graph.relations);
    let mut edge_lists: Vec<Vec<(RelationType, String)>> = Vec::new();
    for k in 0..edge_keys.len()
        invariant
            g == graph@,
            edge_lists@.len() == k,
            forall|j: int|
                0 <= j < k ==> edges_sorted(edge_views(#[trigger] edge_lists@[j]@)) && edge_views(
                    edge_lists@[j]@,
                ).to_multiset() == edges_of(g.relations, edge_keys@[j]@).to_multiset(),
    {
        let list = edge_list_for(&graph.relations, edge_keys[k].as_str());
        edge_lists.push(list);
    }
    let mut entities: Vec<EntityNode> = Vec::new();
    for i in 0..graph.entities.len()
        invariant
            g == graph@,
            entity_views(entities@) == g.entities.take(i as int),
    {
        let ghost prev = entities@;
        entities.push(graph.entities[i].duplicate());
        assert(entity_views(entities@) =~= entity_views(prev).push(g.entities[i as int]));
        assert(g.entities.take(i + 1) =~= g.entities.take(i as int).push(g.entities[i as int]));
    }
    assert(g.entities.take(graph.entities@.len() as int) =~= g.entities);
    let mut points: Vec<KnowledgePoint> = Vec::new();
    for i in 0..graph.knowledge_points.len()
        invariant
            g == graph@,
            point_views(points@) == g.knowledge_points.take(i as int),
    {
        let ghost prev = points@;
        points.push(graph.knowledge_points[i].duplicate());
        assert(point_views(points@) =~= point_views(prev).push(g.knowledge_points[i as int]));
        assert(g.knowledge_points.take(i + 1) =~= g.knowledge_points.take(i as int).push(
            g.knowledge_points[i as int],
        ));
    }
    assert(g.knowledge_points.take(graph.knowledge_points@.len() as int) =~= g.knowledge_points);
    GraphIndex {
        point_keys,
        point_lists,
        edge_keys,
        edge_lists,
        entities,
        points,
        source: Ghost(g),
    }
}


fn copy_edges(v: &Vec<(RelationType, String)>) -> (r: Vec<(RelationType, String)>)
    ensures
        edge_views(r@) == edge_views(v@),
{
    let mut out: Vec<(RelationType, String)> = Vec::new();
    for i in 0..v.len()
        invariant
            edge_views(out@) == edge_views(v@).take(i as int),
    {
        let ghost prev = out@;
        out.push((v[i].0, v[i].1.clone()));
        assert(edge_views(out@) =~= edge_views(prev).push(edge_views(v@)[i as int]));
        assert(edge_views(v@).take(i + 1) =~= edge_views(v@).take(i as int).push(
            edge_views(v@)[i as int],
        ));
    }
    assert(edge_views(v@).take(v@.len() as int) =~= edge_views(v@));
    out
}

impl GraphIndex {
    /// The IDs of the points that mention the entity, sorted and distinct;
    /// empty for an entity no point mentions.
    pub fn points_for_entity(&self, entity_id: &str) -> (r: Vec<String>)
        ensures
            strictly_sorted(strs(r@)),
            strs(r@).to_set() == mention_set(self.graph().knowledge_points, entity_id@),
            strs(r@) == sorted_mentions(self.graph().knowledge_points, entity_id@),
    {
        proof {
            use_type_invariant(self);
        }
        for k in 0..self.point_keys.len()
            invariant
                forall|j: int| 0 <= j < k ==> strs(self.point_keys@)[j] != entity_id@,
        {
            if str_eq(self.point_keys[k].as_str(), entity_id) {
                proof {
                    use_type_invariant(self);
                    assert(strictly_sorted(strs(self.point_lists@[k as int]@)));
                }
                let r = crate::graph::types::copy_strings(&self.point_lists[k]);
                proof {
                    lemma_sorted_mentions_unique(self.graph().knowledge_points, entity_id@, strs(r@));
                }
                return r;
            }
        }
        proof {
            use_type_invariant(self);
            let ps = self.graph().knowledge_points;
            assert(!strs(self.point_keys@).contains(entity_id@));
            assert forall|id: Seq<char>| !mention_set(ps, entity_id@).contains(id) by {
                if mention_set(ps, entity_id@).contains(id) {
                    let i = choose|i: int|
                        0 <= i < ps.len() && ps[i].id == id && ps[i].entity_ids.contains(entity_id@);
                    assert(referenced_by_points(ps, entity_id@));
                }
            }
            assert(mention_set(ps, entity_id@) =~= Set::<Seq<char>>::empty());
        }
        let r: Vec<String> = Vec::new();
        assert(strs(r@).to_set() =~= Set::<Seq<char>>::empty());
        proof {
            lemma_sorted_mentions_unique(self.graph().knowledge_points, entity_id@, strs(r@));
        }
        r
    }

    /// The outgoing edges of the entity as (relation type, target ID),
    /// ordered by target ID and then by relation type name; empty for an
    /// entity no relation starts at.
    pub fn edges_from_entity(&self, entity_id: &str) -> (r: Vec<(RelationType, String)>)
        ensures
            edges_sorted(edge_views(r@)),
            edge_views(r@).to_multiset() == edges_of(self.graph().relations, entity_id@).to_multiset(),
            edge_views(r@) == sorted_edges(self.graph().relations, entity_id@),
    {
        proof {
            use_type_invariant(self);
        }
        for k in 0..self.edge_keys.len()
            invariant
                forall|j: int| 0 <= j < k ==> strs(self.edge_keys@)[j] != entity_id@,
        {
            if str_eq(self.edge_keys[k].as_str(), entity_id) {
                proof {
                    use_type_invariant(self);
                    assert(edges_sorted(edge_views(self.edge_lists@[k as int]@)));
                }
                let r = copy_edges(&self.edge_lists[k]);
                proof {
                    lemma_sorted_edges_unique(self.graph().relations, entity_id@, edge_views(r@));
                }
                return r;
            }
        }
        proof {
            use_type_invariant(self);
            let rs = self.graph().relations;
            assert(!strs(self.edge_keys@).contains(entity_id@));
            lemma_no_edges(rs, entity_id@);
        }
        let r: Vec<(RelationType, String)> = Vec::new();
        assert(edge_views(r@) =~= Seq::<(RelationType, Seq<char>)>::empty());
        proof {
            lemma_sorted_edges_unique(self.graph().relations, entity_id@, edge_views(r@));
        }
        r
    }

    /// Every entity ID some point or relation source references, sorted
    /// and distinct.
    pub fn all_entity_ids(&self) -> (r: Vec<String>)
        ensures
            strictly_sorted(strs(r@)),
            forall|x: Seq<char>| #[trigger] strs(r@).contains(x) <==> (referenced_by_points(
                self.graph().knowledge_points,
                x,
            ) || is_source(self.graph().relations, x)),
            strs(r@) == sorted_referenced_ids(self.graph()),
    {
        proof {
            use_type_invariant(self);
        }
        let mut ids: Vec<String> = Vec::new();
        assert(strs(ids@).to_set() =~= Set::<Seq<char>>::empty());
        for k in 0..self.point_keys.len()
            invariant
                strictly_sorted(strs(ids@)),
                strs(ids@).to_set() == strs(self.point_keys@).take(k as int).to_set(),
        {
            insert_sorted_unique(&mut ids, self.point_keys[k].clone());
            proof {
                assert(strs(self.point_keys@).take(k + 1) =~= strs(self.point_keys@).take(k as int).push(
                    self.point_keys@[k as int]@,
                ));
                strs(self.point_keys@).take(k as int).lemma_push_to_set_commute(self.point_keys@[k as int]@);
            }
        }
        assert(strs(self.point_keys@).take(self.point_keys@.len() as int) =~= strs(self.point_keys@));
        let ghost base = strs(ids@).to_set();
        for k in 0..self.edge_keys.len()
            invariant
                strictly_sorted(strs(ids@)),
                strs(ids@).to_set() == base + strs(self.edge_keys@).take(k as int).to_set(),
        {
            insert_sorted_unique(&mut ids, self.edge_keys[k].clone());
            proof {
                assert(strs(self.edge_keys@).take(k + 1) =~= strs(self.edge_keys@).take(k as int).push(
                    self.edge_keys@[k as int]@,
                ));
                strs(self.edge_keys@).take(k as int).lemma_push_to_set_commute(self.edge_keys@[k as int]@);
                assert(base + strs(self.edge_keys@).take(k + 1).to_set() =~= (base + strs(self.edge_keys@).take(k as int).to_set()).insert(self.edge_keys@[k as int]@));
            }
        }
        assert(strs(self.edge_keys@).take(self.edge_keys@.len() as int) =~= strs(self.edge_keys@));
        proof {
            use_type_invariant(self);
            assert forall|x: Seq<char>| #[trigger] strs(ids@).contains(x) <==> (referenced_by_points(
                self.graph().knowledge_points,
                x,
            ) || is_source(self.graph().relations, x)) by {
                assert(strs(ids@).contains(x) <==> strs(ids@).to_set().contains(x));
                assert(strs(self.point_keys@).contains(x) <==> strs(self.point_keys@).to_set().contains(x));
                assert(strs(self.edge_keys@).contains(x) <==> strs(self.edge_keys@).to_set().contains(x));
            }
            lemma_sorted_referenced_ids_unique(self.graph(), strs(ids@));
        }
        ids
    }

    /// The last entity with this ID, if any.
    pub fn entity(&self, entity_id: &str) -> (r: Option<&EntityNode>)
        ensures
            match r {
                Some(e) => last_entity(self.graph().entities, entity_id@) == Some(e@),
                None => last_entity(self.graph().entities, entity_id@) is None,
            },
    {
        proof {
            use_type_invariant(self);
        }
        let ghost es = self.graph().entities;
        let mut i = self.entities.len();
        assert(es.take(i as int) =~= es);
        while i > 0
            invariant
                i <= self.entities@.len(),
                es == entity_views(self.entities@),
                es == self.graph().entities,
                last_entity(es, entity_id@) == last_entity(es.take(i as int), entity_id@),
            decreases i,
        {
            i = i - 1;
            assert(es.take(i + 1).drop_last() =~= es.take(i as int));
            assert(es.take(i + 1).last() == self.entities@[i as int]@);
            if str_eq(self.entities[i].id.as_str(), entity_id) {
                return Some(&self.entities[i]);
            }
        }
        None
    }

    /// The last knowledge point with this ID, if any.
    pub fn point(&self, point_id: &str) -> (r: Option<&KnowledgePoint>)
        ensures
            match r {
                Some(p) => last_point(self.graph().knowledge_points, point_id@) == Some(p@),
                None => last_point(self.graph().knowledge_points, point_id@) is None,
            },
    {
        proof {
            use_type_invariant(self);
        }
        let ghost ps = self.graph().knowledge_points;
        let mut i = self.points.len();
        assert(ps.take(i as int) =~= ps);
        while i > 0
            invariant
                i <= self.points@.len(),
                ps == point_views(self.points@),
                ps == self.graph().knowledge_points,
                last_point(ps, point_id@) == last_point(ps.take(i as int), point_id@),
            decreases i,
        {
            i = i - 1;
            assert(ps.take(i + 1).drop_last() =~= ps.take(i as int));
            assert(ps.take(i + 1).last() == self.points@[i as int]@);
            if str_eq(self.points[i].id.as_str(), point_id) {
                return Some(&self.points[i]);
            }
        }
        None
    }
}

proof fn lemma_no_edges(rs: Seq<RelationView>, e: Seq<char>)
    requires
        !is_source(rs, e),
    ensures
        edges_of(rs, e) == Seq::<(RelationType, Seq<char>)>::empty(),
    decreases rs.len(),
{
    if rs.len() > 0 {
        assert(!is_source(rs.drop_last(), e)) by {
            if is_source(rs.drop_last(), e) {
                let k = choose|k: int| 0 <= k < rs.drop_last().len() && (#[trigger] rs.drop_last()[k]).source_id == e;
                assert(rs[k] == rs.drop_last()[k]);
            }
        }
        lemma_no_edges(rs.drop_last(), e);
        assert(rs[rs.len() - 1].source_id != e);
    }
}

} // verus!
