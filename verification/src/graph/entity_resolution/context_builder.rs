//! Entity evidence for embedding: each entity's names and the knowledge
//! points that reference it.
use vstd::prelude::*;

use crate::graph::types::{
    EntityNode, EntityNodeView, KnowledgePointView, PropositionGraph, copy_strings, entity_views,
};
use crate::text::{contains_str, join, join_strings, str_eq, strs};

verus! {

/// The stable identity and source evidence of one entity.
#[derive(Debug, Clone, PartialEq, Eq)]
pub struct EntityContext {
    pub entity_id: String,
    pub canonical_name: String,
    pub aliases: Vec<String>,
    pub knowledge_points: Vec<String>,
}

/// The lines that list an entity's knowledge points.
pub open spec fn context_lines(points: Seq<Seq<char>>) -> Seq<char>
    decreases points.len(),
{
    if points.len() == 0 {
        Seq::empty()
    } else {
        context_lines(points.drop_last()) + "\n- "@ + points.last()
    }
}

/// The embedding input of an entity: its name, its aliases, and, when it
/// has any, its knowledge points one per line.
pub open spec fn embedding_input(name: Seq<char>, aliases: Seq<Seq<char>>, points: Seq<Seq<char>>) -> Seq<char> {
    "Entity: "@ + name + "\nAliases: "@ + join(aliases, ", "@) + if points.len() == 0 {
        Seq::<char>::empty()
    } else {
        "\nContext:"@ + context_lines(points)
    }
}

impl EntityContext {
    /// Formats the entity and its evidence as deterministic embedding input.
    pub fn embedding_text(&self) -> (r: String)
        ensures
            r@ == embedding_input(self.canonical_name@, strs(self.aliases@), strs(self.knowledge_points@)),
    {
        let mut text = String::from_str("Entity: ");
        text.append(self.canonical_name.as_str());
        text.append("\nAliases: ");
        let aliases = join_strings(&self.aliases, ", ");
        text.append(aliases.as_str());
        let ghost head = text@;
        let ghost ps = strs(self.knowledge_points@);
        if self.knowledge_points.len() > 0 {
            text.append("\nContext:");
            let ghost start = text@;
            for i in 0..self.knowledge_points.len()
                invariant
                    ps == strs(self.knowledge_points@),
                    text@ == start + context_lines(ps.take(i as int)),
            {
                assert(ps.take(i + 1).drop_last() =~= ps.take(i as int));
                assert(ps.take(i + 1).last() == self.knowledge_points@[i as int]@);
                text.append("\n- ");
                text.append(self.knowledge_points[i].as_str());
            }
            assert(ps.take(ps.len() as int) =~= ps);
        }
        assert(text@ =~= embedding_input(self.canonical_name@, strs(self.aliases@), ps));
        text
    }
}

/// The last position of `id` among `ids`, or -1.
pub open spec fn last_index_of(ids: Seq<Seq<char>>, id: Seq<char>) -> int
    decreases ids.len(),
{
    if ids.len() == 0 {
        -1
    } else if ids.last() == id {
        ids.len() - 1
    } else {
        last_index_of(ids.drop_last(), id)
    }
}

/// Collects evidence for entity `k` from one point: the point's text, once
/// per point ID, while fewer than `max` are collected, for each of its
/// entity IDs that stands for entity `k`.
pub open spec fn evidence_step(
    state: (Seq<Seq<char>>, Seq<Seq<char>>),
    p: KnowledgePointView,
    eids: Seq<Seq<char>>,
    k: int,
    ids: Seq<Seq<char>>,
    max: nat,
) -> (Seq<Seq<char>>, Seq<Seq<char>>)
    decreases eids.len(),
{
    if eids.len() == 0 {
        state
    } else {
        let s = evidence_step(state, p, eids.drop_last(), k, ids, max);
        if last_index_of(ids, eids.last()) == k && s.1.len() < max && !s.0.contains(p.id) {
            (s.0.push(p.id), s.1.push(p.point))
        } else {
            s
        }
    }
}

/// The point IDs seen and the texts collected for entity `k`, point by point.
pub open spec fn evidence(ps: Seq<KnowledgePointView>, k: int, ids: Seq<Seq<char>>, max: nat) -> (
    Seq<Seq<char>>,
    Seq<Seq<char>>,
)
    decreases ps.len(),
{
    if ps.len() == 0 {
        (Seq::empty(), Seq::empty())
    } else {
        let p = ps.last();
        evidence_step(evidence(ps.drop_last(), k, ids, max), p, p.entity_ids, k, ids, max)
    }
}

/// The IDs of a list of entities.
pub open spec fn ids_of(es: Seq<EntityNodeView>) -> Seq<Seq<char>> {
    es.map_values(|e: EntityNodeView| e.id)
}

proof fn lemma_last_index_of(ids: Seq<Seq<char>>, id: Seq<char>, k: int)
    requires
        0 <= k < ids.len(),
        ids[k] == id,
        forall|j: int| k < j < ids.len() ==> ids[j] != id,
    ensures
        last_index_of(ids, id) == k,
    decreases ids.len(),
{
    if k < ids.len() - 1 {
        lemma_last_index_of(ids.drop_last(), id, k);
        assert(ids.drop_last()[k] == ids[k]);
        assert(forall|j: int| k < j < ids.drop_last().len() ==> ids.drop_last()[j] == ids[j]);
    }
}

proof fn lemma_not_last_index(ids: Seq<Seq<char>>, id: Seq<char>, k: int, j: int)
    requires
        0 <= k < j < ids.len(),
        ids[j] == id,
    ensures
        last_index_of(ids, id) != k,
        last_index_of(ids, id) >= j,
    decreases ids.len(),
{
    if j < ids.len() - 1 {
        if ids.last() != id {
            lemma_not_last_index(ids.drop_last(), id, k, j);
            assert(ids.drop_last()[j] == ids[j]);
        }
    }
}

/// Whether no entity after position `k` has the same ID.
fn is_last_with_id(entities: &Vec<EntityNode>, k: usize) -> (r: bool)
    requires
        k < entities@.len(),
    ensures
        r == (last_index_of(ids_of(entity_views(entities@)), entities@[k as int].id@) == k),
{
    let ghost ids = ids_of(entity_views(entities@));
    let n = entities.len();
    let mut j = k + 1;
    while j < n
        invariant
            k < j <= entities@.len(),
            n == entities@.len(),
            ids == ids_of(entity_views(entities@)),
            forall|m: int| k < m < j ==> ids[m] != ids[k as int],
        decreases entities@.len() - j,
    {
        if str_eq(entities[j].id.as_str(), entities[k].id.as_str()) {
            proof {
                lemma_not_last_index(ids, ids[k as int], k as int, j as int);
            }
            return false;
        }
        j = j + 1;
    }
    proof {
        lemma_last_index_of(ids, ids[k as int], k as int);
    }
    true
}

/// The evidence of entity `k`: the texts of the points referencing it.
fn evidence_for(graph: &PropositionGraph, k: usize, max_points_per_entity: usize) -> (r: Vec<String>)
    requires
        k < graph@.entities.len(),
    ensures
        strs(r@) == evidence(graph@.knowledge_points, k as int, ids_of(graph@.entities), max_points_per_entity as nat).1,
{
    let ghost ps = graph@.knowledge_points;
    let ghost ids = ids_of(graph@.entities);
    let ghost max = max_points_per_entity as nat;
    let owner = is_last_with_id(&graph.entities, k);
    let id = &graph.entities[k].id;
    assert(ids[k as int] == id@);
    let mut seen: Vec<String> = Vec::new();
    let mut texts: Vec<String> = Vec::new();
    assert(ps.take(0) =~= Seq::<KnowledgePointView>::empty());
    for i in 0..graph.knowledge_points.len()
        invariant
            ps == graph@.knowledge_points,
            ids == ids_of(graph@.entities),
            max == max_points_per_entity as nat,
            k < ids.len(),
            ids[k as int] == id@,
            owner == (last_index_of(ids, id@) == k),
            (strs(seen@), strs(texts@)) == evidence(ps.take(i as int), k as int, ids, max),
    {
        let p = &graph.knowledge_points[i];
        proof {
            assert(ps.take(i + 1).drop_last() =~= ps.take(i as int));
            assert(ps.take(i + 1).last() == p@);
        }
        let ghost start = (strs(seen@), strs(texts@));
        let ghost eids = p@.entity_ids;
        assert(eids.take(0) =~= Seq::<Seq<char>>::empty());
        for j in 0..p.entity_ids.len()
            invariant
                ids == ids_of(graph@.entities),
                max == max_points_per_entity as nat,
                k < ids.len(),
                ids[k as int] == id@,
                owner == (last_index_of(ids, id@) == k),
                eids == p@.entity_ids,
                (strs(seen@), strs(texts@)) == evidence_step(start, p@, eids.take(j as int), k as int, ids, max),
        {
            proof {
                assert(eids.take(j + 1).drop_last() =~= eids.take(j as int));
                assert(eids.take(j + 1).last() == p.entity_ids@[j as int]@);
                if last_index_of(ids, p.entity_ids@[j as int]@) == k {
                    assert(ids[last_index_of(ids, p.entity_ids@[j as int]@)] == p.entity_ids@[j as int]@) by {
                        lemma_last_index_props(ids, p.entity_ids@[j as int]@);
                    }
                }
            }
            if owner && str_eq(p.entity_ids[j].as_str(), id.as_str()) && texts.len() < max_points_per_entity
                && !contains_str(&seen, p.id.as_str()) {
                let ghost ps0 = seen@;
                let ghost pt0 = texts@;
                seen.push(p.id.clone());
                texts.push(p.point.clone());
                assert(strs(seen@) =~= strs(ps0).push(p.id@));
                assert(strs(texts@) =~= strs(pt0).push(p.point@));
            }
        }
        assert(eids.take(eids.len() as int) =~= eids);
    }
    assert(ps.take(ps.len() as int) =~= ps);
    texts
}

proof fn lemma_last_index_props(ids: Seq<Seq<char>>, id: Seq<char>)
    ensures
        last_index_of(ids, id) >= 0 ==> 0 <= last_index_of(ids, id) < ids.len() && ids[last_index_of(ids, id)] == id,
        last_index_of(ids, id) >= -1,
    decreases ids.len(),
{
    if ids.len() > 0 {
        lemma_last_index_props(ids.drop_last(), id);
    }
}

/// The context built for entity `k`.
pub open spec fn context_of(g: crate::graph::types::PropositionGraphView, k: int, max: nat) -> (
    Seq<char>,
    Seq<char>,
    Seq<Seq<char>>,
    Seq<Seq<char>>,
) {
    (
        g.entities[k].id,
        g.entities[k].canonical_name,
        g.entities[k].aliases,
        evidence(g.knowledge_points, k, ids_of(g.entities), max).1,
    )
}

pub open spec fn context_view(c: EntityContext) -> (Seq<char>, Seq<char>, Seq<Seq<char>>, Seq<Seq<char>>) {
    (c.entity_id@, c.canonical_name@, strs(c.aliases@), strs(c.knowledge_points@))
}

/// Builds one context per entity, in entity order. An entity collects, in
/// graph order and once per point ID, the texts of up to
/// `max_points_per_entity` points whose entity IDs name it; where several
/// entities share an ID, the last of them collects for it.
pub fn build_entity_contexts(graph: &PropositionGraph, max_points_per_entity: usize) -> (r: Vec<EntityContext>)
    ensures
        r@.len() == graph@.entities.len(),
        forall|k: int| 0 <= k < r@.len() ==> context_view(#[trigger] r@[k]) == context_of(graph@, k, max_points_per_entity as nat),
{
    let mut contexts: Vec<EntityContext> = Vec::new();
    for k in 0..graph.entities.len()
        invariant
            contexts@.len() == k,
            forall|m: int| 0 <= m < k ==> context_view(#[trigger] contexts@[m]) == context_of(graph@, m, max_points_per_entity as nat),
    {
        let e = &graph.entities[k];
        let knowledge_points = evidence_for(graph, k, max_points_per_entity);
        let c = EntityContext {
            entity_id: e.id.clone(),
            canonical_name: e.canonical_name.clone(),
            aliases: copy_strings(&e.aliases),
            knowledge_points,
        };
        assert(graph@.entities[k as int] == e@);
        contexts.push(c);
    }
    contexts
}

} // verus!
