//! Consolidation of per-chunk Stage A output into one proposition graph.
//!
//! Entities are deduplicated on their comparison key; every raw surface form
//! is kept as an alias. Knowledge points get the IDs of the entities they
//! name, and relation references become typed edges between entity IDs.
use vstd::prelude::*;

use crate::graph::entity_ids::{
    alloc_id, allocate_entity_id, lemma_alloc_id_fresh, normalize_for_comparison, normalize_key,
};
use crate::graph::types::{
    EntityNode, EntityNodeView, ExtractedKnowledge, ExtractedKnowledgeView, KnowledgePoint,
    KnowledgePointView, PropositionGraph, PropositionGraphView, RawEntityMention,
    RawEntityMentionView, Relation, RelationRefView, RelationType, RelationView, copy_strings, entity_views,
    point_views, relation_views,
};
use crate::text::{
    insert_sorted_unique, lemma_seq_lt_irreflexive, lemma_seq_lt_total, lemma_seq_lt_transitive,
    push_decimal, seq_lt, str_eq, str_lt, strictly_sorted, strs, contains_str, decimal,
};

verus! {

// =====================================================================
// The entity table
// =====================================================================
/// One entity as accumulated over the mentions seen so far.
pub struct EntityRecord {
    pub key: Seq<char>,
    pub id: Seq<char>,
    pub canonical_name: Seq<char>,
    pub aliases: Seq<Seq<char>>,
    pub chunk_ids: Set<Seq<char>>,
}

/// All entity mentions, chunk by chunk, in order.
pub open spec fn mentions_of(cs: Seq<ExtractedKnowledgeView>) -> Seq<RawEntityMentionView>
    decreases cs.len(),
{
    if cs.len() == 0 {
        Seq::empty()
    } else {
        mentions_of(cs.drop_last()) + cs.last().raw_entities
    }
}

/// All knowledge points, chunk by chunk, in order.
pub open spec fn points_of(cs: Seq<ExtractedKnowledgeView>) -> Seq<KnowledgePointView>
    decreases cs.len(),
{
    if cs.len() == 0 {
        Seq::empty()
    } else {
        points_of(cs.drop_last()) + cs.last().knowledge_points
    }
}

/// The position of the record with comparison key `key`, or -1.
pub open spec fn key_pos(t: Seq<EntityRecord>, key: Seq<char>) -> int
    decreases t.len(),
{
    if t.len() == 0 {
        -1
    } else if t.last().key == key {
        t.len() - 1
    } else {
        key_pos(t.drop_last(), key)
    }
}

/// The IDs of the records, in table order.
pub open spec fn record_ids(t: Seq<EntityRecord>) -> Seq<Seq<char>> {
    t.map_values(|r: EntityRecord| r.id)
}

/// Folds one mention into the table: a known key gains the raw form as an
/// alias (once) and the chunk; a new key gets a fresh ID, the raw form as
/// its canonical name and sole alias, and the chunk.
pub open spec fn table_step(t: Seq<EntityRecord>, m: RawEntityMentionView) -> Seq<EntityRecord> {
    let key = normalize_key(m.name);
    let p = key_pos(t, key);
    if p >= 0 {
        let r = t[p];
        t.update(
            p,
            EntityRecord {
                key: r.key,
                id: r.id,
                canonical_name: r.canonical_name,
                aliases: if r.aliases.contains(m.name) {
                    r.aliases
                } else {
                    r.aliases.push(m.name)
                },
                chunk_ids: r.chunk_ids.insert(m.chunk_id),
            },
        )
    } else {
        t.push(
            EntityRecord {
                key,
                id: alloc_id(key, record_ids(t).to_set()),
                canonical_name: m.name,
                aliases: seq![m.name],
                chunk_ids: set![m.chunk_id],
            },
        )
    }
}

/// The entity table after all mentions, in order of first appearance.
pub open spec fn entity_table(ms: Seq<RawEntityMentionView>) -> Seq<EntityRecord>
    decreases ms.len(),
{
    if ms.len() == 0 {
        Seq::empty()
    } else {
        table_step(entity_table(ms.drop_last()), ms.last())
    }
}

/// Keys and IDs of the table are pairwise distinct.
pub open spec fn table_wf(t: Seq<EntityRecord>) -> bool {
    &&& forall|i: int, j: int| 0 <= i < j < t.len() ==> #[trigger] t[i].key != #[trigger] t[j].key
    &&& forall|i: int, j: int| 0 <= i < j < t.len() ==> #[trigger] t[i].id != #[trigger] t[j].id
}

/// An output entity carries exactly the record's data, its chunk IDs
/// listed once each in increasing order.
pub open spec fn entity_matches(e: EntityNodeView, r: EntityRecord) -> bool {
    &&& e.id == r.id
    &&& e.canonical_name == r.canonical_name
    &&& e.aliases == r.aliases
    &&& strictly_sorted(e.chunk_ids)
    &&& e.chunk_ids.to_set() == r.chunk_ids
}

/// Some record of `t` carries exactly the data of `e`.
pub open spec fn from_some_record(e: EntityNodeView, t: Seq<EntityRecord>) -> bool {
    exists|k: int| 0 <= k < t.len() && entity_matches(e, #[trigger] t[k])
}

/// Some entity of `es` carries exactly the data of `r`.
pub open spec fn has_entity_for(es: Seq<EntityNodeView>, r: EntityRecord) -> bool {
    exists|i: int| 0 <= i < es.len() && entity_matches(#[trigger] es[i], r)
}

/// The output entities are the table's records, one each, sorted by ID.
pub open spec fn entities_of_table(es: Seq<EntityNodeView>, t: Seq<EntityRecord>) -> bool {
    &&& es.len() == t.len()
    &&& forall|i: int, j: int| 0 <= i < j < es.len() ==> seq_lt(#[trigger] es[i].id, #[trigger] es[j].id)
    &&& forall|i: int| 0 <= i < es.len() ==> from_some_record(#[trigger] es[i], t)
    &&& forall|k: int| 0 <= k < t.len() ==> has_entity_for(es, #[trigger] t[k])
}

// =====================================================================
// Knowledge points and relations
// =====================================================================
/// The IDs of the entities that `names` mention, in order; names that no
/// entity carries are skipped.
pub open spec fn resolved_ids(names: Seq<Seq<char>>, t: Seq<EntityRecord>) -> Seq<Seq<char>>
    decreases names.len(),
{
    if names.len() == 0 {
        Seq::empty()
    } else {
        let prev = resolved_ids(names.drop_last(), t);
        let p = key_pos(t, normalize_key(names.last()));
        if p >= 0 {
            prev.push(t[p].id)
        } else {
            prev
        }
    }
}

/// A knowledge point with the IDs of its named entities appended.
pub open spec fn resolve_point(p: KnowledgePointView, t: Seq<EntityRecord>) -> KnowledgePointView {
    KnowledgePointView { entity_ids: p.entity_ids + resolved_ids(p.raw_entity_names, t), ..p }
}

/// All knowledge points, resolved.
pub open spec fn resolved_points(ps: Seq<KnowledgePointView>, t: Seq<EntityRecord>) -> Seq<
    KnowledgePointView,
> {
    ps.map_values(|p: KnowledgePointView| resolve_point(p, t))
}

/// The edges one relation list yields from `source`: each reference whose
/// target names a known entity.
pub open spec fn edges_from(source: Seq<char>, rs: Seq<RelationRefView>, t: Seq<EntityRecord>) -> Seq<
    RelationView,
>
    decreases rs.len(),
{
    if rs.len() == 0 {
        Seq::empty()
    } else {
        let prev = edges_from(source, rs.drop_last(), t);
        let p = key_pos(t, normalize_key(rs.last().target_entity_name));
        if p >= 0 {
            prev.push(
                RelationView {
                    source_id: source,
                    target_id: t[p].id,
                    relation_type: rs.last().relation_type,
                },
            )
        } else {
            prev
        }
    }
}

/// The edges of one resolved point: its first entity is the source.
pub open spec fn point_edges(q: KnowledgePointView, t: Seq<EntityRecord>) -> Seq<RelationView> {
    if q.entity_ids.len() == 0 {
        Seq::empty()
    } else {
        edges_from(q.entity_ids[0], q.raw_relations, t)
    }
}

/// The edges of all resolved points, possibly with repetitions.
pub open spec fn all_edges(qs: Seq<KnowledgePointView>, t: Seq<EntityRecord>) -> Seq<RelationView>
    decreases qs.len(),
{
    if qs.len() == 0 {
        Seq::empty()
    } else {
        all_edges(qs.drop_last(), t) + point_edges(qs.last(), t)
    }
}

/// Position of a relation type in its declaration order, the third key by
/// which relations are sorted.
pub open spec fn relation_type_rank(t: RelationType) -> int {
    match t {
        RelationType::RelatedTo => 0,
        RelationType::Contrasts => 1,
        RelationType::Prerequisite => 2,
        RelationType::Consequence => 3,
        RelationType::Example => 4,
        RelationType::CounterExample => 5,
    }
}

/// Order of relations by source ID, then target ID, then relation type.
pub open spec fn relation_le(a: RelationView, b: RelationView) -> bool {
    ||| seq_lt(a.source_id, b.source_id)
    ||| (a.source_id == b.source_id && seq_lt(a.target_id, b.target_id))
    ||| (a.source_id == b.source_id && a.target_id == b.target_id && relation_type_rank(
        a.relation_type,
    ) <= relation_type_rank(b.relation_type))
}

/// The relations are the distinct edges, ordered by source, target and type.
pub open spec fn relations_of_edges(rs: Seq<RelationView>, edges: Seq<RelationView>) -> bool {
    &&& rs.no_duplicates()
    &&& rs.to_set() == edges.to_set()
    &&& forall|i: int, j: int| 0 <= i < j < rs.len() ==> relation_le(#[trigger] rs[i], #[trigger] rs[j])
}

/// What `consolidate` returns for the chunk views `cs`.
pub open spec fn consolidated(cs: Seq<ExtractedKnowledgeView>, g: PropositionGraphView) -> bool {
    let t = entity_table(mentions_of(cs));
    let qs = resolved_points(points_of(cs), t);
    &&& entities_of_table(g.entities, t)
    &&& g.knowledge_points == qs
    &&& relations_of_edges(g.relations, all_edges(qs, t))
}

// =====================================================================
// Table lemmas
// =====================================================================
proof fn lemma_key_pos(t: Seq<EntityRecord>, key: Seq<char>)
    ensures
        -1 <= key_pos(t, key) < t.len(),
        key_pos(t, key) >= 0 ==> t[key_pos(t, key)].key == key,
        key_pos(t, key) == -1 ==> forall|i: int| 0 <= i < t.len() ==> #[trigger] t[i].key != key,
    decreases t.len(),
{
    if t.len() > 0 {
        lemma_key_pos(t.drop_last(), key);
        if t.last().key != key && key_pos(t, key) == -1 {
            assert forall|i: int| 0 <= i < t.len() implies #[trigger] t[i].key != key by {
                if i < t.len() - 1 {
                    assert(t.drop_last()[i] == t[i]);
                }
            }
        }
    }
}

proof fn lemma_key_pos_unique(t: Seq<EntityRecord>, key: Seq<char>, i: int)
    requires
        table_wf(t),
        0 <= i < t.len(),
        t[i].key == key,
    ensures
        key_pos(t, key) == i,
{
    lemma_key_pos(t, key);
    let p = key_pos(t, key);
    if p != i {
        if p < i {
            assert(t[p].key != t[i].key);
        } else {
            assert(t[i].key != t[p].key);
        }
    }
}

proof fn lemma_table_step_wf(t: Seq<EntityRecord>, m: RawEntityMentionView)
    requires
        table_wf(t),
    ensures
        table_wf(table_step(t, m)),
        record_ids(table_step(t, m)).to_set() == if key_pos(t, normalize_key(m.name)) >= 0 {
            record_ids(t).to_set()
        } else {
            record_ids(t).to_set().insert(
                alloc_id(normalize_key(m.name), record_ids(t).to_set()),
            )
        },
{
    let key = normalize_key(m.name);
    lemma_key_pos(t, key);
    let n = table_step(t, m);
    if key_pos(t, key) >= 0 {
        assert(record_ids(n) =~= record_ids(t).update(
            key_pos(t, key),
            t[key_pos(t, key)].id,
        ));
        assert(record_ids(n) =~= record_ids(t));
    } else {
        let ids = record_ids(t).to_set();
        lemma_alloc_id_fresh(key, ids);
        let id = alloc_id(key, ids);
        assert forall|i: int| 0 <= i < t.len() implies #[trigger] t[i].id != id by {
            assert(record_ids(t)[i] == t[i].id);
            assert(ids.contains(t[i].id));
        }
        assert(record_ids(n) =~= record_ids(t).push(id));
        record_ids(t).lemma_push_to_set_commute(id);
    }
}

proof fn lemma_entity_table_wf(ms: Seq<RawEntityMentionView>)
    ensures
        table_wf(entity_table(ms)),
    decreases ms.len(),
{
    if ms.len() > 0 {
        lemma_entity_table_wf(ms.drop_last());
        lemma_table_step_wf(entity_table(ms.drop_last()), ms.last());
    }
}

// =====================================================================
// Building the table
// =====================================================================
/// Views of a list of chunks.
pub open spec fn chunk_views(cs: Seq<ExtractedKnowledge>) -> Seq<ExtractedKnowledgeView> {
    cs.map_values(|c: ExtractedKnowledge| c@)
}

/// The position of `key` in `keys`, if present.
fn find_key(keys: &Vec<String>, key: &str) -> (r: Option<usize>)
    ensures
        match r {
            Some(i) => i < keys@.len() && keys@[i as int]@ == key@,
            None => forall|i: int| 0 <= i < keys@.len() ==> #[trigger] keys@[i]@ != key@,
        },
{
    let mut i: usize = 0;
    while i < keys.len()
        invariant
            i <= keys@.len(),
            forall|k: int| 0 <= k < i ==> #[trigger] keys@[k]@ != key@,
        decreases keys@.len() - i,
    {
        if str_eq(keys[i].as_str(), key) {
            return Some(i);
        }
        i = i + 1;
    }
    None
}

/// Copies the mentions of all chunks into one list, in order.
fn collect_mentions(chunks: &Vec<ExtractedKnowledge>) -> (r: Vec<RawEntityMention>)
    ensures
        r@.map_values(|m: RawEntityMention| m@) == mentions_of(chunk_views(chunks@)),
{
    let mut out: Vec<RawEntityMention> = Vec::new();
    for ci in 0..chunks.len()
        invariant
            out@.map_values(|m: RawEntityMention| m@) == mentions_of(
                chunk_views(chunks@).take(ci as int),
            ),
    {
        let ghost before = out@.map_values(|m: RawEntityMention| m@);
        let chunk = &chunks[ci];
        for mi in 0..chunk.raw_entities.len()
            invariant
                ci < chunks@.len(),
                chunk == &chunks@[ci as int],
                out@.map_values(|m: RawEntityMention| m@) == before + chunk@.raw_entities.take(
                    mi as int,
                ),
        {
            let m = &chunk.raw_entities[mi];
            let ghost prev = out@;
            let copy = RawEntityMention { name: m.name.clone(), chunk_id: m.chunk_id.clone() };
            assert(copy@ == chunk@.raw_entities[mi as int]);
            out.push(copy);
            assert(out@.map_values(|m: RawEntityMention| m@) =~= prev.map_values(
                |m: RawEntityMention| m@,
            ).push(copy@));
            assert(chunk@.raw_entities.take(mi + 1) =~= chunk@.raw_entities.take(mi as int).push(
                copy@,
            ));
        }
        assert(chunk_views(chunks@).take(ci + 1).drop_last() =~= chunk_views(chunks@).take(
            ci as int,
        ));
        assert(chunk@.raw_entities.take(chunk.raw_entities@.len() as int)
            =~= chunk@.raw_entities);
    }
    assert(chunk_views(chunks@).take(chunks@.len() as int) =~= chunk_views(chunks@));
    out
}

/// The entity table as built: comparison keys, nodes, and used IDs.
fn build_entity_table(mentions: &Vec<RawEntityMention>) -> (r: (Vec<String>, Vec<EntityNode>))
    ensures
        ({
            let t = entity_table(mentions@.map_values(|m: RawEntityMention| m@));
            &&& r.0@.len() == t.len()
            &&& r.1@.len() == t.len()
            &&& forall|k: int| 0 <= k < t.len() ==> #[trigger] r.0@[k]@ == t[k].key
            &&& forall|k: int| 0 <= k < t.len() ==> entity_matches(#[trigger] r.1@[k]@, t[k])
        }),
{
    let ghost ms = mentions@.map_values(|m: RawEntityMention| m@);
    let mut keys: Vec<String> = Vec::new();
    let mut nodes: Vec<EntityNode> = Vec::new();
    let mut used_ids: Vec<String> = Vec::new();
    assert(record_ids(entity_table(ms.take(0))) =~= strs(used_ids@));
    for i in 0..mentions.len()
        invariant
            ms == mentions@.map_values(|m: RawEntityMention| m@),
            ({
                let t = entity_table(ms.take(i as int));
                &&& keys@.len() == t.len()
                &&& nodes@.len() == t.len()
                &&& forall|k: int| 0 <= k < t.len() ==> #[trigger] keys@[k]@ == t[k].key
                &&& forall|k: int| 0 <= k < t.len() ==> entity_matches(#[trigger] nodes@[k]@, t[k])
                &&& strs(used_ids@) == record_ids(t)
            }),
    {
        let ghost t = entity_table(ms.take(i as int));
        let ghost m = ms[i as int];
        proof {
            assert(ms.take(i + 1).drop_last() =~= ms.take(i as int));
            assert(ms.take(i + 1).last() == m);
            lemma_entity_table_wf(ms.take(i as int));
            lemma_key_pos(t, normalize_key(m.name));
        }
        let mention = &mentions[i];
        let key = normalize_for_comparison(mention.name.as_str());
        match find_key(&keys, key.as_str()) {
            Some(p) => {
                proof {
                    lemma_key_pos_unique(t, key@, p as int);
                }
                let mut node = nodes[p].duplicate();
                if !contains_str(&node.aliases, mention.name.as_str()) {
                    node.aliases.push(mention.name.clone());
                    assert(strs(node.aliases@) =~= t[p as int].aliases.push(m.name));
                }
                insert_sorted_unique(&mut node.chunk_ids, mention.chunk_id.clone());
                nodes.set(p, node);
                proof {
                    let t2 = table_step(t, m);
                    assert(t2 == entity_table(ms.take(i + 1)));
                    assert forall|k: int| 0 <= k < t2.len() implies entity_matches(
                        #[trigger] nodes@[k]@,
                        t2[k],
                    ) by {
                        if k != p {
                            assert(t2[k] == t[k]);
                        }
                    }
                    assert(record_ids(t2) =~= record_ids(t));
                }
            },
            None => {
                proof {
                    if key_pos(t, key@) >= 0 {
                        assert(keys@[key_pos(t, key@)]@ == key@);
                    }
                    assert(record_ids(t) =~= strs(used_ids@));
                }
                let id = allocate_entity_id(key.as_str(), &mut used_ids);
                let mut aliases: Vec<String> = Vec::new();
                aliases.push(mention.name.clone());
                let mut chunk_ids: Vec<String> = Vec::new();
                chunk_ids.push(mention.chunk_id.clone());
                let node = EntityNode {
                    id,
                    canonical_name: mention.name.clone(),
                    aliases,
                    chunk_ids,
                };
                let ghost old_nodes = nodes@;
                let ghost old_keys = keys@;
                keys.push(key);
                nodes.push(node);
                proof {
                    let t2 = table_step(t, m);
                    assert(t2 == entity_table(ms.take(i + 1)));
                    assert(t2 == t.push(t2.last()));
                    assert(strs(nodes@.last().aliases@) =~= seq![m.name]);
                    assert(strs(nodes@.last().chunk_ids@) =~= seq![m.chunk_id]);
                    seq![m.chunk_id].lemma_push_to_set_commute(m.chunk_id);
                    assert(Seq::<Seq<char>>::empty().push(m.chunk_id) =~= seq![m.chunk_id]);
                    Seq::<Seq<char>>::empty().lemma_push_to_set_commute(m.chunk_id);
                    assert(Seq::<Seq<char>>::empty().to_set() =~= Set::<Seq<char>>::empty());
                    assert(entity_matches(nodes@.last()@, t2.last()));
                    assert forall|k: int| 0 <= k < t2.len() implies entity_matches(
                        #[trigger] nodes@[k]@,
                        t2[k],
                    ) by {
                        if k < t.len() {
                            assert(nodes@[k] == old_nodes[k]);
                        }
                    }
                    assert(record_ids(t2) =~= record_ids(t).push(t2.last().id));
                    assert forall|k: int| 0 <= k < t2.len() implies #[trigger] keys@[k]@ == t2[k].key by {
                        if k < t.len() {
                            assert(keys@[k] == old_keys[k]);
                        }
                    }
                }
            },
        }
    }
    assert(ms.take(mentions@.len() as int) =~= ms);
    (keys, nodes)
}


/// Exec data that stands for the table `t`.
pub open spec fn table_matches(keys: Seq<String>, nodes: Seq<EntityNode>, t: Seq<EntityRecord>) -> bool {
    &&& keys.len() == t.len()
    &&& nodes.len() == t.len()
    &&& forall|k: int| 0 <= k < t.len() ==> #[trigger] keys[k]@ == t[k].key
    &&& forall|k: int| 0 <= k < t.len() ==> entity_matches(#[trigger] nodes[k]@, t[k])
}

/// Looks up the record position of a name's key, as `key_pos` does.
fn lookup_name(keys: &Vec<String>, name: &str, Ghost(t): Ghost<Seq<EntityRecord>>) -> (r: Option<usize>)
    requires
        table_wf(t),
        keys@.len() == t.len(),
        forall|k: int| 0 <= k < t.len() ==> #[trigger] keys@[k]@ == t[k].key,
    ensures
        match r {
            Some(p) => p < t.len() && key_pos(t, normalize_key(name@)) == p,
            None => key_pos(t, normalize_key(name@)) == -1,
        },
{
    let key = normalize_for_comparison(name);
    proof {
        lemma_key_pos(t, key@);
    }
    match find_key(keys, key.as_str()) {
        Some(p) => {
            proof {
                lemma_key_pos_unique(t, key@, p as int);
            }
            Some(p)
        },
        None => {
            proof {
                if key_pos(t, key@) >= 0 {
                    assert(keys@[key_pos(t, key@)]@ == key@);
                }
            }
            None
        },
    }
}

/// Entity IDs in strictly increasing order.
pub open spec fn ids_increasing(s: Seq<EntityNode>) -> bool {
    forall|i: int, j: int| 0 <= i < j < s.len() ==> seq_lt(#[trigger] s[i].id@, #[trigger] s[j].id@)
}

/// Inserts `x` at its place by ID into a list sorted by ID.
fn insert_entity_by_id(out: &mut Vec<EntityNode>, x: EntityNode)
    requires
        ids_increasing(old(out)@),
        forall|i: int| 0 <= i < old(out)@.len() ==> #[trigger] old(out)@[i].id@ != x.id@,
    ensures
        ids_increasing(final(out)@),
        entity_views(final(out)@).to_set() == entity_views(old(out)@).to_set().insert(x@),
        final(out)@.len() == old(out)@.len() + 1,
{
    let mut p: usize = 0;
    while p < out.len() && str_lt(out[p].id.as_str(), x.id.as_str())
        invariant
            p <= out@.len(),
            forall|i: int| 0 <= i < p ==> seq_lt(#[trigger] out@[i].id@, x.id@),
        decreases out@.len() - p,
    {
        p = p + 1;
    }
    let ghost old_out = out@;
    let ghost xv = x@;
    let ghost xid = x.id@;
    proof {
        if p < old_out.len() {
            lemma_seq_lt_total(old_out[p as int].id@, x.id@);
        }
    }
    out.insert(p, x);
    proof {
        old_out.insert_ensures(p as int, x);
        assert forall|i: int, j: int| 0 <= i < j < out@.len() implies seq_lt(
            #[trigger] out@[i].id@,
            #[trigger] out@[j].id@,
        ) by {
            if j < p {
            } else if i < p && j == p {
            } else if i < p {
                assert(out@[j] == old_out[j - 1]);
                lemma_seq_lt_transitive(old_out[i].id@, xid, old_out[p as int].id@);
                if j - 1 > p {
                    lemma_seq_lt_transitive(old_out[i].id@, old_out[p as int].id@, old_out[j - 1].id@);
                }
            } else if i == p {
                assert(out@[j] == old_out[j - 1]);
                if j - 1 > p {
                    lemma_seq_lt_transitive(xid, old_out[p as int].id@, old_out[j - 1].id@);
                }
            } else {
                assert(out@[i] == old_out[i - 1]);
                assert(out@[j] == old_out[j - 1]);
            }
        }
        assert(entity_views(out@) =~= entity_views(old_out).insert(p as int, xv));
        crate::text::lemma_insert_to_set(entity_views(old_out), p as int, xv);
    }
}

/// The output entities: the table's nodes ordered by ID.
fn sort_entities(nodes: &Vec<EntityNode>) -> (r: Vec<EntityNode>)
    requires
        forall|i: int, j: int|
            0 <= i < j < nodes@.len() ==> #[trigger] nodes@[i].id@ != #[trigger] nodes@[j].id@,
    ensures
        r@.len() == nodes@.len(),
        ids_increasing(r@),
        entity_views(r@).to_set() == entity_views(nodes@).to_set(),
{
    let mut out: Vec<EntityNode> = Vec::new();
    assert(entity_views(nodes@.take(0)).to_set() =~= Set::empty());
    for k in 0..nodes.len()
        invariant
            forall|i: int, j: int|
                0 <= i < j < nodes@.len() ==> #[trigger] nodes@[i].id@ != #[trigger] nodes@[j].id@,
            out@.len() == k,
            ids_increasing(out@),
            entity_views(out@).to_set() == entity_views(nodes@.take(k as int)).to_set(),
    {
        let x = nodes[k].duplicate();
        proof {
            assert forall|i: int| 0 <= i < out@.len() implies #[trigger] out@[i].id@ != x.id@ by {
                assert(entity_views(out@)[i] == out@[i]@);
                assert(entity_views(out@).contains(out@[i]@));
                assert(entity_views(out@).to_set().contains(out@[i]@));
                assert(entity_views(nodes@.take(k as int)).contains(out@[i]@));
                let j = choose|j: int| 0 <= j < k && entity_views(nodes@.take(k as int))[j] == out@[i]@;
                assert(nodes@[j].id@ != nodes@[k as int].id@);
            }
        }
        insert_entity_by_id(&mut out, x);
        proof {
            assert(entity_views(nodes@.take(k + 1)) =~= entity_views(nodes@.take(k as int)).push(x@));
            entity_views(nodes@.take(k as int)).lemma_push_to_set_commute(x@);
        }
    }
    assert(nodes@.take(nodes@.len() as int) =~= nodes@);
    out
}


// =====================================================================
// Resolving knowledge points
// =====================================================================
/// Appends the IDs of the entities a point names to its `entity_ids`.
fn resolve_one(
    point: &KnowledgePoint,
    keys: &Vec<String>,
    nodes: &Vec<EntityNode>,
    Ghost(t): Ghost<Seq<EntityRecord>>,
) -> (q: KnowledgePoint)
    requires
        table_wf(t),
        table_matches(keys@, nodes@, t),
    ensures
        q@ == resolve_point(point@, t),
{
    let mut q = point.duplicate();
    let names = &point.raw_entity_names;
    let ghost base = strs(point.entity_ids@);
    assert(strs(names@).take(0) =~= Seq::<Seq<char>>::empty());
    for n in 0..names.len()
        invariant
            table_wf(t),
            table_matches(keys@, nodes@, t),
            names == &point.raw_entity_names,
            q@ == (KnowledgePointView { entity_ids: q@.entity_ids, ..point@ }),
            strs(q.entity_ids@) == base + resolved_ids(strs(names@).take(n as int), t),
    {
        proof {
            assert(strs(names@).take(n + 1).drop_last() =~= strs(names@).take(n as int));
            assert(strs(names@).take(n + 1).last() == names@[n as int]@);
        }
        match lookup_name(keys, names[n].as_str(), Ghost(t)) {
            Some(p) => {
                let ghost prev = q.entity_ids@;
                assert(entity_matches(nodes@[p as int]@, t[p as int]));
                q.entity_ids.push(nodes[p].id.clone());
                assert(strs(q.entity_ids@) =~= strs(prev).push(t[p as int].id));
            },
            None => {},
        }
    }
    assert(strs(names@).take(names@.len() as int) =~= strs(names@));
    q
}

/// All knowledge points of all chunks, in order, resolved against the table.
fn resolve_all_points(
    chunks: &Vec<ExtractedKnowledge>,
    keys: &Vec<String>,
    nodes: &Vec<EntityNode>,
    Ghost(t): Ghost<Seq<EntityRecord>>,
) -> (r: Vec<KnowledgePoint>)
    requires
        table_wf(t),
        table_matches(keys@, nodes@, t),
    ensures
        point_views(r@) == resolved_points(points_of(chunk_views(chunks@)), t),
{
    let mut out: Vec<KnowledgePoint> = Vec::new();
    let ghost cs = chunk_views(chunks@);
    assert(resolved_points(points_of(cs.take(0)), t) =~= point_views(out@));
    for ci in 0..chunks.len()
        invariant
            table_wf(t),
            table_matches(keys@, nodes@, t),
            cs == chunk_views(chunks@),
            point_views(out@) == resolved_points(points_of(cs.take(ci as int)), t),
    {
        let ghost before = point_views(out@);
        let chunk = &chunks[ci];
        for pi in 0..chunk.knowledge_points.len()
            invariant
                table_wf(t),
                table_matches(keys@, nodes@, t),
                ci < chunks@.len(),
                chunk == &chunks@[ci as int],
                point_views(out@) == before + resolved_points(
                    chunk@.knowledge_points.take(pi as int),
                    t,
                ),
        {
            let ghost prev = out@;
            let q = resolve_one(&chunk.knowledge_points[pi], keys, nodes, Ghost(t));
            out.push(q);
            assert(point_views(out@) =~= point_views(prev).push(q@));
            assert(chunk@.knowledge_points.take(pi + 1) =~= chunk@.knowledge_points.take(
                pi as int,
            ).push(chunk@.knowledge_points[pi as int]));
            assert(resolved_points(chunk@.knowledge_points.take(pi + 1), t) =~= resolved_points(
                chunk@.knowledge_points.take(pi as int),
                t,
            ).push(q@));
        }
        proof {
            assert(cs.take(ci + 1).drop_last() =~= cs.take(ci as int));
            assert(chunk@.knowledge_points.take(chunk.knowledge_points@.len() as int)
                =~= chunk@.knowledge_points);
            assert(resolved_points(points_of(cs.take(ci + 1)), t) =~= resolved_points(
                points_of(cs.take(ci as int)),
                t,
            ) + resolved_points(chunk@.knowledge_points, t));
        }
    }
    assert(cs.take(chunks@.len() as int) =~= cs);
    out
}

// =====================================================================
// Relations
// =====================================================================
/// `relation_le` is transitive.
pub proof fn lemma_relation_le_transitive(a: RelationView, b: RelationView, c: RelationView)
    requires
        relation_le(a, b),
        relation_le(b, c),
    ensures
        relation_le(a, c),
{
    if seq_lt(a.source_id, b.source_id) && seq_lt(b.source_id, c.source_id) {
        lemma_seq_lt_transitive(a.source_id, b.source_id, c.source_id);
    } else if a.source_id == b.source_id && b.source_id == c.source_id {
        if seq_lt(a.target_id, b.target_id) && seq_lt(b.target_id, c.target_id) {
            lemma_seq_lt_transitive(a.target_id, b.target_id, c.target_id);
        }
    }
}

/// Two relations ordered each way by `relation_le` are the same relation.
pub proof fn lemma_relation_le_antisymmetric(a: RelationView, b: RelationView)
    requires
        relation_le(a, b),
        relation_le(b, a),
    ensures
        a == b,
{
    lemma_seq_lt_irreflexive(a.source_id);
    lemma_seq_lt_irreflexive(a.target_id);
    if seq_lt(a.source_id, b.source_id) && seq_lt(b.source_id, a.source_id) {
        lemma_seq_lt_transitive(a.source_id, b.source_id, a.source_id);
    }
    if seq_lt(a.target_id, b.target_id) && seq_lt(b.target_id, a.target_id) {
        lemma_seq_lt_transitive(a.target_id, b.target_id, a.target_id);
    }
    assert(a.relation_type == b.relation_type);
}

/// Any two relations are ordered by `relation_le` one way or the other.
pub proof fn lemma_relation_le_total(a: RelationView, b: RelationView)
    ensures
        relation_le(a, b) || relation_le(b, a),
{
    lemma_seq_lt_total(a.source_id, b.source_id);
    lemma_seq_lt_total(a.target_id, b.target_id);
}

/// Two ordered lists of distinct relations with the same members are equal.
pub proof fn lemma_ordered_relations_unique(a: Seq<RelationView>, b: Seq<RelationView>)
    requires
        relations_ordered(a),
        relations_ordered(b),
        a.no_duplicates(),
        b.no_duplicates(),
        a.to_set() == b.to_set(),
    ensures
        a == b,
    decreases a.len(),
{
    if a.len() == 0 {
        if b.len() > 0 {
            assert(b.to_set().contains(b[0]));
        }
        assert(a =~= b);
    } else {
        assert(a.to_set().contains(a[0]));
        assert(b.to_set().contains(a[0]));
        let j = choose|j: int| 0 <= j < b.len() && b[j] == a[0];
        assert(b.to_set().contains(b[0]));
        assert(a.to_set().contains(b[0]));
        let k = choose|k: int| 0 <= k < a.len() && a[k] == b[0];
        assert(relation_le(a[0], b[0])) by {
            if k > 0 {
                assert(relation_le(a[0], a[k]));
            }
        }
        assert(relation_le(b[0], a[0])) by {
            if j > 0 {
                assert(relation_le(b[0], b[j]));
            }
        }
        lemma_relation_le_antisymmetric(a[0], b[0]);
        let a1 = a.drop_first();
        let b1 = b.drop_first();
        assert forall|x: RelationView| a1.to_set().contains(x) implies b1.to_set().contains(x) by {
            let i = choose|i: int| 0 <= i < a1.len() && a1[i] == x;
            assert(a[i + 1] == x);
            assert(a.to_set().contains(x));
            let m = choose|m: int| 0 <= m < b.len() && b[m] == x;
            assert(m != 0);
            assert(b1[m - 1] == x);
        }
        assert forall|x: RelationView| b1.to_set().contains(x) implies a1.to_set().contains(x) by {
            let i = choose|i: int| 0 <= i < b1.len() && b1[i] == x;
            assert(b[i + 1] == x);
            assert(b.to_set().contains(x));
            let m = choose|m: int| 0 <= m < a.len() && a[m] == x;
            assert(m != 0);
            assert(a1[m - 1] == x);
        }
        assert(a1.to_set() =~= b1.to_set());
        lemma_ordered_relations_unique(a1, b1);
        assert(a =~= b) by {
            assert forall|i: int| 0 <= i < a.len() implies a[i] == b[i] by {
                if i > 0 {
                    assert(a[i] == a1[i - 1]);
                    assert(b[i] == b1[i - 1]);
                }
            }
        }
    }
}

/// Consolidation determines its relations: any two graphs that the
/// contract of `consolidate` admits for the same chunks have the same
/// relation list, in the same order.
pub proof fn lemma_consolidated_relations_determined(
    cs: Seq<ExtractedKnowledgeView>,
    g1: PropositionGraphView,
    g2: PropositionGraphView,
)
    requires
        consolidated(cs, g1),
        consolidated(cs, g2),
    ensures
        g1.relations == g2.relations,
        g1.knowledge_points == g2.knowledge_points,
{
    lemma_ordered_relations_unique(g1.relations, g2.relations);
}

fn relation_eq(a: &Relation, b: &Relation) -> (r: bool)
    ensures
        r == (a@ == b@),
{
    a.relation_type == b.relation_type && str_eq(a.source_id.as_str(), b.source_id.as_str())
        && str_eq(a.target_id.as_str(), b.target_id.as_str())
}

fn relation_le_exec(a: &Relation, b: &Relation) -> (r: bool)
    ensures
        r == relation_le(a@, b@),
{
    if str_lt(a.source_id.as_str(), b.source_id.as_str()) {
        true
    } else if str_eq(a.source_id.as_str(), b.source_id.as_str()) {
        if str_lt(a.target_id.as_str(), b.target_id.as_str()) {
            true
        } else if str_eq(a.target_id.as_str(), b.target_id.as_str()) {
            relation_type_rank_exec(a.relation_type) <= relation_type_rank_exec(b.relation_type)
        } else {
            false
        }
    } else {
        false
    }
}

fn relation_type_rank_exec(t: RelationType) -> (r: u8)
    ensures
        r == relation_type_rank(t),
{
    match t {
        RelationType::RelatedTo => 0,
        RelationType::Contrasts => 1,
        RelationType::Prerequisite => 2,
        RelationType::Consequence => 3,
        RelationType::Example => 4,
        RelationType::CounterExample => 5,
    }
}

/// Relations ordered by source, then target, then type.
pub open spec fn relations_ordered(s: Seq<RelationView>) -> bool {
    forall|i: int, j: int| 0 <= i < j < s.len() ==> relation_le(#[trigger] s[i], #[trigger] s[j])
}

/// Adds `c` to an ordered list without duplicates, unless it is present.
fn insert_relation(out: &mut Vec<Relation>, c: Relation)
    requires
        relations_ordered(relation_views(old(out)@)),
        relation_views(old(out)@).no_duplicates(),
    ensures
        relations_ordered(relation_views(final(out)@)),
        relation_views(final(out)@).no_duplicates(),
        relation_views(final(out)@).to_set() == relation_views(old(out)@).to_set().insert(c@),
{
    let ghost old_s = relation_views(out@);
    for i in 0..out.len()
        invariant
            old_s == relation_views(out@),
            relations_ordered(old_s),
            old_s.no_duplicates(),
            forall|k: int| 0 <= k < i ==> #[trigger] old_s[k] != c@,
    {
        if relation_eq(&out[i], &c) {
            assert(old_s[i as int] == c@);
            assert(old_s.to_set().insert(c@) =~= old_s.to_set());
            return ;
        }
    }
    let mut p: usize = 0;
    while p < out.len() && relation_le_exec(&out[p], &c)
        invariant
            old_s == relation_views(out@),
            p <= old_s.len(),
            forall|k: int| 0 <= k < p ==> relation_le(#[trigger] old_s[k], c@),
        decreases old_s.len() - p,
    {
        p = p + 1;
    }
    let ghost cv = c@;
    proof {
        if p < old_s.len() {
            lemma_relation_le_total(old_s[p as int], cv);
        }
    }
    out.insert(p, c);
    proof {
        let s2 = relation_views(out@);
        assert(s2 =~= old_s.insert(p as int, cv));
        old_s.insert_ensures(p as int, cv);
        assert forall|i: int, j: int| 0 <= i < j < s2.len() implies relation_le(
            #[trigger] s2[i],
            #[trigger] s2[j],
        ) by {
            if j < p {
            } else if i < p && j == p {
            } else if i < p {
                assert(s2[j] == old_s[j - 1]);
            } else if i == p {
                assert(s2[j] == old_s[j - 1]);
                if j - 1 > p {
                    lemma_relation_le_transitive(cv, old_s[p as int], old_s[j - 1]);
                }
            } else {
                assert(s2[i] == old_s[i - 1]);
                assert(s2[j] == old_s[j - 1]);
            }
        }
        assert forall|i: int, j: int| 0 <= i < s2.len() && 0 <= j < s2.len() && i != j implies s2[i]
            != s2[j] by {
            if i < p && j < p {
            } else if i == p {
                if j < p {
                    assert(s2[j] == old_s[j]);
                } else {
                    assert(s2[j] == old_s[j - 1]);
                }
            } else if j == p {
                if i < p {
                    assert(s2[i] == old_s[i]);
                } else {
                    assert(s2[i] == old_s[i - 1]);
                }
            } else {
                let oi = if i < p { i } else { i - 1 };
                let oj = if j < p { j } else { j - 1 };
                assert(s2[i] == old_s[oi]);
                assert(s2[j] == old_s[oj]);
            }
        }
        crate::text::lemma_insert_to_set(old_s, p as int, cv);
    }
}

proof fn lemma_push_append_set<A>(a: Seq<A>, b: Seq<A>, x: A)
    ensures
        (a + b.push(x)).to_set() == (a + b).to_set().insert(x),
{
    assert(a + b.push(x) =~= (a + b).push(x));
    (a + b).lemma_push_to_set_commute(x);
}

/// The distinct edges of the resolved points, ordered by source, target and type.
fn collect_relations(
    points: &Vec<KnowledgePoint>,
    keys: &Vec<String>,
    nodes: &Vec<EntityNode>,
    Ghost(t): Ghost<Seq<EntityRecord>>,
) -> (r: Vec<Relation>)
    requires
        table_wf(t),
        table_matches(keys@, nodes@, t),
    ensures
        relations_of_edges(relation_views(r@), all_edges(point_views(points@), t)),
{
    let mut out: Vec<Relation> = Vec::new();
    let ghost qs = point_views(points@);
    assert(relation_views(out@).to_set() =~= all_edges(qs.take(0), t).to_set());
    for i in 0..points.len()
        invariant
            table_wf(t),
            table_matches(keys@, nodes@, t),
            qs == point_views(points@),
            relations_ordered(relation_views(out@)),
            relation_views(out@).no_duplicates(),
            relation_views(out@).to_set() == all_edges(qs.take(i as int), t).to_set(),
    {
        let ghost before = all_edges(qs.take(i as int), t);
        let q = &points[i];
        proof {
            assert(qs.take(i + 1).drop_last() =~= qs.take(i as int));
            assert(qs.take(i + 1).last() == q@);
        }
        if q.entity_ids.len() > 0 {
            let source = &q.entity_ids[0];
            let rels = &q.raw_relations;
            assert(q@.entity_ids[0] == source@);
            assert(edges_from(source@, q@.raw_relations.take(0), t) =~= Seq::<RelationView>::empty());
            assert(before + edges_from(source@, q@.raw_relations.take(0), t) =~= before);
            for r in 0..rels.len()
                invariant
                    table_wf(t),
                    table_matches(keys@, nodes@, t),
                    rels == &q.raw_relations,
                    relations_ordered(relation_views(out@)),
                    relation_views(out@).no_duplicates(),
                    relation_views(out@).to_set() == (before + edges_from(
                        source@,
                        q@.raw_relations.take(r as int),
                        t,
                    )).to_set(),
            {
                let ghost prev_edges = edges_from(source@, q@.raw_relations.take(r as int), t);
                proof {
                    assert(q@.raw_relations.take(r + 1).drop_last() =~= q@.raw_relations.take(
                        r as int,
                    ));
                    assert(q@.raw_relations.take(r + 1).last() == rels@[r as int]@);
                }
                match lookup_name(keys, rels[r].target_entity_name.as_str(), Ghost(t)) {
                    Some(p) => {
                        assert(entity_matches(nodes@[p as int]@, t[p as int]));
                        let c = Relation {
                            source_id: source.clone(),
                            target_id: nodes[p].id.clone(),
                            relation_type: rels[r].relation_type,
                        };
                        let ghost cv = c@;
                        insert_relation(&mut out, c);
                        proof {
                            assert(edges_from(source@, q@.raw_relations.take(r + 1), t)
                                == prev_edges.push(cv));
                            lemma_push_append_set(before, prev_edges, cv);
                        }
                    },
                    None => {},
                }
            }
            assert(q@.raw_relations.take(rels@.len() as int) =~= q@.raw_relations);
        } else {
            assert(before + point_edges(q@, t) =~= before);
        }
    }
    assert(qs.take(points@.len() as int) =~= qs);
    out
}


// =====================================================================
// Consolidation
// =====================================================================

proof fn lemma_sorted_nodes_of_table(entities: Seq<EntityNode>, nodes: Seq<EntityNode>, t: Seq<EntityRecord>)
    requires
        nodes.len() == t.len(),
        forall|k: int| 0 <= k < t.len() ==> entity_matches(#[trigger] nodes[k]@, t[k]),
        entities.len() == nodes.len(),
        ids_increasing(entities),
        entity_views(entities).to_set() == entity_views(nodes).to_set(),
    ensures
        entities_of_table(entity_views(entities), t),
{
    let es = entity_views(entities);
    let ns = entity_views(nodes);
    assert(es.len() == t.len());
    assert forall|i: int| 0 <= i < es.len() implies from_some_record(#[trigger] es[i], t) by {
        assert(es.to_set().contains(es[i]));
        assert(ns.contains(es[i]));
        let k = choose|k: int| 0 <= k < ns.len() && ns[k] == es[i];
        assert(entity_matches(nodes[k]@, t[k]));
        assert(entity_matches(es[i], t[k]));
    }
    assert forall|k: int| 0 <= k < t.len() implies has_entity_for(es, #[trigger] t[k]) by {
        assert(ns[k] == nodes[k]@);
        assert(ns.to_set().contains(ns[k]));
        assert(es.contains(ns[k]));
        let i = choose|i: int| 0 <= i < es.len() && es[i] == ns[k];
        assert(entity_matches(nodes[k]@, t[k]));
        assert(entity_matches(es[i], t[k]));
    }
    assert forall|i: int, j: int| 0 <= i < j < es.len() implies seq_lt(
        #[trigger] es[i].id,
        #[trigger] es[j].id,
    ) by {
        assert(seq_lt(entities[i].id@, entities[j].id@));
    }
}

/// Consolidates multi-chunk Stage A output into one proposition graph.
///
/// Entities are keyed on their comparison key, in order of first mention;
/// the first raw form is the canonical name, every distinct raw form an
/// alias, and the chunk IDs are listed once each in increasing order.
/// Entities come out sorted by ID. Every knowledge point keeps its place
/// and gains the IDs of the entities it names (names no entity carries are
/// skipped). Each relation reference of a point with at least one entity ID
/// becomes an edge from its first entity ID to the entity its target names;
/// unresolvable targets are dropped, duplicates collapsed, and the edges
/// ordered by source, then target, then relation type.
pub fn consolidate(chunks: Vec<ExtractedKnowledge>) -> (g: PropositionGraph)
    ensures
        consolidated(chunk_views(chunks@), g@),
{
    let ghost cs = chunk_views(chunks@);
    let mentions = collect_mentions(&chunks);
    let (keys, nodes) = build_entity_table(&mentions);
    let ghost t = entity_table(mentions_of(cs));
    proof {
        lemma_entity_table_wf(mentions_of(cs));
    }
    let knowledge_points = resolve_all_points(&chunks, &keys, &nodes, Ghost(t));
    let relations = collect_relations(&knowledge_points, &keys, &nodes, Ghost(t));
    proof {
        assert forall|i: int, j: int| 0 <= i < j < nodes@.len() implies #[trigger] nodes@[i].id@
            != #[trigger] nodes@[j].id@ by {
            assert(entity_matches(nodes@[i]@, t[i]));
            assert(entity_matches(nodes@[j]@, t[j]));
        }
    }
    let entities = sort_entities(&nodes);
    proof {
        lemma_sorted_nodes_of_table(entities@, nodes@, t);
    }
    PropositionGraph { entities, knowledge_points, relations }
}


// =====================================================================
// Integrity validation
// =====================================================================
/// The IDs of a list of entities.
pub open spec fn entity_id_list(es: Seq<EntityNodeView>) -> Seq<Seq<char>> {
    es.map_values(|e: EntityNodeView| e.id)
}

pub open spec fn duplicate_id_message(e: EntityNodeView) -> Seq<char> {
    "duplicate entity id: '"@ + e.id + "' (canonical_name: '"@ + e.canonical_name + "')"@
}

pub open spec fn dangling_source_message(i: nat, id: Seq<char>) -> Seq<char> {
    "relation["@ + decimal(i) + "] source_id '"@ + id + "' not found in entities"@
}

pub open spec fn dangling_target_message(i: nat, id: Seq<char>) -> Seq<char> {
    "relation["@ + decimal(i) + "] target_id '"@ + id + "' not found in entities"@
}

pub open spec fn unknown_id_message(point_id: Seq<char>, id: Seq<char>) -> Seq<char> {
    "knowledge_point '"@ + point_id + "' references unknown entity_id '"@ + id + "'"@
}

/// One message per entity whose ID an earlier entity already has.
pub open spec fn duplicate_id_messages(es: Seq<EntityNodeView>) -> Seq<Seq<char>>
    decreases es.len(),
{
    if es.len() == 0 {
        Seq::empty()
    } else {
        let prev = duplicate_id_messages(es.drop_last());
        if entity_id_list(es.drop_last()).contains(es.last().id) {
            prev.push(duplicate_id_message(es.last()))
        } else {
            prev
        }
    }
}

/// For each relation in order, a message for an unknown source and then
/// one for an unknown target.
pub open spec fn relation_messages(rs: Seq<RelationView>, ids: Seq<Seq<char>>) -> Seq<Seq<char>>
    decreases rs.len(),
{
    if rs.len() == 0 {
        Seq::empty()
    } else {
        let i = (rs.len() - 1) as nat;
        let r = rs.last();
        let with_source = if ids.contains(r.source_id) {
            relation_messages(rs.drop_last(), ids)
        } else {
            relation_messages(rs.drop_last(), ids).push(dangling_source_message(i, r.source_id))
        };
        if ids.contains(r.target_id) {
            with_source
        } else {
            with_source.push(dangling_target_message(i, r.target_id))
        }
    }
}

/// A message for each unknown ID in one point's `entity_ids`.
pub open spec fn unknown_id_messages(point_id: Seq<char>, eids: Seq<Seq<char>>, ids: Seq<Seq<char>>) -> Seq<
    Seq<char>,
>
    decreases eids.len(),
{
    if eids.len() == 0 {
        Seq::empty()
    } else {
        let prev = unknown_id_messages(point_id, eids.drop_last(), ids);
        if ids.contains(eids.last()) {
            prev
        } else {
            prev.push(unknown_id_message(point_id, eids.last()))
        }
    }
}

/// The unknown-ID messages of all points, in order.
pub open spec fn point_messages(ps: Seq<KnowledgePointView>, ids: Seq<Seq<char>>) -> Seq<Seq<char>>
    decreases ps.len(),
{
    if ps.len() == 0 {
        Seq::empty()
    } else {
        point_messages(ps.drop_last(), ids) + unknown_id_messages(
            ps.last().id,
            ps.last().entity_ids,
            ids,
        )
    }
}

/// Every violation of the graph's structural invariants, in check order:
/// duplicate entity IDs, dangling relation endpoints, dangling point IDs.
pub open spec fn graph_violations(g: PropositionGraphView) -> Seq<Seq<char>> {
    let ids = entity_id_list(g.entities);
    duplicate_id_messages(g.entities) + relation_messages(g.relations, ids) + point_messages(
        g.knowledge_points,
        ids,
    )
}

/// Checks the structural invariants of a graph and lists every violation;
/// an empty list means the graph is valid.
pub fn validate_graph(graph: &PropositionGraph) -> (r: Vec<String>)
    ensures
        strs(r@) == graph_violations(graph@),
{
    let ghost g = graph@;
    let mut violations: Vec<String> = Vec::new();
    let mut known_ids: Vec<String> = Vec::new();
    let entities = &graph.entities;
    assert(g.entities.take(0) =~= Seq::<EntityNodeView>::empty());
    for i in 0..entities.len()
        invariant
            g == graph@,
            entities == &graph.entities,
            strs(known_ids@) == entity_id_list(g.entities.take(i as int)),
            strs(violations@) == duplicate_id_messages(g.entities.take(i as int)),
    {
        let e = &entities[i];
        proof {
            assert(g.entities.take(i + 1).drop_last() =~= g.entities.take(i as int));
            assert(g.entities.take(i + 1).last() == e@);
        }
        let ghost prev = violations@;
        if contains_str(&known_ids, e.id.as_str()) {
            let mut m = String::from_str("duplicate entity id: '");
            m.append(e.id.as_str());
            m.append("' (canonical_name: '");
            m.append(e.canonical_name.as_str());
            m.append("')");
            violations.push(m);
            assert(strs(violations@) =~= strs(prev).push(duplicate_id_message(e@)));
        }
        let ghost prev_known = known_ids@;
        known_ids.push(e.id.clone());
        assert(strs(known_ids@) =~= strs(prev_known).push(e.id@));
        assert(entity_id_list(g.entities.take(i + 1)) =~= entity_id_list(
            g.entities.take(i as int),
        ).push(e.id@));
    }
    assert(g.entities.take(entities@.len() as int) =~= g.entities);
    let ghost ids = entity_id_list(g.entities);
    let ghost dups = strs(violations@);
    let relations = &graph.relations;
    assert(g.relations.take(0) =~= Seq::<RelationView>::empty());
    assert(dups + relation_messages(g.relations.take(0), ids) =~= dups);
    for i in 0..relations.len()
        invariant
            g == graph@,
            relations == &graph.relations,
            strs(known_ids@) == ids,
            strs(violations@) == dups + relation_messages(g.relations.take(i as int), ids),
    {
        let rel = &relations[i];
        proof {
            assert(g.relations.take(i + 1).drop_last() =~= g.relations.take(i as int));
            assert(g.relations.take(i + 1).last() == rel@);
        }
        let ghost prev = violations@;
        if !contains_str(&known_ids, rel.source_id.as_str()) {
            let mut m = String::from_str("relation[");
            push_decimal(&mut m, i as u64);
            m.append("] source_id '");
            m.append(rel.source_id.as_str());
            m.append("' not found in entities");
            violations.push(m);
            assert(strs(violations@) =~= strs(prev).push(
                dangling_source_message(i as nat, rel.source_id@),
            ));
        }
        let ghost mid = violations@;
        if !contains_str(&known_ids, rel.target_id.as_str()) {
            let mut m = String::from_str("relation[");
            push_decimal(&mut m, i as u64);
            m.append("] target_id '");
            m.append(rel.target_id.as_str());
            m.append("' not found in entities");
            violations.push(m);
            assert(strs(violations@) =~= strs(mid).push(
                dangling_target_message(i as nat, rel.target_id@),
            ));
        }
        proof {
            let a = relation_messages(g.relations.take(i as int), ids);
            let with_source = if ids.contains(rel.source_id@) {
                a
            } else {
                a.push(dangling_source_message(i as nat, rel.source_id@))
            };
            assert(strs(mid) =~= dups + with_source);
            if ids.contains(rel.target_id@) {
            } else {
                assert(dups + with_source.push(dangling_target_message(i as nat, rel.target_id@))
                    =~= (dups + with_source).push(dangling_target_message(i as nat, rel.target_id@)));
            }
        }
    }
    assert(g.relations.take(relations@.len() as int) =~= g.relations);
    let ghost head = strs(violations@);
    let points = &graph.knowledge_points;
    assert(g.knowledge_points.take(0) =~= Seq::<KnowledgePointView>::empty());
    assert(head + point_messages(g.knowledge_points.take(0), ids) =~= head);
    for i in 0..points.len()
        invariant
            g == graph@,
            points == &graph.knowledge_points,
            strs(known_ids@) == ids,
            strs(violations@) == head + point_messages(g.knowledge_points.take(i as int), ids),
    {
        let kp = &points[i];
        let ghost before = strs(violations@);
        proof {
            assert(g.knowledge_points.take(i + 1).drop_last() =~= g.knowledge_points.take(
                i as int,
            ));
            assert(g.knowledge_points.take(i + 1).last() == kp@);
        }
        assert(strs(kp.entity_ids@).take(0) =~= Seq::<Seq<char>>::empty());
        assert(before + unknown_id_messages(kp.id@, strs(kp.entity_ids@).take(0), ids) =~= before);
        for j in 0..kp.entity_ids.len()
            invariant
                strs(known_ids@) == ids,
                strs(violations@) == before + unknown_id_messages(
                    kp.id@,
                    strs(kp.entity_ids@).take(j as int),
                    ids,
                ),
        {
            let ghost prev = violations@;
            proof {
                assert(strs(kp.entity_ids@).take(j + 1).drop_last() =~= strs(kp.entity_ids@).take(
                    j as int,
                ));
                assert(strs(kp.entity_ids@).take(j + 1).last() == kp.entity_ids@[j as int]@);
            }
            if !contains_str(&known_ids, kp.entity_ids[j].as_str()) {
                let mut m = String::from_str("knowledge_point '");
                m.append(kp.id.as_str());
                m.append("' references unknown entity_id '");
                m.append(kp.entity_ids[j].as_str());
                m.append("'");
                violations.push(m);
                assert(strs(violations@) =~= strs(prev).push(
                    unknown_id_message(kp.id@, kp.entity_ids@[j as int]@),
                ));
            }
        }
        assert(strs(kp.entity_ids@).take(kp.entity_ids@.len() as int) =~= strs(kp.entity_ids@));
        assert(head + point_messages(g.knowledge_points.take(i + 1), ids) =~= head + point_messages(
            g.knowledge_points.take(i as int),
            ids,
        ) + unknown_id_messages(kp.id@, kp@.entity_ids, ids));
    }
    assert(g.knowledge_points.take(points@.len() as int) =~= g.knowledge_points);
    violations
}


// =====================================================================
// Consolidated graphs are valid
// =====================================================================
proof fn lemma_no_duplicate_messages(es: Seq<EntityNodeView>)
    requires
        forall|i: int, j: int| 0 <= i < j < es.len() ==> seq_lt(#[trigger] es[i].id, #[trigger] es[j].id),
    ensures
        duplicate_id_messages(es) == Seq::<Seq<char>>::empty(),
    decreases es.len(),
{
    if es.len() > 0 {
        let init = es.drop_last();
        assert forall|i: int, j: int| 0 <= i < j < init.len() implies seq_lt(
            #[trigger] init[i].id,
            #[trigger] init[j].id,
        ) by {
            assert(init[i] == es[i] && init[j] == es[j]);
        }
        lemma_no_duplicate_messages(init);
        if entity_id_list(init).contains(es.last().id) {
            let k = choose|k: int| 0 <= k < init.len() && entity_id_list(init)[k] == es.last().id;
            assert(seq_lt(es[k].id, es[es.len() - 1].id));
            lemma_seq_lt_irreflexive(es.last().id);
        }
    }
}

/// Entities with pairwise distinct IDs produce no duplicate-ID messages.
pub(crate) proof fn lemma_distinct_no_duplicate_messages(es: Seq<EntityNodeView>)
    requires
        forall|i: int, j: int| 0 <= i < j < es.len() ==> #[trigger] es[i].id != #[trigger] es[j].id,
    ensures
        duplicate_id_messages(es) == Seq::<Seq<char>>::empty(),
    decreases es.len(),
{
    if es.len() > 0 {
        let init = es.drop_last();
        assert forall|i: int, j: int| 0 <= i < j < init.len() implies #[trigger] init[i].id
            != #[trigger] init[j].id by {
            assert(init[i] == es[i] && init[j] == es[j]);
        }
        lemma_distinct_no_duplicate_messages(init);
        if entity_id_list(init).contains(es.last().id) {
            let k = choose|k: int| 0 <= k < init.len() && entity_id_list(init)[k] == es.last().id;
            assert(es[k].id != es[es.len() - 1].id);
        }
    }
}

pub(crate) proof fn lemma_no_relation_messages(rs: Seq<RelationView>, ids: Seq<Seq<char>>)
    requires
        forall|i: int| 0 <= i < rs.len() ==> ids.contains(#[trigger] rs[i].source_id) && ids.contains(rs[i].target_id),
    ensures
        relation_messages(rs, ids) == Seq::<Seq<char>>::empty(),
    decreases rs.len(),
{
    if rs.len() > 0 {
        let init = rs.drop_last();
        assert forall|i: int| 0 <= i < init.len() implies ids.contains(#[trigger] init[i].source_id)
            && ids.contains(init[i].target_id) by {
            assert(init[i] == rs[i]);
        }
        lemma_no_relation_messages(init, ids);
        assert(ids.contains(rs[rs.len() - 1].source_id));
    }
}

proof fn lemma_no_unknown_messages(point_id: Seq<char>, eids: Seq<Seq<char>>, ids: Seq<Seq<char>>)
    requires
        forall|j: int| 0 <= j < eids.len() ==> ids.contains(#[trigger] eids[j]),
    ensures
        unknown_id_messages(point_id, eids, ids) == Seq::<Seq<char>>::empty(),
    decreases eids.len(),
{
    if eids.len() > 0 {
        let init = eids.drop_last();
        assert forall|j: int| 0 <= j < init.len() implies ids.contains(#[trigger] init[j]) by {
            assert(init[j] == eids[j]);
        }
        lemma_no_unknown_messages(point_id, init, ids);
        assert(ids.contains(eids[eids.len() - 1]));
    }
}

pub(crate) proof fn lemma_no_point_messages(ps: Seq<KnowledgePointView>, ids: Seq<Seq<char>>)
    requires
        forall|i: int, j: int|
            0 <= i < ps.len() && 0 <= j < ps[i].entity_ids.len() ==> ids.contains(
                #[trigger] ps[i].entity_ids[j],
            ),
    ensures
        point_messages(ps, ids) == Seq::<Seq<char>>::empty(),
    decreases ps.len(),
{
    if ps.len() > 0 {
        let init = ps.drop_last();
        assert forall|i: int, j: int|
            0 <= i < init.len() && 0 <= j < init[i].entity_ids.len() implies ids.contains(
                #[trigger] init[i].entity_ids[j],
            ) by {
            assert(init[i] == ps[i]);
        }
        lemma_no_point_messages(init, ids);
        let last = ps.last();
        assert forall|j: int| 0 <= j < last.entity_ids.len() implies ids.contains(
            #[trigger] last.entity_ids[j],
        ) by {
            assert(ps[ps.len() - 1].entity_ids[j] == last.entity_ids[j]);
        }
        lemma_no_unknown_messages(last.id, last.entity_ids, ids);
        assert(point_messages(init, ids) + Seq::<Seq<char>>::empty() =~= Seq::<Seq<char>>::empty());
    }
}

proof fn lemma_resolved_ids_known(names: Seq<Seq<char>>, t: Seq<EntityRecord>)
    ensures
        forall|j: int| 0 <= j < resolved_ids(names, t).len() ==> record_ids(t).contains(
            #[trigger] resolved_ids(names, t)[j],
        ),
    decreases names.len(),
{
    if names.len() > 0 {
        lemma_resolved_ids_known(names.drop_last(), t);
        let prev = resolved_ids(names.drop_last(), t);
        let p = key_pos(t, normalize_key(names.last()));
        lemma_key_pos(t, normalize_key(names.last()));
        if p >= 0 {
            assert(record_ids(t)[p] == t[p].id);
            assert forall|j: int| 0 <= j < resolved_ids(names, t).len() implies record_ids(t).contains(
                #[trigger] resolved_ids(names, t)[j],
            ) by {
                if j < prev.len() {
                    assert(resolved_ids(names, t)[j] == prev[j]);
                }
            }
        }
    }
}

proof fn lemma_edges_from_known(source: Seq<char>, rs: Seq<RelationRefView>, t: Seq<EntityRecord>)
    ensures
        forall|j: int| 0 <= j < edges_from(source, rs, t).len() ==> (#[trigger] edges_from(source, rs, t)[j]).source_id == source
            && record_ids(t).contains(edges_from(source, rs, t)[j].target_id),
    decreases rs.len(),
{
    if rs.len() > 0 {
        lemma_edges_from_known(source, rs.drop_last(), t);
        let p = key_pos(t, normalize_key(rs.last().target_entity_name));
        lemma_key_pos(t, normalize_key(rs.last().target_entity_name));
        if p >= 0 {
            assert(record_ids(t)[p] == t[p].id);
        }
    }
}

proof fn lemma_all_edges_known(qs: Seq<KnowledgePointView>, t: Seq<EntityRecord>)
    requires
        forall|i: int, j: int|
            0 <= i < qs.len() && 0 <= j < qs[i].entity_ids.len() ==> record_ids(t).contains(
                #[trigger] qs[i].entity_ids[j],
            ),
    ensures
        forall|k: int| 0 <= k < all_edges(qs, t).len() ==> record_ids(t).contains(
            (#[trigger] all_edges(qs, t)[k]).source_id,
        ) && record_ids(t).contains(all_edges(qs, t)[k].target_id),
    decreases qs.len(),
{
    if qs.len() > 0 {
        let init = qs.drop_last();
        assert forall|i: int, j: int|
            0 <= i < init.len() && 0 <= j < init[i].entity_ids.len() implies record_ids(t).contains(
                #[trigger] init[i].entity_ids[j],
            ) by {
            assert(init[i] == qs[i]);
        }
        lemma_all_edges_known(init, t);
        let q = qs.last();
        let a = all_edges(init, t);
        let b = point_edges(q, t);
        if q.entity_ids.len() > 0 {
            lemma_edges_from_known(q.entity_ids[0], q.raw_relations, t);
            assert(qs[qs.len() - 1].entity_ids[0] == q.entity_ids[0]);
        }
        assert forall|k: int| 0 <= k < (a + b).len() implies record_ids(t).contains(
            (#[trigger] (a + b)[k]).source_id,
        ) && record_ids(t).contains((a + b)[k].target_id) by {
            if k >= a.len() {
                assert((a + b)[k] == b[k - a.len()]);
            }
        }
    }
}

/// Every graph that `consolidate` produces passes `validate_graph`, as long
/// as the entity IDs the input points already carry are IDs of the
/// consolidated entities (Stage A output carries none).
pub proof fn lemma_consolidated_graph_is_valid(cs: Seq<ExtractedKnowledgeView>, g: PropositionGraphView)
    requires
        consolidated(cs, g),
        forall|i: int, j: int|
            0 <= i < points_of(cs).len() && 0 <= j < points_of(cs)[i].entity_ids.len()
                ==> record_ids(entity_table(mentions_of(cs))).contains(
                #[trigger] points_of(cs)[i].entity_ids[j],
            ),
    ensures
        graph_violations(g) == Seq::<Seq<char>>::empty(),
{
    let t = entity_table(mentions_of(cs));
    let ps = points_of(cs);
    let qs = resolved_points(ps, t);
    let ids = entity_id_list(g.entities);
    assert forall|x: Seq<char>| record_ids(t).contains(x) implies ids.contains(x) by {
        let k = choose|k: int| 0 <= k < record_ids(t).len() && record_ids(t)[k] == x;
        assert(t[k].id == x);
        assert(has_entity_for(g.entities, t[k]));
        let i = choose|i: int| 0 <= i < g.entities.len() && entity_matches(g.entities[i], t[k]);
        assert(ids[i] == x);
    }
    assert forall|i: int, j: int|
        0 <= i < qs.len() && 0 <= j < qs[i].entity_ids.len() implies record_ids(t).contains(
            #[trigger] qs[i].entity_ids[j],
        ) by {
        let p = ps[i];
        assert(qs[i] == resolve_point(p, t));
        lemma_resolved_ids_known(p.raw_entity_names, t);
        if j >= p.entity_ids.len() {
            assert(qs[i].entity_ids[j] == resolved_ids(p.raw_entity_names, t)[j - p.entity_ids.len()]);
        } else {
            assert(qs[i].entity_ids[j] == ps[i].entity_ids[j]);
        }
    }
    lemma_no_duplicate_messages(g.entities);
    lemma_all_edges_known(qs, t);
    assert forall|i: int| 0 <= i < g.relations.len() implies ids.contains(
        #[trigger] g.relations[i].source_id,
    ) && ids.contains(g.relations[i].target_id) by {
        assert(g.relations.to_set().contains(g.relations[i]));
        assert(all_edges(qs, t).contains(g.relations[i]));
        let k = choose|k: int| 0 <= k < all_edges(qs, t).len() && all_edges(qs, t)[k] == g.relations[i];
        assert(record_ids(t).contains(all_edges(qs, t)[k].source_id));
    }
    lemma_no_relation_messages(g.relations, ids);
    lemma_no_point_messages(g.knowledge_points, ids);
    assert(graph_violations(g) =~= Seq::<Seq<char>>::empty());
}

} // verus!
