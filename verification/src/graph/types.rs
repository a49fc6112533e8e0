//! Data model of graph-based generation: Stage A extraction output, the
//! consolidated proposition graph, and the bundles handed to Stage B.
//!
//! Every type has a mathematical view in which strings are character
//! sequences, so contracts can compare freshly built values with inputs.
use vstd::prelude::*;

use crate::text::strs;

verus! {

// ---------------------------------------------------------------------
// Enums
// ---------------------------------------------------------------------
/// The kind of claim a knowledge point makes.
#[derive(Debug, Clone, Copy, PartialEq, Eq, Structural)]
pub enum KnowledgeType {
    Definition,
    Fact,
    Procedural,
    Conceptual,
}

/// Closed set of relation types between entities.
#[derive(Debug, Clone, Copy, PartialEq, Eq, Structural)]
pub enum RelationType {
    RelatedTo,
    Contrasts,
    Prerequisite,
    Consequence,
    Example,
    CounterExample,
}

/// Question classification computed from graph structure.
#[derive(Debug, Clone, Copy, PartialEq, Eq, Structural)]
pub enum QuestionType {
    Recall,
    Relational,
}

// ---------------------------------------------------------------------
// Pre-consolidation (Stage A output, per chunk)
// ---------------------------------------------------------------------
/// A raw entity mention as extracted from one chunk.
#[derive(Debug, Clone, PartialEq, Eq)]
pub struct RawEntityMention {
    pub name: String,
    pub chunk_id: String,
}

/// A relation as stated by Stage A, before the target has a stable ID.
#[derive(Debug, Clone, PartialEq, Eq)]
pub struct RelationRef {
    pub target_entity_name: String,
    pub relation_type: RelationType,
    pub source_quote: Option<String>,
}

/// A testable proposition extracted from a chunk.
#[derive(Debug, Clone, PartialEq, Eq)]
pub struct KnowledgePoint {
    pub id: String,
    pub point: String,
    pub knowledge_type: KnowledgeType,
    pub chunk_id: String,
    pub raw_entity_names: Vec<String>,
    pub entity_ids: Vec<String>,
    pub raw_relations: Vec<RelationRef>,
}

/// Per-chunk Stage A output.
#[derive(Debug, Clone, PartialEq, Eq)]
pub struct ExtractedKnowledge {
    pub chunk_id: String,
    pub raw_entities: Vec<RawEntityMention>,
    pub knowledge_points: Vec<KnowledgePoint>,
}

// ---------------------------------------------------------------------
// Post-consolidation
// ---------------------------------------------------------------------
/// A deduplicated entity with a stable ID.
#[derive(Debug, Clone, PartialEq, Eq)]
pub struct EntityNode {
    pub id: String,
    pub canonical_name: String,
    pub aliases: Vec<String>,
    pub chunk_ids: Vec<String>,
}

/// A resolved relation between two stable entity IDs.
#[derive(Debug, Clone, PartialEq, Eq)]
pub struct Relation {
    pub source_id: String,
    pub target_id: String,
    pub relation_type: RelationType,
}

/// The consolidated, deduplicated graph.
#[derive(Debug, Clone, PartialEq, Eq)]
pub struct PropositionGraph {
    pub entities: Vec<EntityNode>,
    pub knowledge_points: Vec<KnowledgePoint>,
    pub relations: Vec<Relation>,
}

/// Everything Stage B needs to generate one question.
#[derive(Debug, Clone, PartialEq, Eq)]
pub struct GraphContextBundle {
    pub root_point: KnowledgePoint,
    pub related_points: Vec<KnowledgePoint>,
    pub question_type: QuestionType,
    pub supporting_entities: Vec<EntityNode>,
    pub supporting_relations: Vec<Relation>,
}

// ---------------------------------------------------------------------
// Mathematical views
// ---------------------------------------------------------------------
/// View of an optional string.
pub open spec fn opt_str(o: Option<String>) -> Option<Seq<char>> {
    match o {
        Some(s) => Some(s@),
        None => None,
    }
}

pub struct RawEntityMentionView {
    pub name: Seq<char>,
    pub chunk_id: Seq<char>,
}

pub struct RelationRefView {
    pub target_entity_name: Seq<char>,
    pub relation_type: RelationType,
    pub source_quote: Option<Seq<char>>,
}

pub struct KnowledgePointView {
    pub id: Seq<char>,
    pub point: Seq<char>,
    pub knowledge_type: KnowledgeType,
    pub chunk_id: Seq<char>,
    pub raw_entity_names: Seq<Seq<char>>,
    pub entity_ids: Seq<Seq<char>>,
    pub raw_relations: Seq<RelationRefView>,
}

pub struct ExtractedKnowledgeView {
    pub chunk_id: Seq<char>,
    pub raw_entities: Seq<RawEntityMentionView>,
    pub knowledge_points: Seq<KnowledgePointView>,
}

pub struct EntityNodeView {
    pub id: Seq<char>,
    pub canonical_name: Seq<char>,
    pub aliases: Seq<Seq<char>>,
    pub chunk_ids: Seq<Seq<char>>,
}

pub struct RelationView {
    pub source_id: Seq<char>,
    pub target_id: Seq<char>,
    pub relation_type: RelationType,
}

pub struct PropositionGraphView {
    pub entities: Seq<EntityNodeView>,
    pub knowledge_points: Seq<KnowledgePointView>,
    pub relations: Seq<RelationView>,
}

pub struct GraphContextBundleView {
    pub root_point: KnowledgePointView,
    pub related_points: Seq<KnowledgePointView>,
    pub question_type: QuestionType,
    pub supporting_entities: Seq<EntityNodeView>,
    pub supporting_relations: Seq<RelationView>,
}

impl View for RawEntityMention {
    type V = RawEntityMentionView;

    open spec fn view(&self) -> RawEntityMentionView {
        RawEntityMentionView { name: self.name@, chunk_id: self.chunk_id@ }
    }
}

impl View for RelationRef {
    type V = RelationRefView;

    open spec fn view(&self) -> RelationRefView {
        RelationRefView {
            target_entity_name: self.target_entity_name@,
            relation_type: self.relation_type,
            source_quote: opt_str(self.source_quote),
        }
    }
}

pub open spec fn relation_ref_views(v: Seq<RelationRef>) -> Seq<RelationRefView> {
    v.map_values(|r: RelationRef| r@)
}

impl View for KnowledgePoint {
    type V = KnowledgePointView;

    open spec fn view(&self) -> KnowledgePointView {
        KnowledgePointView {
            id: self.id@,
            point: self.point@,
            knowledge_type: self.knowledge_type,
            chunk_id: self.chunk_id@,
            raw_entity_names: strs(self.raw_entity_names@),
            entity_ids: strs(self.entity_ids@),
            raw_relations: relation_ref_views(self.raw_relations@),
        }
    }
}

pub open spec fn point_views(v: Seq<KnowledgePoint>) -> Seq<KnowledgePointView> {
    v.map_values(|p: KnowledgePoint| p@)
}

pub open spec fn mention_views(v: Seq<RawEntityMention>) -> Seq<RawEntityMentionView> {
    v.map_values(|m: RawEntityMention| m@)
}

impl View for ExtractedKnowledge {
    type V = ExtractedKnowledgeView;

    open spec fn view(&self) -> ExtractedKnowledgeView {
        ExtractedKnowledgeView {
            chunk_id: self.chunk_id@,
            raw_entities: mention_views(self.raw_entities@),
            knowledge_points: point_views(self.knowledge_points@),
        }
    }
}

impl View for EntityNode {
    type V = EntityNodeView;

    open spec fn view(&self) -> EntityNodeView {
        EntityNodeView {
            id: self.id@,
            canonical_name: self.canonical_name@,
            aliases: strs(self.aliases@),
            chunk_ids: strs(self.chunk_ids@),
        }
    }
}

pub open spec fn entity_views(v: Seq<EntityNode>) -> Seq<EntityNodeView> {
    v.map_values(|e: EntityNode| e@)
}

impl View for Relation {
    type V = RelationView;

    open spec fn view(&self) -> RelationView {
        RelationView {
            source_id: self.source_id@,
            target_id: self.target_id@,
            relation_type: self.relation_type,
        }
    }
}

pub open spec fn relation_views(v: Seq<Relation>) -> Seq<RelationView> {
    v.map_values(|r: Relation| r@)
}

impl View for PropositionGraph {
    type V = PropositionGraphView;

    open spec fn view(&self) -> PropositionGraphView {
        PropositionGraphView {
            entities: entity_views(self.entities@),
            knowledge_points: point_views(self.knowledge_points@),
            relations: relation_views(self.relations@),
        }
    }
}

impl View for GraphContextBundle {
    type V = GraphContextBundleView;

    open spec fn view(&self) -> GraphContextBundleView {
        GraphContextBundleView {
            root_point: self.root_point@,
            related_points: point_views(self.related_points@),
            question_type: self.question_type,
            supporting_entities: entity_views(self.supporting_entities@),
            supporting_relations: relation_views(self.supporting_relations@),
        }
    }
}

// ---------------------------------------------------------------------
// Verified copies
// ---------------------------------------------------------------------
/// Copies a list of strings.
pub fn copy_strings(v: &Vec<String>) -> (r: Vec<String>)
    ensures
        strs(r@) == strs(v@),
        r@.len() == v@.len(),
{
    let mut out: Vec<String> = Vec::new();
    for i in 0..v.len()
        invariant
            out@.len() == i,
            forall|k: int| 0 <= k < i ==> #[trigger] out@[k]@ == v@[k]@,
    {
        out.push(v[i].clone());
    }
    assert(strs(out@) =~= strs(v@));
    out
}

/// Copies an optional string.
pub fn copy_opt_string(o: &Option<String>) -> (r: Option<String>)
    ensures
        opt_str(r) == opt_str(*o),
{
    match o {
        Some(s) => Some(s.clone()),
        None => None,
    }
}

impl RelationRef {
    /// A field-by-field copy.
    pub fn duplicate(&self) -> (r: Self)
        ensures
            r@ == self@,
    {
        RelationRef {
            target_entity_name: self.target_entity_name.clone(),
            relation_type: self.relation_type,
            source_quote: copy_opt_string(&self.source_quote),
        }
    }
}

/// Copies a list of relation references.
pub fn copy_relation_refs(v: &Vec<RelationRef>) -> (r: Vec<RelationRef>)
    ensures
        relation_ref_views(r@) == relation_ref_views(v@),
{
    let mut out: Vec<RelationRef> = Vec::new();
    for i in 0..v.len()
        invariant
            out@.len() == i,
            forall|k: int| 0 <= k < i ==> #[trigger] out@[k]@ == v@[k]@,
    {
        out.push(v[i].duplicate());
    }
    assert(relation_ref_views(out@) =~= relation_ref_views(v@));
    out
}

impl KnowledgePoint {
    /// A field-by-field copy.
    pub fn duplicate(&self) -> (r: Self)
        ensures
            r@ == self@,
    {
        KnowledgePoint {
            id: self.id.clone(),
            point: self.point.clone(),
            knowledge_type: self.knowledge_type,
            chunk_id: self.chunk_id.clone(),
            raw_entity_names: copy_strings(&self.raw_entity_names),
            entity_ids: copy_strings(&self.entity_ids),
            raw_relations: copy_relation_refs(&self.raw_relations),
        }
    }
}

impl EntityNode {
    /// A field-by-field copy.
    pub fn duplicate(&self) -> (r: Self)
        ensures
            r@ == self@,
    {
        EntityNode {
            id: self.id.clone(),
            canonical_name: self.canonical_name.clone(),
            aliases: copy_strings(&self.aliases),
            chunk_ids: copy_strings(&self.chunk_ids),
        }
    }
}

impl Relation {
    /// A field-by-field copy.
    pub fn duplicate(&self) -> (r: Self)
        ensures
            r@ == self@,
    {
        Relation {
            source_id: self.source_id.clone(),
            target_id: self.target_id.clone(),
            relation_type: self.relation_type,
        }
    }
}

impl RawEntityMention {
    /// A field-by-field copy.
    pub fn duplicate(&self) -> (r: Self)
        ensures
            r@ == self@,
    {
        RawEntityMention { name: self.name.clone(), chunk_id: self.chunk_id.clone() }
    }
}

impl ExtractedKnowledge {
    /// A deep copy.
    pub fn duplicate(&self) -> (r: Self)
        ensures
            r@ == self@,
    {
        let mut raw_entities: Vec<RawEntityMention> = Vec::new();
        for i in 0..self.raw_entities.len()
            invariant
                raw_entities@.len() == i,
                forall|k: int| 0 <= k < i ==> #[trigger] raw_entities@[k]@ == self.raw_entities@[k]@,
        {
            raw_entities.push(self.raw_entities[i].duplicate());
        }
        let mut knowledge_points: Vec<KnowledgePoint> = Vec::new();
        for i in 0..self.knowledge_points.len()
            invariant
                knowledge_points@.len() == i,
                forall|k: int| 0 <= k < i ==> #[trigger] knowledge_points@[k]@ == self.knowledge_points@[k]@,
        {
            knowledge_points.push(self.knowledge_points[i].duplicate());
        }
        let r = ExtractedKnowledge { chunk_id: self.chunk_id.clone(), raw_entities, knowledge_points };
        assert(mention_views(r.raw_entities@) =~= mention_views(self.raw_entities@));
        assert(point_views(r.knowledge_points@) =~= point_views(self.knowledge_points@));
        r
    }
}

} // verus!
