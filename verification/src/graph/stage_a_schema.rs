//! Stage A extraction output: the JSON schema handed to the provider, and
//! the validation and hydration of the reply.
//!
//! The model's reply text is parsed into a JSON value, then checked in a
//! fixed order so that every rejection names the first problem with an
//! index, then decoded into wire records, and finally hydrated: chunk IDs
//! and point IDs are injected, strings become enums, and entity names that
//! points use but the entity list forgot are added to it.
use vstd::prelude::*;

use crate::graph::types::{
    ExtractedKnowledge, ExtractedKnowledgeView, KnowledgePoint, KnowledgePointView, KnowledgeType,
    RawEntityMention, RawEntityMentionView, RelationRef, RelationRefView, RelationType,
};
use crate::json::{
    JsonDoc, JsonValue, child, get_member, is_text, json_view, member_docs, parse_json_text,
    parsed_json, push_member, text, text_list, texts, texts_of,
};
use crate::text::{
    contains_str, decimal, is_blank, lemma_trim_idempotent, lowercase, push_decimal, str_eq, strs,
    to_lowercase, trim, trim_seq,
};

verus! {

// =====================================================================
// Errors
// =====================================================================
/// The content problems Stage A output can have.
#[derive(Debug)]
pub enum GraphStageAValidationError {
    /// An element has the wrong JSON type.
    MalformedShape,
    /// A required member is missing.
    MissingField { field: &'static str },
    /// Point text is empty or white space.
    EmptyPoint { index: usize },
    /// An entity name is empty or white space.
    EmptyEntityName { entity_index: usize },
    /// A raw entity name is empty or white space.
    EmptyRawEntityName { point_index: usize, entity_index: usize },
    /// Two raw entity names of one point agree up to case.
    DuplicateRawEntityNames { point_index: usize },
    /// A point names no entity.
    NoRawEntityNames { point_index: usize },
    /// A knowledge type outside the four known ones.
    InvalidKnowledgeType { point_index: usize, value: String },
    /// A relation type outside the six known ones.
    InvalidRelationType { point_index: usize, relation_index: usize, value: String },
    /// A relation target is empty or white space.
    EmptyRelationTarget { point_index: usize, relation_index: usize },
}

/// Why Stage A output was rejected.
#[derive(Debug)]
pub enum GraphStageAError {
    /// The value does not decode into the wire records.
    Parse(String),
    /// The value decodes but its content is invalid.
    Validation(GraphStageAValidationError),
}

pub enum StageAValidationErrorView {
    MalformedShape,
    MissingField { field: Seq<char> },
    EmptyPoint { index: nat },
    EmptyEntityName { entity_index: nat },
    EmptyRawEntityName { point_index: nat, entity_index: nat },
    DuplicateRawEntityNames { point_index: nat },
    NoRawEntityNames { point_index: nat },
    InvalidKnowledgeType { point_index: nat, value: Seq<char> },
    InvalidRelationType { point_index: nat, relation_index: nat, value: Seq<char> },
    EmptyRelationTarget { point_index: nat, relation_index: nat },
}

impl View for GraphStageAValidationError {
    type V = StageAValidationErrorView;

    open spec fn view(&self) -> StageAValidationErrorView {
        match self {
            GraphStageAValidationError::MalformedShape => StageAValidationErrorView::MalformedShape,
            GraphStageAValidationError::MissingField { field } => {
                StageAValidationErrorView::MissingField { field: field@ }
            },
            GraphStageAValidationError::EmptyPoint { index } => {
                StageAValidationErrorView::EmptyPoint { index: *index as nat }
            },
            GraphStageAValidationError::EmptyEntityName { entity_index } => {
                StageAValidationErrorView::EmptyEntityName { entity_index: *entity_index as nat }
            },
            GraphStageAValidationError::EmptyRawEntityName { point_index, entity_index } => {
                StageAValidationErrorView::EmptyRawEntityName {
                    point_index: *point_index as nat,
                    entity_index: *entity_index as nat,
                }
            },
            GraphStageAValidationError::DuplicateRawEntityNames { point_index } => {
                StageAValidationErrorView::DuplicateRawEntityNames {
                    point_index: *point_index as nat,
                }
            },
            GraphStageAValidationError::NoRawEntityNames { point_index } => {
                StageAValidationErrorView::NoRawEntityNames { point_index: *point_index as nat }
            },
            GraphStageAValidationError::InvalidKnowledgeType { point_index, value } => {
                StageAValidationErrorView::InvalidKnowledgeType {
                    point_index: *point_index as nat,
                    value: value@,
                }
            },
            GraphStageAValidationError::InvalidRelationType {
                point_index,
                relation_index,
                value,
            } => StageAValidationErrorView::InvalidRelationType {
                point_index: *point_index as nat,
                relation_index: *relation_index as nat,
                value: value@,
            },
            GraphStageAValidationError::EmptyRelationTarget { point_index, relation_index } => {
                StageAValidationErrorView::EmptyRelationTarget {
                    point_index: *point_index as nat,
                    relation_index: *relation_index as nat,
                }
            },
        }
    }
}

/// View of an optional error.
pub open spec fn error_opt(o: Option<GraphStageAValidationError>) -> Option<StageAValidationErrorView> {
    match o {
        Some(e) => Some(e@),
        None => None,
    }
}

/// The message that describes a content problem.
pub open spec fn validation_error_text(e: StageAValidationErrorView) -> Seq<char> {
    match e {
        StageAValidationErrorView::MalformedShape => "Root element must be a JSON object"@,
        StageAValidationErrorView::MissingField { field } => "Required field '"@ + field
            + "' is missing"@,
        StageAValidationErrorView::EmptyPoint { index } => "knowledge_point at index "@ + decimal(
            index,
        ) + " must be non-empty"@,
        StageAValidationErrorView::EmptyEntityName { entity_index } => "entity at index "@
            + decimal(entity_index) + " must be non-empty"@,
        StageAValidationErrorView::EmptyRawEntityName { point_index, entity_index } =>
            "raw_entity_name at point "@ + decimal(point_index) + ", entity "@ + decimal(
            entity_index,
        ) + " must be non-empty"@,
        StageAValidationErrorView::DuplicateRawEntityNames { point_index } =>
            "raw_entity_names at point "@ + decimal(point_index)
            + " contains duplicate names (case-insensitive)"@,
        StageAValidationErrorView::NoRawEntityNames { point_index } => "knowledge_point at index "@
            + decimal(point_index) + " must be about at least one entity"@,
        StageAValidationErrorView::InvalidKnowledgeType { point_index, value } =>
            "knowledge_type at point "@ + decimal(point_index) + " has invalid value '"@ + value
            + "' (expected: definition, fact, procedural, conceptual)"@,
        StageAValidationErrorView::InvalidRelationType { point_index, relation_index, value } =>
            "relation_type at point "@ + decimal(point_index) + ", relation "@ + decimal(
            relation_index,
        ) + " has invalid value '"@ + value
            + "' (expected: related_to, contrasts, prerequisite, consequence, example, counter_example)"@,
        StageAValidationErrorView::EmptyRelationTarget { point_index, relation_index } =>
            "target_entity_name at point "@ + decimal(point_index) + ", relation "@ + decimal(
            relation_index,
        ) + " must be non-empty"@,
    }
}

impl GraphStageAValidationError {
    /// The message that describes this problem.
    pub fn to_string(&self) -> (r: String)
        ensures
            r@ == validation_error_text(self@),
    {
        let mut out = String::new();
        match self {
            GraphStageAValidationError::MalformedShape => {
                out.append("Root element must be a JSON object");
            },
            GraphStageAValidationError::MissingField { field } => {
                out.append("Required field '");
                out.append(field);
                out.append("' is missing");
            },
            GraphStageAValidationError::EmptyPoint { index } => {
                out.append("knowledge_point at index ");
                push_decimal(&mut out, *index as u64);
                out.append(" must be non-empty");
            },
            GraphStageAValidationError::EmptyEntityName { entity_index } => {
                out.append("entity at index ");
                push_decimal(&mut out, *entity_index as u64);
                out.append(" must be non-empty");
            },
            GraphStageAValidationError::EmptyRawEntityName { point_index, entity_index } => {
                out.append("raw_entity_name at point ");
                push_decimal(&mut out, *point_index as u64);
                out.append(", entity ");
                push_decimal(&mut out, *entity_index as u64);
                out.append(" must be non-empty");
            },
            GraphStageAValidationError::DuplicateRawEntityNames { point_index } => {
                out.append("raw_entity_names at point ");
                push_decimal(&mut out, *point_index as u64);
                out.append(" contains duplicate names (case-insensitive)");
            },
            GraphStageAValidationError::NoRawEntityNames { point_index } => {
                out.append("knowledge_point at index ");
                push_decimal(&mut out, *point_index as u64);
                out.append(" must be about at least one entity");
            },
            GraphStageAValidationError::InvalidKnowledgeType { point_index, value } => {
                out.append("knowledge_type at point ");
                push_decimal(&mut out, *point_index as u64);
                out.append(" has invalid value '");
                out.append(value.as_str());
                out.append("' (expected: definition, fact, procedural, conceptual)");
            },
            GraphStageAValidationError::InvalidRelationType { point_index, relation_index, value } => {
                out.append("relation_type at point ");
                push_decimal(&mut out, *point_index as u64);
                out.append(", relation ");
                push_decimal(&mut out, *relation_index as u64);
                out.append(" has invalid value '");
                out.append(value.as_str());
                out.append(
                    "' (expected: related_to, contrasts, prerequisite, consequence, example, counter_example)",
                );
            },
            GraphStageAValidationError::EmptyRelationTarget { point_index, relation_index } => {
                out.append("target_entity_name at point ");
                push_decimal(&mut out, *point_index as u64);
                out.append(", relation ");
                push_decimal(&mut out, *relation_index as u64);
                out.append(" must be non-empty");
            },
        }
        out
    }
}

/// The message that describes a rejection of Stage A output.
pub open spec fn stage_a_error_text(e: &GraphStageAError) -> Seq<char> {
    match e {
        GraphStageAError::Parse(detail) => "Invalid LLM JSON payload: "@ + detail@,
        GraphStageAError::Validation(v) => "LLM JSON validation failed: "@ + validation_error_text(
            v@,
        ),
    }
}

impl GraphStageAError {
    /// The message that describes this rejection.
    pub fn to_string(&self) -> (r: String)
        ensures
            r@ == stage_a_error_text(self),
    {
        match self {
            GraphStageAError::Parse(detail) => {
                let mut out = String::from_str("Invalid LLM JSON payload: ");
                out.append(detail.as_str());
                out
            },
            GraphStageAError::Validation(v) => {
                let mut out = String::from_str("LLM JSON validation failed: ");
                let text = v.to_string();
                out.append(text.as_str());
                out
            },
        }
    }
}

// =====================================================================
// First failures
// =====================================================================
/// The first element for which `check`, given the elements before it,
/// reports a problem.
pub open spec fn first_failure<A, E>(items: Seq<A>, check: spec_fn(Seq<A>, A) -> Option<E>) -> Option<E>
    decreases items.len(),
{
    if items.len() == 0 {
        None
    } else {
        match first_failure(items.drop_last(), check) {
            Some(e) => Some(e),
            None => check(items.drop_last(), items.last()),
        }
    }
}

proof fn lemma_first_failure_step<A, E>(items: Seq<A>, check: spec_fn(Seq<A>, A) -> Option<E>, n: int)
    requires
        0 <= n < items.len(),
        first_failure(items.take(n), check) is None,
    ensures
        first_failure(items.take(n + 1), check) == check(items.take(n), items[n]),
{
    assert(items.take(n + 1).drop_last() =~= items.take(n));
}

proof fn lemma_first_failure_prefix<A, E>(items: Seq<A>, check: spec_fn(Seq<A>, A) -> Option<E>, n: int)
    requires
        0 <= n <= items.len(),
        first_failure(items.take(n), check) is Some,
    ensures
        first_failure(items, check) == first_failure(items.take(n), check),
    decreases items.len() - n,
{
    if n < items.len() {
        assert(items.take(n + 1).drop_last() =~= items.take(n));
        lemma_first_failure_prefix(items, check, n + 1);
    } else {
        assert(items.take(n) =~= items);
    }
}

// =====================================================================
// Validation specification
// =====================================================================
/// The text of a JSON string; empty for other values.
pub open spec fn str_of(v: JsonValue) -> Seq<char> {
    match v {
        JsonValue::String(s) => s@,
        _ => Seq::empty(),
    }
}

/// The elements of a JSON array; empty for other values.
pub open spec fn items_of(v: JsonValue) -> Seq<JsonValue> {
    match v {
        JsonValue::Array(a) => a@,
        _ => Seq::empty(),
    }
}

/// The four knowledge-type names.
pub open spec fn valid_knowledge_type(s: Seq<char>) -> bool {
    s == "definition"@ || s == "fact"@ || s == "procedural"@ || s == "conceptual"@
}

/// The six relation-type names.
pub open spec fn valid_relation_type(s: Seq<char>) -> bool {
    s == "related_to"@ || s == "contrasts"@ || s == "prerequisite"@ || s == "consequence"@ || s
        == "example"@ || s == "counter_example"@
}

/// One element of the `entities` list.
pub open spec fn entity_check(prefix: Seq<JsonValue>, v: JsonValue) -> Option<StageAValidationErrorView> {
    match v {
        JsonValue::String(s) => if trim_seq(s@).len() == 0 {
            Some(StageAValidationErrorView::EmptyEntityName { entity_index: prefix.len() })
        } else {
            None
        },
        _ => Some(StageAValidationErrorView::MalformedShape),
    }
}

/// The case-insensitive comparison key of a name.
pub open spec fn name_key(s: Seq<char>) -> Seq<char> {
    lowercase(trim_seq(s))
}

/// One raw entity name of point `point_index`.
pub open spec fn name_check(point_index: nat, prefix: Seq<JsonValue>, v: JsonValue) -> Option<
    StageAValidationErrorView,
> {
    match v {
        JsonValue::String(s) => if trim_seq(s@).len() == 0 {
            Some(
                StageAValidationErrorView::EmptyRawEntityName {
                    point_index,
                    entity_index: prefix.len(),
                },
            )
        } else if prefix.map_values(|w: JsonValue| name_key(str_of(w))).contains(name_key(s@)) {
            Some(StageAValidationErrorView::DuplicateRawEntityNames { point_index })
        } else {
            None
        },
        _ => Some(StageAValidationErrorView::MalformedShape),
    }
}

/// A required string member: missing, of the wrong type, or present.
pub open spec fn string_member(v: JsonValue, key: Seq<char>) -> Result<Seq<char>, StageAValidationErrorView> {
    match get_member(v, key) {
        None => Err(StageAValidationErrorView::MissingField { field: key }),
        Some(JsonValue::String(s)) => Ok(s@),
        Some(_) => Err(StageAValidationErrorView::MalformedShape),
    }
}

/// One relation of point `point_index`.
pub open spec fn relation_check(point_index: nat, prefix: Seq<JsonValue>, v: JsonValue) -> Option<
    StageAValidationErrorView,
> {
    if !(v is Object) {
        Some(StageAValidationErrorView::MalformedShape)
    } else {
        match string_member(v, "target_entity_name"@) {
            Err(e) => Some(e),
            Ok(target) => if trim_seq(target).len() == 0 {
                Some(
                    StageAValidationErrorView::EmptyRelationTarget {
                        point_index,
                        relation_index: prefix.len(),
                    },
                )
            } else {
                match string_member(v, "relation_type"@) {
                    Err(e) => Some(e),
                    Ok(rt) => if valid_relation_type(rt) {
                        None
                    } else {
                        Some(
                            StageAValidationErrorView::InvalidRelationType {
                                point_index,
                                relation_index: prefix.len(),
                                value: rt,
                            },
                        )
                    },
                }
            },
        }
    }
}

/// The relations a point lists; a missing or non-array member counts as
/// none.
pub open spec fn relations_of(p: JsonValue) -> Seq<JsonValue> {
    match get_member(p, "raw_relations"@) {
        Some(JsonValue::Array(a)) => a@,
        _ => Seq::empty(),
    }
}

/// The raw entity names member of a point, required to be a non-empty
/// array.
pub open spec fn names_member(point_index: nat, p: JsonValue) -> Result<Seq<JsonValue>, StageAValidationErrorView> {
    match get_member(p, "raw_entity_names"@) {
        None => Err(StageAValidationErrorView::MissingField { field: "raw_entity_names"@ }),
        Some(JsonValue::Array(a)) => if a@.len() == 0 {
            Err(StageAValidationErrorView::NoRawEntityNames { point_index })
        } else {
            Ok(a@)
        },
        Some(_) => Err(StageAValidationErrorView::MalformedShape),
    }
}

pub open spec fn entity_checker() -> spec_fn(Seq<JsonValue>, JsonValue) -> Option<StageAValidationErrorView> {
    |pre: Seq<JsonValue>, w: JsonValue| entity_check(pre, w)
}

pub open spec fn name_checker(i: nat) -> spec_fn(Seq<JsonValue>, JsonValue) -> Option<StageAValidationErrorView> {
    |pre: Seq<JsonValue>, w: JsonValue| name_check(i, pre, w)
}

pub open spec fn relation_checker(i: nat) -> spec_fn(Seq<JsonValue>, JsonValue) -> Option<StageAValidationErrorView> {
    |pre: Seq<JsonValue>, w: JsonValue| relation_check(i, pre, w)
}

/// One knowledge point: its text, type, names, and relations, in order.
pub open spec fn point_check(prefix: Seq<JsonValue>, p: JsonValue) -> Option<StageAValidationErrorView> {
    let i = prefix.len();
    if !(p is Object) {
        Some(StageAValidationErrorView::MalformedShape)
    } else {
        match string_member(p, "point"@) {
            Err(e) => Some(e),
            Ok(text) => if trim_seq(text).len() == 0 {
                Some(StageAValidationErrorView::EmptyPoint { index: i })
            } else {
                match string_member(p, "knowledge_type"@) {
                    Err(e) => Some(e),
                    Ok(kt) => if !valid_knowledge_type(kt) {
                        Some(
                            StageAValidationErrorView::InvalidKnowledgeType {
                                point_index: i,
                                value: kt,
                            },
                        )
                    } else {
                        match names_member(i, p) {
                            Err(e) => Some(e),
                            Ok(names) => match first_failure(names, name_checker(i)) {
                                Some(e) => Some(e),
                                None => first_failure(relations_of(p), relation_checker(i)),
                            },
                        }
                    },
                }
            },
        }
    }
}

pub open spec fn point_checker() -> spec_fn(Seq<JsonValue>, JsonValue) -> Option<StageAValidationErrorView> {
    |pre: Seq<JsonValue>, w: JsonValue| point_check(pre, w)
}

/// A required array member of the root object.
pub open spec fn array_member(v: JsonValue, key: Seq<char>) -> Result<Seq<JsonValue>, StageAValidationErrorView> {
    match get_member(v, key) {
        None => Err(StageAValidationErrorView::MissingField { field: key }),
        Some(JsonValue::Array(a)) => Ok(a@),
        Some(_) => Err(StageAValidationErrorView::MalformedShape),
    }
}

/// The first content problem of Stage A output, in check order.
pub open spec fn stage_a_problem(v: JsonValue) -> Option<StageAValidationErrorView> {
    if !(v is Object) {
        Some(StageAValidationErrorView::MalformedShape)
    } else {
        match array_member(v, "entities"@) {
            Err(e) => Some(e),
            Ok(es) => match first_failure(es, entity_checker()) {
                Some(e) => Some(e),
                None => match array_member(v, "knowledge_points"@) {
                    Err(e) => Some(e),
                    Ok(ps) => first_failure(ps, point_checker()),
                },
            },
        }
    }
}


// =====================================================================
// Validation
// =====================================================================
/// A required string member of an object.
fn require_string<'a>(v: &'a JsonValue, key: &'static str) -> (r: Result<&'a str, GraphStageAValidationError>)
    ensures
        match r {
            Ok(s) => string_member(*v, key@) == Ok::<Seq<char>, StageAValidationErrorView>(s@),
            Err(e) => string_member(*v, key@) == Err::<Seq<char>, StageAValidationErrorView>(e@),
        },
{
    match v.get(key) {
        None => Err(GraphStageAValidationError::MissingField { field: key }),
        Some(m) => match m.as_str() {
            Some(s) => Ok(s),
            None => Err(GraphStageAValidationError::MalformedShape),
        },
    }
}

/// A required array member of an object.
fn require_array<'a>(v: &'a JsonValue, key: &'static str) -> (r: Result<&'a Vec<JsonValue>, GraphStageAValidationError>)
    ensures
        match r {
            Ok(a) => array_member(*v, key@) == Ok::<Seq<JsonValue>, StageAValidationErrorView>(a@),
            Err(e) => array_member(*v, key@) == Err::<Seq<JsonValue>, StageAValidationErrorView>(e@),
        },
{
    match v.get(key) {
        None => Err(GraphStageAValidationError::MissingField { field: key }),
        Some(m) => match m.as_array() {
            Some(a) => Ok(a),
            None => Err(GraphStageAValidationError::MalformedShape),
        },
    }
}

fn is_object(v: &JsonValue) -> (r: bool)
    ensures
        r == (*v is Object),
{
    match v {
        JsonValue::Object(_) => true,
        _ => false,
    }
}

fn check_names(point_index: usize, names: &Vec<JsonValue>) -> (r: Option<GraphStageAValidationError>)
    ensures
        error_opt(r) == first_failure(names@, name_checker(point_index as nat)),
{
    let ghost check = name_checker(point_index as nat);
    let ghost key_of = |w: JsonValue| name_key(str_of(w));
    let mut keys: Vec<String> = Vec::new();
    assert(names@.take(0) =~= Seq::<JsonValue>::empty());
    assert(strs(keys@) =~= names@.take(0).map_values(key_of));
    for j in 0..names.len()
        invariant
            check == name_checker(point_index as nat),
            key_of == (|w: JsonValue| name_key(str_of(w))),
            first_failure(names@.take(j as int), check) is None,
            strs(keys@) == names@.take(j as int).map_values(key_of),
    {
        proof {
            lemma_first_failure_step(names@, check, j as int);
        }
        let w = &names[j];
        let name = match w.as_str() {
            Some(s) => s,
            None => {
                proof {
                    lemma_first_failure_prefix(names@, check, j + 1);
                }
                return Some(GraphStageAValidationError::MalformedShape);
            },
        };
        if is_blank(name) {
            proof {
                lemma_first_failure_prefix(names@, check, j + 1);
            }
            return Some(
                GraphStageAValidationError::EmptyRawEntityName {
                    point_index,
                    entity_index: j,
                },
            );
        }
        let trimmed = trim(name);
        let key = to_lowercase(trimmed.as_str());
        if contains_str(&keys, key.as_str()) {
            proof {
                lemma_first_failure_prefix(names@, check, j + 1);
            }
            return Some(GraphStageAValidationError::DuplicateRawEntityNames { point_index });
        }
        let ghost prev = keys@;
        keys.push(key);
        proof {
            assert(strs(keys@) =~= strs(prev).push(key@));
            assert(names@.take(j + 1).map_values(key_of) =~= names@.take(j as int).map_values(
                key_of,
            ).push(key_of(names@[j as int])));
        }
    }
    assert(names@.take(names@.len() as int) =~= names@);
    None
}

fn check_relation(point_index: usize, relation_index: usize, v: &JsonValue, Ghost(prefix): Ghost<Seq<JsonValue>>) -> (r: Option<GraphStageAValidationError>)
    requires
        prefix.len() == relation_index,
    ensures
        error_opt(r) == relation_check(point_index as nat, prefix, *v),
{
    if !is_object(v) {
        return Some(GraphStageAValidationError::MalformedShape);
    }
    let target = match require_string(v, "target_entity_name") {
        Ok(t) => t,
        Err(e) => return Some(e),
    };
    if is_blank(target) {
        return Some(GraphStageAValidationError::EmptyRelationTarget { point_index, relation_index });
    }
    let rt = match require_string(v, "relation_type") {
        Ok(t) => t,
        Err(e) => return Some(e),
    };
    if str_eq(rt, "related_to") || str_eq(rt, "contrasts") || str_eq(rt, "prerequisite") || str_eq(
        rt,
        "consequence",
    ) || str_eq(rt, "example") || str_eq(rt, "counter_example") {
        None
    } else {
        Some(
            GraphStageAValidationError::InvalidRelationType {
                point_index,
                relation_index,
                value: String::from_str(rt),
            },
        )
    }
}

fn check_relations(point_index: usize, p: &JsonValue) -> (r: Option<GraphStageAValidationError>)
    ensures
        error_opt(r) == first_failure(relations_of(*p), relation_checker(point_index as nat)),
{
    let rels = match p.get("raw_relations") {
        Some(m) => match m.as_array() {
            Some(a) => a,
            None => {
                assert(relations_of(*p) =~= Seq::<JsonValue>::empty());
                return None;
            },
        },
        None => {
            assert(relations_of(*p) =~= Seq::<JsonValue>::empty());
            return None;
        },
    };
    let ghost check = relation_checker(point_index as nat);
    for k in 0..rels.len()
        invariant
            check == relation_checker(point_index as nat),
            relations_of(*p) == rels@,
            first_failure(rels@.take(k as int), check) is None,
    {
        proof {
            lemma_first_failure_step(rels@, check, k as int);
        }
        match check_relation(point_index, k, &rels[k], Ghost(rels@.take(k as int))) {
            Some(e) => {
                proof {
                    lemma_first_failure_prefix(rels@, check, k + 1);
                }
                return Some(e);
            },
            None => {},
        }
    }
    assert(rels@.take(rels@.len() as int) =~= rels@);
    None
}

fn check_point(index: usize, p: &JsonValue, Ghost(prefix): Ghost<Seq<JsonValue>>) -> (r: Option<GraphStageAValidationError>)
    requires
        prefix.len() == index,
    ensures
        error_opt(r) == point_check(prefix, *p),
{
    if !is_object(p) {
        return Some(GraphStageAValidationError::MalformedShape);
    }
    let text = match require_string(p, "point") {
        Ok(t) => t,
        Err(e) => return Some(e),
    };
    if is_blank(text) {
        return Some(GraphStageAValidationError::EmptyPoint { index });
    }
    let kt = match require_string(p, "knowledge_type") {
        Ok(t) => t,
        Err(e) => return Some(e),
    };
    if !(str_eq(kt, "definition") || str_eq(kt, "fact") || str_eq(kt, "procedural") || str_eq(
        kt,
        "conceptual",
    )) {
        return Some(
            GraphStageAValidationError::InvalidKnowledgeType {
                point_index: index,
                value: String::from_str(kt),
            },
        );
    }
    let names = match p.get("raw_entity_names") {
        None => return Some(GraphStageAValidationError::MissingField { field: "raw_entity_names" }),
        Some(m) => match m.as_array() {
            Some(a) => a,
            None => return Some(GraphStageAValidationError::MalformedShape),
        },
    };
    if names.len() == 0 {
        return Some(GraphStageAValidationError::NoRawEntityNames { point_index: index });
    }
    match check_names(index, names) {
        Some(e) => return Some(e),
        None => {},
    }
    check_relations(index, p)
}

/// Checks Stage A output in a fixed order and reports the first problem.
fn validate_stage_a_json(value: &JsonValue) -> (r: Result<(), GraphStageAValidationError>)
    ensures
        match r {
            Ok(()) => stage_a_problem(*value) is None,
            Err(e) => stage_a_problem(*value) == Some(e@),
        },
{
    if !is_object(value) {
        return Err(GraphStageAValidationError::MalformedShape);
    }
    let entities = match require_array(value, "entities") {
        Ok(a) => a,
        Err(e) => return Err(e),
    };
    let ghost echeck = entity_checker();
    for idx in 0..entities.len()
        invariant
            echeck == entity_checker(),
            *value is Object,
            array_member(*value, "entities"@) == Ok::<Seq<JsonValue>, StageAValidationErrorView>(entities@),
            first_failure(entities@.take(idx as int), echeck) is None,
    {
        proof {
            lemma_first_failure_step(entities@, echeck, idx as int);
        }
        let name = match entities[idx].as_str() {
            Some(s) => s,
            None => {
                proof {
                    lemma_first_failure_prefix(entities@, echeck, idx + 1);
                }
                return Err(GraphStageAValidationError::MalformedShape);
            },
        };
        if is_blank(name) {
            proof {
                lemma_first_failure_prefix(entities@, echeck, idx + 1);
            }
            return Err(GraphStageAValidationError::EmptyEntityName { entity_index: idx });
        }
    }
    assert(entities@.take(entities@.len() as int) =~= entities@);
    let points = match require_array(value, "knowledge_points") {
        Ok(a) => a,
        Err(e) => return Err(e),
    };
    let ghost pcheck = point_checker();
    for idx in 0..points.len()
        invariant
            pcheck == point_checker(),
            *value is Object,
            array_member(*value, "entities"@) == Ok::<Seq<JsonValue>, StageAValidationErrorView>(entities@),
            first_failure(entities@, entity_checker()) is None,
            array_member(*value, "knowledge_points"@) == Ok::<Seq<JsonValue>, StageAValidationErrorView>(points@),
            first_failure(points@.take(idx as int), pcheck) is None,
    {
        proof {
            lemma_first_failure_step(points@, pcheck, idx as int);
        }
        match check_point(idx, &points[idx], Ghost(points@.take(idx as int))) {
            Some(e) => {
                proof {
                    lemma_first_failure_prefix(points@, pcheck, idx + 1);
                }
                return Err(e);
            },
            None => {},
        }
    }
    assert(points@.take(points@.len() as int) =~= points@);
    Ok(())
}


proof fn lemma_first_failure_none<A, E>(items: Seq<A>, check: spec_fn(Seq<A>, A) -> Option<E>)
    requires
        first_failure(items, check) is None,
    ensures
        forall|k: int| 0 <= k < items.len() ==> (#[trigger] check(items.take(k), items[k])) is None,
    decreases items.len(),
{
    if items.len() > 0 {
        let init = items.drop_last();
        lemma_first_failure_none(init, check);
        assert forall|k: int| 0 <= k < items.len() implies (#[trigger] check(items.take(k), items[k])) is None by {
            if k < items.len() - 1 {
                assert(init.take(k) =~= items.take(k));
                assert(init[k] == items[k]);
                assert(check(init.take(k), init[k]) is None);
            } else {
                assert(items.take(k) =~= init);
            }
        }
    }
}

// =====================================================================
// Decoding and hydration specification
// =====================================================================
/// A relation's `source_quote` decodes when absent, null, or a string.
pub open spec fn quote_decodes(r: JsonValue) -> bool {
    match get_member(r, "source_quote"@) {
        None => true,
        Some(JsonValue::Null) => true,
        Some(JsonValue::String(_)) => true,
        Some(_) => false,
    }
}

pub open spec fn quote_message(i: nat, k: nat) -> Seq<char> {
    "knowledge_points["@ + decimal(i) + "].raw_relations["@ + decimal(k)
        + "].source_quote: expected a string or null"@
}

pub open spec fn relations_message(i: nat) -> Seq<char> {
    "knowledge_points["@ + decimal(i) + "].raw_relations: expected an array"@
}

/// The decoding problem of one relation of point `i`.
pub open spec fn quote_checker(i: nat) -> spec_fn(Seq<JsonValue>, JsonValue) -> Option<Seq<char>> {
    |pre: Seq<JsonValue>, r: JsonValue|
        if quote_decodes(r) {
            None
        } else {
            Some(quote_message(i, pre.len()))
        }
}

/// The decoding problem of one point: a `raw_relations` member that is
/// not an array, or a relation whose quote does not decode.
pub open spec fn point_decode_check(pre: Seq<JsonValue>, p: JsonValue) -> Option<Seq<char>> {
    match get_member(p, "raw_relations"@) {
        None => None,
        Some(JsonValue::Array(a)) => first_failure(a@, quote_checker(pre.len())),
        Some(_) => Some(relations_message(pre.len())),
    }
}

pub open spec fn decode_checker() -> spec_fn(Seq<JsonValue>, JsonValue) -> Option<Seq<char>> {
    |pre: Seq<JsonValue>, p: JsonValue| point_decode_check(pre, p)
}

/// The text of a string member; empty when absent or not a string.
pub open spec fn member_str(v: JsonValue, key: Seq<char>) -> Seq<char> {
    match get_member(v, key) {
        Some(m) => str_of(m),
        None => Seq::empty(),
    }
}

/// The elements of an array member; empty when absent or not an array.
pub open spec fn member_items(v: JsonValue, key: Seq<char>) -> Seq<JsonValue> {
    match get_member(v, key) {
        Some(m) => items_of(m),
        None => Seq::empty(),
    }
}

pub open spec fn knowledge_type_of(s: Seq<char>) -> KnowledgeType {
    if s == "definition"@ {
        KnowledgeType::Definition
    } else if s == "fact"@ {
        KnowledgeType::Fact
    } else if s == "procedural"@ {
        KnowledgeType::Procedural
    } else {
        KnowledgeType::Conceptual
    }
}

pub open spec fn relation_type_of(s: Seq<char>) -> RelationType {
    if s == "related_to"@ {
        RelationType::RelatedTo
    } else if s == "contrasts"@ {
        RelationType::Contrasts
    } else if s == "prerequisite"@ {
        RelationType::Prerequisite
    } else if s == "consequence"@ {
        RelationType::Consequence
    } else if s == "example"@ {
        RelationType::Example
    } else {
        RelationType::CounterExample
    }
}

pub open spec fn quote_of(r: JsonValue) -> Option<Seq<char>> {
    match get_member(r, "source_quote"@) {
        Some(JsonValue::String(s)) => Some(s@),
        _ => None,
    }
}

pub open spec fn hydrate_relation(r: JsonValue) -> RelationRefView {
    RelationRefView {
        target_entity_name: member_str(r, "target_entity_name"@),
        relation_type: relation_type_of(member_str(r, "relation_type"@)),
        source_quote: quote_of(r),
    }
}

/// The ID of point `i` of a chunk: `{chunk_id}-kp-{i}`.
pub open spec fn point_id(chunk_id: Seq<char>, i: nat) -> Seq<char> {
    chunk_id + "-kp-"@ + decimal(i)
}

pub open spec fn hydrate_point(chunk_id: Seq<char>, i: nat, p: JsonValue) -> KnowledgePointView {
    KnowledgePointView {
        id: point_id(chunk_id, i),
        point: member_str(p, "point"@),
        knowledge_type: knowledge_type_of(member_str(p, "knowledge_type"@)),
        chunk_id,
        raw_entity_names: member_items(p, "raw_entity_names"@).map_values(|w: JsonValue| str_of(w)),
        entity_ids: Seq::empty(),
        raw_relations: relations_of(p).map_values(|r: JsonValue| hydrate_relation(r)),
    }
}

/// Adds a name unless one with the same key is known; new names are kept
/// trimmed.
pub open spec fn union_name(state: (Seq<Seq<char>>, Seq<Seq<char>>), name: Seq<char>) -> (
    Seq<Seq<char>>,
    Seq<Seq<char>>,
) {
    if state.0.contains(name_key(name)) {
        state
    } else {
        (state.0.push(name_key(name)), state.1.push(trim_seq(name)))
    }
}

pub open spec fn union_names(state: (Seq<Seq<char>>, Seq<Seq<char>>), names: Seq<Seq<char>>) -> (
    Seq<Seq<char>>,
    Seq<Seq<char>>,
)
    decreases names.len(),
{
    if names.len() == 0 {
        state
    } else {
        union_name(union_names(state, names.drop_last()), names.last())
    }
}

/// The names each point uses: its raw entity names, then its relation
/// targets.
pub open spec fn used_names(p: JsonValue) -> Seq<Seq<char>> {
    member_items(p, "raw_entity_names"@).map_values(|w: JsonValue| str_of(w)) + relations_of(
        p,
    ).map_values(|r: JsonValue| member_str(r, "target_entity_name"@))
}

pub open spec fn union_points(state: (Seq<Seq<char>>, Seq<Seq<char>>), ps: Seq<JsonValue>) -> (
    Seq<Seq<char>>,
    Seq<Seq<char>>,
)
    decreases ps.len(),
{
    if ps.len() == 0 {
        state
    } else {
        union_names(union_points(state, ps.drop_last()), used_names(ps.last()))
    }
}

/// The declared entity names followed by every used name whose key no
/// earlier name has.
pub open spec fn entity_names(v: JsonValue) -> Seq<Seq<char>> {
    let declared = member_items(v, "entities"@).map_values(|w: JsonValue| str_of(w));
    union_points(
        (declared.map_values(|n: Seq<char>| name_key(n)), declared),
        member_items(v, "knowledge_points"@),
    ).1
}

/// The hydrated extraction for a valid value.
pub open spec fn hydrated(v: JsonValue, chunk_id: Seq<char>) -> ExtractedKnowledgeView {
    let ps = member_items(v, "knowledge_points"@);
    ExtractedKnowledgeView {
        chunk_id,
        raw_entities: entity_names(v).map_values(
            |n: Seq<char>| RawEntityMentionView { name: n, chunk_id },
        ),
        knowledge_points: Seq::new(ps.len(), |i: int| hydrate_point(chunk_id, i as nat, ps[i])),
    }
}


// =====================================================================
// Decoding and hydration
// =====================================================================
fn string_of(v: &JsonValue) -> (r: String)
    ensures
        r@ == str_of(*v),
{
    match v {
        JsonValue::String(s) => s.clone(),
        _ => String::new(),
    }
}

fn member_string(v: &JsonValue, key: &str) -> (r: String)
    ensures
        r@ == member_str(*v, key@),
{
    match v.get(key) {
        Some(m) => string_of(m),
        None => String::new(),
    }
}

fn member_array<'a>(v: &'a JsonValue, key: &str) -> (r: Option<&'a Vec<JsonValue>>)
    ensures
        match r {
            Some(a) => member_items(*v, key@) == a@,
            None => member_items(*v, key@) == Seq::<JsonValue>::empty(),
        },
{
    match v.get(key) {
        Some(m) => match m.as_array() {
            Some(a) => Some(a),
            None => None,
        },
        None => None,
    }
}

fn relations_array<'a>(p: &'a JsonValue) -> (r: Option<&'a Vec<JsonValue>>)
    ensures
        match r {
            Some(a) => relations_of(*p) == a@,
            None => relations_of(*p) == Seq::<JsonValue>::empty(),
        },
{
    match p.get("raw_relations") {
        Some(m) => match m.as_array() {
            Some(a) => Some(a),
            None => None,
        },
        None => None,
    }
}

fn point_decode_problem(index: usize, p: &JsonValue, Ghost(pre): Ghost<Seq<JsonValue>>) -> (r: Option<String>)
    requires
        pre.len() == index,
    ensures
        crate::graph::types::opt_str(r) == point_decode_check(pre, *p),
{
    let rels = match p.get("raw_relations") {
        None => return None,
        Some(m) => match m.as_array() {
            Some(a) => a,
            None => {
                let mut msg = String::from_str("knowledge_points[");
                push_decimal(&mut msg, index as u64);
                msg.append("].raw_relations: expected an array");
                return Some(msg);
            },
        },
    };
    let ghost check = quote_checker(index as nat);
    assert(point_decode_check(pre, *p) == first_failure(rels@, check));
    for k in 0..rels.len()
        invariant
            check == quote_checker(index as nat),
            pre.len() == index,
            point_decode_check(pre, *p) == first_failure(rels@, check),
            first_failure(rels@.take(k as int), check) is None,
    {
        proof {
            lemma_first_failure_step(rels@, check, k as int);
        }
        let ok = match rels[k].get("source_quote") {
            None => true,
            Some(q) => match q {
                JsonValue::Null => true,
                JsonValue::String(_) => true,
                _ => false,
            },
        };
        if !ok {
            proof {
                lemma_first_failure_prefix(rels@, check, k + 1);
            }
            let mut msg = String::from_str("knowledge_points[");
            push_decimal(&mut msg, index as u64);
            msg.append("].raw_relations[");
            push_decimal(&mut msg, k as u64);
            msg.append("].source_quote: expected a string or null");
            return Some(msg);
        }
    }
    assert(rels@.take(rels@.len() as int) =~= rels@);
    None
}

fn hydrate_relation_exec(r: &JsonValue) -> (out: RelationRef)
    ensures
        out@ == hydrate_relation(*r),
{
    let target = member_string(r, "target_entity_name");
    let rt = member_string(r, "relation_type");
    let relation_type = if str_eq(rt.as_str(), "related_to") {
        RelationType::RelatedTo
    } else if str_eq(rt.as_str(), "contrasts") {
        RelationType::Contrasts
    } else if str_eq(rt.as_str(), "prerequisite") {
        RelationType::Prerequisite
    } else if str_eq(rt.as_str(), "consequence") {
        RelationType::Consequence
    } else if str_eq(rt.as_str(), "example") {
        RelationType::Example
    } else {
        RelationType::CounterExample
    };
    let source_quote = match r.get("source_quote") {
        Some(q) => match q {
            JsonValue::String(s) => Some(s.clone()),
            _ => None,
        },
        None => None,
    };
    RelationRef { target_entity_name: target, relation_type, source_quote }
}

fn hydrate_point_exec(chunk_id: &String, index: usize, p: &JsonValue) -> (out: KnowledgePoint)
    ensures
        out@ == hydrate_point(chunk_id@, index as nat, *p),
{
    let mut id = chunk_id.clone();
    id.append("-kp-");
    push_decimal(&mut id, index as u64);
    let point = member_string(p, "point");
    let kt = member_string(p, "knowledge_type");
    let knowledge_type = if str_eq(kt.as_str(), "definition") {
        KnowledgeType::Definition
    } else if str_eq(kt.as_str(), "fact") {
        KnowledgeType::Fact
    } else if str_eq(kt.as_str(), "procedural") {
        KnowledgeType::Procedural
    } else {
        KnowledgeType::Conceptual
    };
    let mut raw_entity_names: Vec<String> = Vec::new();
    let ghost names_spec = member_items(*p, "raw_entity_names"@).map_values(|w: JsonValue| str_of(w));
    match member_array(p, "raw_entity_names") {
        Some(names) => {
            for j in 0..names.len()
                invariant
                    names_spec == names@.map_values(|w: JsonValue| str_of(w)),
                    strs(raw_entity_names@) == names_spec.take(j as int),
            {
                let ghost prev = raw_entity_names@;
                raw_entity_names.push(string_of(&names[j]));
                assert(strs(raw_entity_names@) =~= strs(prev).push(names_spec[j as int]));
                assert(names_spec.take(j + 1) =~= names_spec.take(j as int).push(names_spec[j as int]));
            }
            assert(names_spec.take(names@.len() as int) =~= names_spec);
        },
        None => {
            assert(strs(raw_entity_names@) =~= names_spec);
        },
    }
    let mut raw_relations: Vec<RelationRef> = Vec::new();
    let ghost rels_spec = relations_of(*p).map_values(|r: JsonValue| hydrate_relation(r));
    match relations_array(p) {
        Some(rels) => {
            for k in 0..rels.len()
                invariant
                    rels_spec == rels@.map_values(|r: JsonValue| hydrate_relation(r)),
                    crate::graph::types::relation_ref_views(raw_relations@) == rels_spec.take(k as int),
            {
                let ghost prev = raw_relations@;
                let rr = hydrate_relation_exec(&rels[k]);
                raw_relations.push(rr);
                assert(crate::graph::types::relation_ref_views(raw_relations@) =~= crate::graph::types::relation_ref_views(prev).push(rr@));
                assert(rels_spec.take(k + 1) =~= rels_spec.take(k as int).push(rels_spec[k as int]));
            }
            assert(rels_spec.take(rels@.len() as int) =~= rels_spec);
        },
        None => {
            assert(crate::graph::types::relation_ref_views(raw_relations@) =~= rels_spec);
        },
    }
    let out = KnowledgePoint {
        id,
        point,
        knowledge_type,
        chunk_id: chunk_id.clone(),
        raw_entity_names,
        entity_ids: Vec::new(),
        raw_relations,
    };
    assert(strs(out.entity_ids@) =~= Seq::<Seq<char>>::empty());
    out
}

fn union_step(keys: &mut Vec<String>, names: &mut Vec<String>, name: &str)
    ensures
        (strs(final(keys)@), strs(final(names)@)) == union_name((strs(old(keys)@), strs(old(names)@)), name@),
{
    let trimmed = trim(name);
    let key = to_lowercase(trimmed.as_str());
    if !contains_str(keys, key.as_str()) {
        let ghost pk = keys@;
        let ghost pn = names@;
        keys.push(key);
        names.push(trimmed);
        assert(strs(keys@) =~= strs(pk).push(name_key(name@)));
        assert(strs(names@) =~= strs(pn).push(trim_seq(name@)));
    }
}

fn union_point_names(keys: &mut Vec<String>, names: &mut Vec<String>, p: &JsonValue)
    ensures
        (strs(final(keys)@), strs(final(names)@)) == union_names((strs(old(keys)@), strs(old(names)@)), used_names(*p)),
{
    let ghost start = (strs(keys@), strs(names@));
    let ghost used = used_names(*p);
    let ghost a = member_items(*p, "raw_entity_names"@).map_values(|w: JsonValue| str_of(w));
    let ghost b = relations_of(*p).map_values(|r: JsonValue| member_str(r, "target_entity_name"@));
    assert(used.take(0) =~= Seq::<Seq<char>>::empty());
    let ghost mut n: int = 0;
    match member_array(p, "raw_entity_names") {
        Some(list) => {
            for j in 0..list.len()
                invariant
                    used == a + b,
                    a == list@.map_values(|w: JsonValue| str_of(w)),
                    n == j,
                    (strs(keys@), strs(names@)) == union_names(start, used.take(n as int)),
            {
                let nm = string_of(&list[j]);
                assert(used.take(n + 1).drop_last() =~= used.take(n as int));
                assert(used.take(n + 1).last() == nm@);
                union_step(keys, names, nm.as_str());
                proof {
                    n = n + 1;
                }
            }
        },
        None => {},
    }
    assert(n == a.len());
    match relations_array(p) {
        Some(rels) => {
            for k in 0..rels.len()
                invariant
                    used == a + b,
                    b == rels@.map_values(|r: JsonValue| member_str(r, "target_entity_name"@)),
                    n == a.len() + k,
                    (strs(keys@), strs(names@)) == union_names(start, used.take(n as int)),
            {
                let t = member_string(&rels[k], "target_entity_name");
                assert(used.take(n + 1).drop_last() =~= used.take(n as int));
                assert(used.take(n + 1).last() == t@);
                union_step(keys, names, t.as_str());
                proof {
                    n = n + 1;
                }
            }
        },
        None => {},
    }
    assert(used.take(n as int) =~= used);
}

/// Whether `r` is the outcome of checking the parsed Stage A value `v` for
/// `chunk_id`: the first content problem (validation), else the first
/// value that does not decode (parse), else the hydrated extraction.
pub open spec fn stage_a_value_outcome(
    v: JsonValue,
    chunk_id: Seq<char>,
    r: Result<ExtractedKnowledge, GraphStageAError>,
) -> bool {
    match r {
        Ok(k) => stage_a_problem(v) is None && first_failure(member_items(v, "knowledge_points"@), decode_checker())
            is None && k@ == hydrated(v, chunk_id),
        Err(GraphStageAError::Validation(e)) => stage_a_problem(v) == Some(e@),
        Err(GraphStageAError::Parse(m)) => stage_a_problem(v) is None && first_failure(
            member_items(v, "knowledge_points"@),
            decode_checker(),
        ) == Some(m@),
    }
}

/// Validates a parsed Stage A value, decodes it, and hydrates it for
/// `chunk_id`.
///
/// Rejections, in order: the first content problem (validation), then the
/// first value that does not decode (parse). Hydration gives point `i` the
/// ID `{chunk_id}-kp-{i}` and the chunk ID, maps type names to enums,
/// leaves `entity_ids` empty, and lists as raw entities the declared names
/// followed by every raw entity name and relation target (trimmed) whose
/// case-insensitive key no earlier name has.
pub fn parse_stage_a_value(value: &JsonValue, chunk_id: String) -> (r: Result<
    ExtractedKnowledge,
    GraphStageAError,
>)
    ensures
        stage_a_value_outcome(*value, chunk_id@, r),
{
    match validate_stage_a_json(value) {
        Ok(()) => {},
        Err(e) => return Err(GraphStageAError::Validation(e)),
    }
    let ghost ps = member_items(*value, "knowledge_points"@);
    let empty_points: Vec<JsonValue> = Vec::new();
    let points = match member_array(value, "knowledge_points") {
        Some(a) => a,
        None => &empty_points,
    };
    assert(points@ == ps);
    let ghost dcheck = decode_checker();
    for idx in 0..points.len()
        invariant
            dcheck == decode_checker(),
            stage_a_problem(*value) is None,
            ps == member_items(*value, "knowledge_points"@),
            points@ == ps,
            first_failure(ps.take(idx as int), dcheck) is None,
    {
        proof {
            lemma_first_failure_step(ps, dcheck, idx as int);
        }
        match point_decode_problem(idx, &points[idx], Ghost(ps.take(idx as int))) {
            Some(m) => {
                proof {
                    lemma_first_failure_prefix(ps, dcheck, idx + 1);
                }
                return Err(GraphStageAError::Parse(m));
            },
            None => {},
        }
    }
    assert(ps.take(points@.len() as int) =~= ps);
    // Names: the declared list, then every used name with an unseen key.
    let mut keys: Vec<String> = Vec::new();
    let mut names: Vec<String> = Vec::new();
    let ghost declared = member_items(*value, "entities"@).map_values(|w: JsonValue| str_of(w));
    let empty_entities: Vec<JsonValue> = Vec::new();
    let entities = match member_array(value, "entities") {
        Some(a) => a,
        None => &empty_entities,
    };
    for i in 0..entities.len()
        invariant
            declared == entities@.map_values(|w: JsonValue| str_of(w)),
            strs(keys@) == declared.take(i as int).map_values(|n: Seq<char>| name_key(n)),
            strs(names@) == declared.take(i as int),
    {
        let nm = string_of(&entities[i]);
        let trimmed = trim(nm.as_str());
        let key = to_lowercase(trimmed.as_str());
        let ghost pk = keys@;
        let ghost pn = names@;
        keys.push(key);
        names.push(nm);
        assert(declared.take(i + 1) =~= declared.take(i as int).push(declared[i as int]));
        assert(strs(keys@) =~= strs(pk).push(name_key(declared[i as int])));
        assert(strs(names@) =~= strs(pn).push(declared[i as int]));
        assert(declared.take(i + 1).map_values(|n: Seq<char>| name_key(n)) =~= declared.take(
            i as int,
        ).map_values(|n: Seq<char>| name_key(n)).push(name_key(declared[i as int])));
    }
    assert(declared.take(entities@.len() as int) =~= declared);
    let ghost start = (strs(keys@), strs(names@));
    assert(ps.take(0) =~= Seq::<JsonValue>::empty());
    for i in 0..points.len()
        invariant
            points@ == ps,
            (strs(keys@), strs(names@)) == union_points(start, ps.take(i as int)),
    {
        assert(ps.take(i + 1).drop_last() =~= ps.take(i as int));
        assert(ps.take(i + 1).last() == ps[i as int]);
        union_point_names(&mut keys, &mut names, &points[i]);
    }
    assert(ps.take(points@.len() as int) =~= ps);
    let ghost all_names = strs(names@);
    assert(all_names == entity_names(*value));
    let mut raw_entities: Vec<RawEntityMention> = Vec::new();
    for i in 0..names.len()
        invariant
            all_names == strs(names@),
            raw_entities@.len() == i,
            forall|k: int| 0 <= k < i ==> (#[trigger] raw_entities@[k])@ == (RawEntityMentionView {
                name: all_names[k],
                chunk_id: chunk_id@,
            }),
    {
        raw_entities.push(RawEntityMention { name: names[i].clone(), chunk_id: chunk_id.clone() });
    }
    let mut knowledge_points: Vec<KnowledgePoint> = Vec::new();
    for i in 0..points.len()
        invariant
            points@ == ps,
            knowledge_points@.len() == i,
            forall|k: int| 0 <= k < i ==> (#[trigger] knowledge_points@[k])@ == hydrate_point(
                chunk_id@,
                k as nat,
                ps[k],
            ),
    {
        let kp = hydrate_point_exec(&chunk_id, i, &points[i]);
        knowledge_points.push(kp);
    }
    let out = ExtractedKnowledge { chunk_id, raw_entities, knowledge_points };
    assert(out@.raw_entities =~= hydrated(*value, out.chunk_id@).raw_entities);
    assert(out@.knowledge_points =~= hydrated(*value, out.chunk_id@).knowledge_points);
    Ok(out)
}


// =====================================================================
// Self-healing entity list
// =====================================================================
/// The union state keeps one key per name, and the keys only grow.
proof fn lemma_union_names(state: (Seq<Seq<char>>, Seq<Seq<char>>), names: Seq<Seq<char>>)
    requires
        state.0 == state.1.map_values(|n: Seq<char>| name_key(n)),
    ensures
        union_names(state, names).0 == union_names(state, names).1.map_values(|n: Seq<char>| name_key(n)),
        forall|x: Seq<char>| state.0.contains(x) ==> #[trigger] union_names(state, names).0.contains(x),
        forall|j: int| 0 <= j < names.len() ==> union_names(state, names).0.contains(name_key(#[trigger] names[j])),
    decreases names.len(),
{
    if names.len() > 0 {
        let init = names.drop_last();
        lemma_union_names(state, init);
        let mid = union_names(state, init);
        let n = names.last();
        if !mid.0.contains(name_key(n)) {
            lemma_trim_idempotent(n);
            assert(mid.1.push(trim_seq(n)).map_values(|m: Seq<char>| name_key(m)) =~= mid.0.push(
                name_key(n),
            ));
        }
        let fin = union_names(state, names);
        assert forall|x: Seq<char>| state.0.contains(x) implies #[trigger] fin.0.contains(x) by {
            assert(mid.0.contains(x));
            if !mid.0.contains(name_key(n)) {
                let k = choose|k: int| 0 <= k < mid.0.len() && mid.0[k] == x;
                assert(fin.0[k] == x);
            }
        }
        assert forall|j: int| 0 <= j < names.len() implies fin.0.contains(name_key(#[trigger] names[j])) by {
            if j < names.len() - 1 {
                assert(init[j] == names[j]);
                assert(mid.0.contains(name_key(init[j])));
                if !mid.0.contains(name_key(n)) {
                    let k = choose|k: int| 0 <= k < mid.0.len() && mid.0[k] == name_key(init[j]);
                    assert(fin.0[k] == name_key(names[j]));
                }
            } else if !mid.0.contains(name_key(n)) {
                assert(fin.0[fin.0.len() - 1] == name_key(n));
            }
        }
    }
}

proof fn lemma_union_points(state: (Seq<Seq<char>>, Seq<Seq<char>>), ps: Seq<JsonValue>)
    requires
        state.0 == state.1.map_values(|n: Seq<char>| name_key(n)),
    ensures
        union_points(state, ps).0 == union_points(state, ps).1.map_values(|n: Seq<char>| name_key(n)),
        forall|i: int, j: int|
            0 <= i < ps.len() && 0 <= j < used_names(ps[i]).len() ==> union_points(state, ps).0.contains(
                name_key(#[trigger] used_names(ps[i])[j]),
            ),
    decreases ps.len(),
{
    if ps.len() > 0 {
        let init = ps.drop_last();
        lemma_union_points(state, init);
        let mid = union_points(state, init);
        lemma_union_names(mid, used_names(ps.last()));
        let fin = union_points(state, ps);
        assert forall|i: int, j: int|
            0 <= i < ps.len() && 0 <= j < used_names(ps[i]).len() implies fin.0.contains(
                name_key(#[trigger] used_names(ps[i])[j]),
            ) by {
            if i < ps.len() - 1 {
                assert(init[i] == ps[i]);
                assert(mid.0.contains(name_key(used_names(init[i])[j])));
            } else {
                assert(ps[i] == ps.last());
            }
        }
    }
}

/// After hydration every name a point uses, raw entity name or relation
/// target, matches (case-insensitively, ignoring surrounding white space)
/// some raw entity of the chunk, so no point loses an entity it names.
pub proof fn lemma_used_names_are_entities(v: JsonValue, chunk_id: Seq<char>)
    ensures
        forall|i: int, j: int|
            0 <= i < member_items(v, "knowledge_points"@).len() && 0 <= j < used_names(
                member_items(v, "knowledge_points"@)[i],
            ).len() ==> hydrated(v, chunk_id).raw_entities.map_values(
                |m: RawEntityMentionView| name_key(m.name),
            ).contains(name_key(#[trigger] used_names(member_items(v, "knowledge_points"@)[i])[j])),
{
    let declared = member_items(v, "entities"@).map_values(|w: JsonValue| str_of(w));
    let start = (declared.map_values(|n: Seq<char>| name_key(n)), declared);
    let ps = member_items(v, "knowledge_points"@);
    lemma_union_points(start, ps);
    let fin = union_points(start, ps);
    let ents = hydrated(v, chunk_id).raw_entities;
    assert(ents.map_values(|m: RawEntityMentionView| name_key(m.name)) =~= fin.0);
}

/// Parses the model's Stage A reply and checks it: text that is not one
/// JSON document is rejected as a parse error carrying serde_json's
/// message; a document is validated, decoded and hydrated as
/// `parse_stage_a_value` does.
pub fn parse_stage_a_output(json_payload: &str, chunk_id: String) -> (r: Result<ExtractedKnowledge, GraphStageAError>)
    ensures
        match parsed_json(json_payload@) {
            None => r matches Err(GraphStageAError::Parse(_)),
            Some(v) => stage_a_value_outcome(v, chunk_id@, r),
        },
{
    match parse_json_text(json_payload) {
        Ok(value) => parse_stage_a_value(&value, chunk_id),
        Err(message) => Err(GraphStageAError::Parse(message)),
    }
}

// =====================================================================
// The schema handed to the provider
// =====================================================================

/// The knowledge-type names, in schema order.
pub open spec fn knowledge_type_names() -> Seq<Seq<char>> {
    seq!["definition"@, "fact"@, "procedural"@, "conceptual"@]
}

/// The relation-type names, in schema order.
pub open spec fn relation_type_names() -> Seq<Seq<char>> {
    seq!["related_to"@, "contrasts"@, "prerequisite"@, "consequence"@, "example"@, "counter_example"@]
}

/// The schema lists exactly the knowledge types that validation accepts.
pub proof fn lemma_knowledge_type_names(s: Seq<char>)
    ensures
        knowledge_type_names().contains(s) <==> valid_knowledge_type(s),
{
    if valid_knowledge_type(s) {
        let k = if s == "definition"@ { 0int } else if s == "fact"@ { 1int } else if s == "procedural"@ { 2int } else { 3int };
        assert(knowledge_type_names()[k] == s);
    }
}

/// The schema lists exactly the relation types that validation accepts.
pub proof fn lemma_relation_type_names(s: Seq<char>)
    ensures
        relation_type_names().contains(s) <==> valid_relation_type(s),
{
    if valid_relation_type(s) {
        let k = if s == "related_to"@ {
            0int
        } else if s == "contrasts"@ {
            1int
        } else if s == "prerequisite"@ {
            2int
        } else if s == "consequence"@ {
            3int
        } else if s == "example"@ {
            4int
        } else {
            5int
        };
        assert(relation_type_names()[k] == s);
    }
}

/// `{"type": t, "description": d}`.
pub open spec fn described_doc(t: Seq<char>, d: Seq<char>) -> JsonDoc {
    JsonDoc::Object(seq![("type"@, JsonDoc::Text(t)), ("description"@, JsonDoc::Text(d))])
}

/// `{"type": "array", "items": {"type": "string"}, "description": d}`.
pub open spec fn string_list_doc(d: Seq<char>) -> JsonDoc {
    JsonDoc::Object(
        seq![
            ("type"@, JsonDoc::Text("array"@)),
            ("items"@, JsonDoc::Object(seq![("type"@, JsonDoc::Text("string"@))])),
            ("description"@, JsonDoc::Text(d)),
        ],
    )
}

/// `{"type": "string", "enum": names, "description": d}`.
pub open spec fn enumerated_doc(names: Seq<Seq<char>>, d: Seq<char>) -> JsonDoc {
    JsonDoc::Object(
        seq![("type"@, JsonDoc::Text("string"@)), ("enum"@, text_list(names)), ("description"@, JsonDoc::Text(d))],
    )
}

/// The schema of one relation reference, member for member.
pub open spec fn relation_item_doc() -> JsonDoc {
    JsonDoc::Object(
        seq![
            ("type"@, JsonDoc::Text("object"@)),
            (
                "properties"@,
                JsonDoc::Object(
                    seq![
                        ("target_entity_name"@, described_doc("string"@, "Entity this point relates to"@)),
                        ("relation_type"@, enumerated_doc(relation_type_names(), "Type of relationship"@)),
                        (
                            "source_quote"@,
                            JsonDoc::Object(
                                seq![
                                    ("type"@, text_list(seq!["string"@, "null"@])),
                                    ("description"@, JsonDoc::Text("Optional text span supporting this relation"@)),
                                ],
                            ),
                        ),
                    ],
                ),
            ),
            ("required"@, text_list(seq!["target_entity_name"@, "relation_type"@])),
        ],
    )
}

/// The schema of one knowledge point, member for member.
pub open spec fn knowledge_point_doc() -> JsonDoc {
    JsonDoc::Object(
        seq![
            ("type"@, JsonDoc::Text("object"@)),
            (
                "properties"@,
                JsonDoc::Object(
                    seq![
                        ("point"@, described_doc("string"@, "A testable proposition or claim"@)),
                        ("knowledge_type"@, enumerated_doc(knowledge_type_names(), "Category of this knowledge point"@)),
                        ("raw_entity_names"@, string_list_doc("All entities this point is about (must be non-empty)"@)),
                        (
                            "raw_relations"@,
                            JsonDoc::Object(
                                seq![
                                    ("type"@, JsonDoc::Text("array"@)),
                                    ("items"@, relation_item_doc()),
                                    ("description"@, JsonDoc::Text("Relations to other entities"@)),
                                ],
                            ),
                        ),
                    ],
                ),
            ),
            ("required"@, text_list(seq!["point"@, "knowledge_type"@, "raw_entity_names"@, "raw_relations"@])),
        ],
    )
}

/// The Stage A output schema, member for member.
pub open spec fn stage_a_format_doc() -> JsonDoc {
    JsonDoc::Object(
        seq![
            ("type"@, JsonDoc::Text("object"@)),
            (
                "properties"@,
                JsonDoc::Object(
                    seq![
                        ("entities"@, string_list_doc("All entities mentioned in this chunk"@)),
                        (
                            "knowledge_points"@,
                            JsonDoc::Object(
                                seq![("type"@, JsonDoc::Text("array"@)), ("items"@, knowledge_point_doc())],
                            ),
                        ),
                    ],
                ),
            ),
            ("required"@, text_list(seq!["entities"@, "knowledge_points"@])),
        ],
    )
}

fn described(t: &str, d: &str) -> (r: JsonValue)
    ensures
        is_text(child(Some(r), "type"@), t@),
        r@ == described_doc(t@, d@),
{
    let mut fields: Vec<(String, JsonValue)> = Vec::new();
    push_member(&mut fields, "type", text(t));
    push_member(&mut fields, "description", text(d));
    assert(member_docs(fields@) =~~= seq![("type"@, JsonDoc::Text(t@)), ("description"@, JsonDoc::Text(d@))]);
    JsonValue::Object(fields)
}

fn string_list(d: &str) -> (r: JsonValue)
    ensures
        is_text(child(Some(r), "type"@), "array"@),
        r@ == string_list_doc(d@),
{
    let mut item: Vec<(String, JsonValue)> = Vec::new();
    push_member(&mut item, "type", text("string"));
    assert(member_docs(item@) =~~= seq![("type"@, JsonDoc::Text("string"@))]);
    let ghost item_doc = json_view(JsonValue::Object(item));
    let mut fields: Vec<(String, JsonValue)> = Vec::new();
    push_member(&mut fields, "type", text("array"));
    push_member(&mut fields, "items", JsonValue::Object(item));
    push_member(&mut fields, "description", text(d));
    assert(member_docs(fields@) =~~= seq![
        ("type"@, JsonDoc::Text("array"@)),
        ("items"@, item_doc),
        ("description"@, JsonDoc::Text(d@)),
    ]);
    JsonValue::Object(fields)
}

fn enumerated(names: &[&str], d: &str) -> (r: JsonValue)
    ensures
        is_text(child(Some(r), "type"@), "string"@),
        texts_of(child(Some(r), "enum"@)) == Some(names@.map_values(|n: &str| n@)),
        r@ == enumerated_doc(names@.map_values(|n: &str| n@), d@),
{
    proof {
        reveal_strlit("type");
        reveal_strlit("enum");
        assert("enum"@[0] != "type"@[0]);
    }
    let mut fields: Vec<(String, JsonValue)> = Vec::new();
    push_member(&mut fields, "type", text("string"));
    push_member(&mut fields, "enum", texts(names));
    push_member(&mut fields, "description", text(d));
    assert(member_docs(fields@) =~~= seq![
        ("type"@, JsonDoc::Text("string"@)),
        ("enum"@, text_list(names@.map_values(|n: &str| n@))),
        ("description"@, JsonDoc::Text(d@)),
    ]);
    JsonValue::Object(fields)
}

/// The schema of one relation reference.
fn relation_item_schema() -> (r: JsonValue)
    ensures
        is_text(child(Some(r), "type"@), "object"@),
        texts_of(child(Some(r), "required"@)) == Some(seq!["target_entity_name"@, "relation_type"@]),
        texts_of(child(child(child(Some(r), "properties"@), "relation_type"@), "enum"@)) == Some(
            relation_type_names(),
        ),
        r@ == relation_item_doc(),
{
    proof {
        reveal_strlit("type");
        reveal_strlit("properties");
        reveal_strlit("required");
        reveal_strlit("target_entity_name");
        reveal_strlit("relation_type");
        reveal_strlit("enum");
        assert("enum"@[0] != "type"@[0]);
        assert("properties"@[0] != "type"@[0]);
        assert("required"@[0] != "type"@[0] && "required"@[0] != "properties"@[0]);
        assert("relation_type"@[0] != "target_entity_name"@[0]);
    }
    let target = described("string", "Entity this point relates to");
    let kinds = enumerated(
        &["related_to", "contrasts", "prerequisite", "consequence", "example", "counter_example"],
        "Type of relationship",
    );
    assert(texts_of(child(Some(kinds), "enum"@)) == Some(relation_type_names()));
    let ghost kinds_doc = kinds@;
    assert(kinds_doc == enumerated_doc(relation_type_names(), "Type of relationship"@));
    let mut props: Vec<(String, JsonValue)> = Vec::new();
    push_member(&mut props, "target_entity_name", target);
    push_member(&mut props, "relation_type", kinds);
    let either = texts(&["string", "null"]);
    assert(texts_of(Some(either)) == Some(seq!["string"@, "null"@]));
    let mut quote: Vec<(String, JsonValue)> = Vec::new();
    push_member(&mut quote, "type", either);
    push_member(&mut quote, "description", text("Optional text span supporting this relation"));
    assert(member_docs(quote@) =~~= seq![
        ("type"@, text_list(seq!["string"@, "null"@])),
        ("description"@, JsonDoc::Text("Optional text span supporting this relation"@)),
    ]);
    let ghost quote_doc = json_view(JsonValue::Object(quote));
    push_member(&mut props, "source_quote", JsonValue::Object(quote));
    assert(member_docs(props@) =~~= seq![
        ("target_entity_name"@, described_doc("string"@, "Entity this point relates to"@)),
        ("relation_type"@, kinds_doc),
        ("source_quote"@, quote_doc),
    ]);
    let ghost props_doc = json_view(JsonValue::Object(props));
    let required = texts(&["target_entity_name", "relation_type"]);
    assert(texts_of(Some(required)) == Some(seq!["target_entity_name"@, "relation_type"@]));
    let mut fields: Vec<(String, JsonValue)> = Vec::new();
    push_member(&mut fields, "type", text("object"));
    push_member(&mut fields, "properties", JsonValue::Object(props));
    push_member(&mut fields, "required", required);
    assert(member_docs(fields@) =~~= seq![
        ("type"@, JsonDoc::Text("object"@)),
        ("properties"@, props_doc),
        ("required"@, text_list(seq!["target_entity_name"@, "relation_type"@])),
    ]);
    JsonValue::Object(fields)
}

/// The schema of one knowledge point.
fn knowledge_point_schema() -> (r: JsonValue)
    ensures
        is_text(child(Some(r), "type"@), "object"@),
        texts_of(child(Some(r), "required"@)) == Some(
            seq!["point"@, "knowledge_type"@, "raw_entity_names"@, "raw_relations"@],
        ),
        texts_of(child(child(child(Some(r), "properties"@), "knowledge_type"@), "enum"@)) == Some(
            knowledge_type_names(),
        ),
        is_text(child(child(child(Some(r), "properties"@), "raw_relations"@), "type"@), "array"@),
        is_text(
            child(child(child(child(Some(r), "properties"@), "raw_relations"@), "items"@), "type"@),
            "object"@,
        ),
        texts_of(child(child(child(child(Some(r), "properties"@), "raw_relations"@), "items"@), "required"@))
            == Some(seq!["target_entity_name"@, "relation_type"@]),
        texts_of(
            child(
                child(child(child(child(child(Some(r), "properties"@), "raw_relations"@), "items"@), "properties"@), "relation_type"@),
                "enum"@,
            ),
        ) == Some(relation_type_names()),
        r@ == knowledge_point_doc(),
{
    proof {
        reveal_strlit("type");
        reveal_strlit("items");
        reveal_strlit("properties");
        reveal_strlit("required");
        reveal_strlit("point");
        reveal_strlit("knowledge_type");
        reveal_strlit("raw_entity_names");
        reveal_strlit("raw_relations");
        reveal_strlit("enum");
        assert("enum"@[0] != "type"@[0]);
        assert("items"@[0] != "type"@[0]);
        assert("properties"@[0] != "type"@[0]);
        assert("required"@[0] != "type"@[0] && "required"@[0] != "properties"@[0]);
        assert("knowledge_type"@[0] != "point"@[0]);
        assert("raw_relations"@[0] != "point"@[0] && "raw_relations"@[0] != "knowledge_type"@[0]);
        assert("raw_relations"@[4] != "raw_entity_names"@[4]);
    }
    let mut relations: Vec<(String, JsonValue)> = Vec::new();
    push_member(&mut relations, "type", text("array"));
    push_member(&mut relations, "items", relation_item_schema());
    push_member(&mut relations, "description", text("Relations to other entities"));
    assert(member_docs(relations@) =~~= seq![
        ("type"@, JsonDoc::Text("array"@)),
        ("items"@, relation_item_doc()),
        ("description"@, JsonDoc::Text("Relations to other entities"@)),
    ]);
    let ghost relations_doc = json_view(JsonValue::Object(relations));
    let kinds = enumerated(&["definition", "fact", "procedural", "conceptual"], "Category of this knowledge point");
    assert(texts_of(child(Some(kinds), "enum"@)) == Some(knowledge_type_names()));
    let ghost kinds_doc = kinds@;
    assert(kinds_doc == enumerated_doc(knowledge_type_names(), "Category of this knowledge point"@));
    let mut props: Vec<(String, JsonValue)> = Vec::new();
    push_member(&mut props, "point", described("string", "A testable proposition or claim"));
    push_member(&mut props, "knowledge_type", kinds);
    push_member(
        &mut props,
        "raw_entity_names",
        string_list("All entities this point is about (must be non-empty)"),
    );
    push_member(&mut props, "raw_relations", JsonValue::Object(relations));
    assert(member_docs(props@) =~~= seq![
        ("point"@, described_doc("string"@, "A testable proposition or claim"@)),
        ("knowledge_type"@, kinds_doc),
        ("raw_entity_names"@, string_list_doc("All entities this point is about (must be non-empty)"@)),
        ("raw_relations"@, relations_doc),
    ]);
    let ghost props_doc = json_view(JsonValue::Object(props));
    let required = texts(&["point", "knowledge_type", "raw_entity_names", "raw_relations"]);
    assert(texts_of(Some(required)) == Some(seq!["point"@, "knowledge_type"@, "raw_entity_names"@, "raw_relations"@]));
    let mut fields: Vec<(String, JsonValue)> = Vec::new();
    push_member(&mut fields, "type", text("object"));
    push_member(&mut fields, "properties", JsonValue::Object(props));
    push_member(&mut fields, "required", required);
    assert(member_docs(fields@) =~~= seq![
        ("type"@, JsonDoc::Text("object"@)),
        ("properties"@, props_doc),
        ("required"@, text_list(seq!["point"@, "knowledge_type"@, "raw_entity_names"@, "raw_relations"@])),
    ]);
    JsonValue::Object(fields)
}

/// The JSON schema of Stage A output handed to the provider: an object with
/// the chunk's `entities` (strings) and its `knowledge_points`, each with a
/// point, a knowledge type among the four that validation accepts, its
/// entity names and its relations, each relation typed among the six that
/// validation accepts. The whole document, descriptions included, is
/// `stage_a_format_doc`.
pub fn stage_a_format_schema() -> (r: JsonValue)
    ensures
        r@ == stage_a_format_doc(),
        is_text(child(Some(r), "type"@), "object"@),
        texts_of(child(Some(r), "required"@)) == Some(seq!["entities"@, "knowledge_points"@]),
        is_text(child(child(child(Some(r), "properties"@), "entities"@), "type"@), "array"@),
        is_text(child(child(child(Some(r), "properties"@), "knowledge_points"@), "type"@), "array"@),
        is_text(child(child(child(child(Some(r), "properties"@), "knowledge_points"@), "items"@), "type"@), "object"@),
        texts_of(child(child(child(child(Some(r), "properties"@), "knowledge_points"@), "items"@), "required"@))
            == Some(seq!["point"@, "knowledge_type"@, "raw_entity_names"@, "raw_relations"@]),
        texts_of(
            child(
                child(child(child(child(child(Some(r), "properties"@), "knowledge_points"@), "items"@), "properties"@), "knowledge_type"@),
                "enum"@,
            ),
        ) == Some(knowledge_type_names()),
        texts_of(
            child(
                child(
                    child(
                        child(
                            child(child(child(child(child(Some(r), "properties"@), "knowledge_points"@), "items"@), "properties"@), "raw_relations"@),
                            "items"@,
                        ),
                        "properties"@,
                    ),
                    "relation_type"@,
                ),
                "enum"@,
            ),
        ) == Some(relation_type_names()),
{
    proof {
        reveal_strlit("type");
        reveal_strlit("items");
        reveal_strlit("properties");
        reveal_strlit("required");
        reveal_strlit("entities");
        reveal_strlit("knowledge_points");
        assert("items"@[0] != "type"@[0]);
        assert("properties"@[0] != "type"@[0]);
        assert("required"@[0] != "type"@[0] && "required"@[0] != "properties"@[0]);
        assert("knowledge_points"@[0] != "entities"@[0]);
    }
    let mut points: Vec<(String, JsonValue)> = Vec::new();
    push_member(&mut points, "type", text("array"));
    push_member(&mut points, "items", knowledge_point_schema());
    assert(member_docs(points@) =~~= seq![("type"@, JsonDoc::Text("array"@)), ("items"@, knowledge_point_doc())]);
    let ghost points_doc = json_view(JsonValue::Object(points));
    let mut props: Vec<(String, JsonValue)> = Vec::new();
    push_member(&mut props, "entities", string_list("All entities mentioned in this chunk"));
    push_member(&mut props, "knowledge_points", JsonValue::Object(points));
    assert(member_docs(props@) =~~= seq![
        ("entities"@, string_list_doc("All entities mentioned in this chunk"@)),
        ("knowledge_points"@, points_doc),
    ]);
    let ghost props_doc = json_view(JsonValue::Object(props));
    let required = texts(&["entities", "knowledge_points"]);
    assert(texts_of(Some(required)) == Some(seq!["entities"@, "knowledge_points"@]));
    let mut fields: Vec<(String, JsonValue)> = Vec::new();
    push_member(&mut fields, "type", text("object"));
    push_member(&mut fields, "properties", JsonValue::Object(props));
    push_member(&mut fields, "required", required);
    assert(member_docs(fields@) =~~= seq![
        ("type"@, JsonDoc::Text("object"@)),
        ("properties"@, props_doc),
        ("required"@, text_list(seq!["entities"@, "knowledge_points"@])),
    ]);
    JsonValue::Object(fields)
}

// =====================================================================
// Laws on type names
// =====================================================================
/// The relation types in declaration order.
pub open spec fn relation_types_in_order() -> Seq<RelationType> {
    seq![
        RelationType::RelatedTo,
        RelationType::Contrasts,
        RelationType::Prerequisite,
        RelationType::Consequence,
        RelationType::Example,
        RelationType::CounterExample,
    ]
}

/// The knowledge types in declaration order.
pub open spec fn knowledge_types_in_order() -> Seq<KnowledgeType> {
    seq![KnowledgeType::Definition, KnowledgeType::Fact, KnowledgeType::Procedural, KnowledgeType::Conceptual]
}

/// The `i`-th relation-type wire name (`related_to`, `contrasts`,
/// `prerequisite`, `consequence`, `example`, `counter_example`) decodes to
/// the `i`-th relation type, so distinct accepted names decode to distinct
/// types and every type has its name.
pub proof fn lemma_relation_type_names_decode()
    ensures
        relation_type_names().len() == 6,
        forall|i: int| 0 <= i < 6 ==> relation_type_of(#[trigger] relation_type_names()[i]) == relation_types_in_order()[i],
        forall|a: Seq<char>, b: Seq<char>|
            valid_relation_type(a) && valid_relation_type(b) && #[trigger] relation_type_of(a) == #[trigger] relation_type_of(b)
                ==> a == b,
{
    reveal_strlit("related_to");
    reveal_strlit("contrasts");
    reveal_strlit("prerequisite");
    reveal_strlit("consequence");
    reveal_strlit("example");
    reveal_strlit("counter_example");
    assert("contrasts"@[0] != "related_to"@[0]);
    assert("prerequisite"@[0] != "related_to"@[0] && "prerequisite"@[0] != "contrasts"@[0]);
    assert("consequence"@[0] != "related_to"@[0] && "consequence"@[0] != "prerequisite"@[0]);
    assert("consequence"@[3] != "contrasts"@[3]);
    assert("example"@[0] != "related_to"@[0] && "example"@[0] != "contrasts"@[0] && "example"@[0]
        != "prerequisite"@[0] && "example"@[0] != "consequence"@[0]);
    assert("counter_example"@[0] != "related_to"@[0] && "counter_example"@[0] != "prerequisite"@[0]
        && "counter_example"@[0] != "example"@[0]);
    assert("counter_example"@[2] != "contrasts"@[2] && "counter_example"@[2] != "consequence"@[2]);
}

/// The `i`-th knowledge-type wire name (`definition`, `fact`, `procedural`,
/// `conceptual`) decodes to the `i`-th knowledge type, so distinct accepted
/// names decode to distinct types.
pub proof fn lemma_knowledge_type_names_decode()
    ensures
        knowledge_type_names().len() == 4,
        forall|i: int| 0 <= i < 4 ==> knowledge_type_of(#[trigger] knowledge_type_names()[i]) == knowledge_types_in_order()[i],
        forall|a: Seq<char>, b: Seq<char>|
            valid_knowledge_type(a) && valid_knowledge_type(b) && #[trigger] knowledge_type_of(a) == #[trigger] knowledge_type_of(b)
                ==> a == b,
{
    reveal_strlit("definition");
    reveal_strlit("fact");
    reveal_strlit("procedural");
    reveal_strlit("conceptual");
    assert("fact"@[0] != "definition"@[0]);
    assert("procedural"@[0] != "definition"@[0] && "procedural"@[0] != "fact"@[0]);
    assert("conceptual"@[0] != "definition"@[0] && "conceptual"@[0] != "fact"@[0] && "conceptual"@[0]
        != "procedural"@[0]);
}

} // verus!
