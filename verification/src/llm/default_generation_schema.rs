//! Stage A key-point output: its decoded form, its schema errors, and its
//! validation.
use vstd::prelude::*;

use crate::json::{
    count, count_doc, get_member, item_docs, json_view, member_docs, parse_json_text, parsed_json,
    push_member, text, text_list, texts, texts_of, JsonDoc, JsonValue,
};
use crate::text::{decimal, is_blank, push_decimal, trim_seq};

verus! {

/// A decoding or validation failure of model output.
#[derive(Debug)]
pub enum LlmSchemaError {
    /// The payload does not have the expected JSON shape.
    Parse(String),
    /// The payload decoded but broke a content rule.
    Validation(LlmValidationError),
}

/// A content rule that decoded model output broke.
#[derive(Debug, Clone, Copy)]
pub enum LlmValidationError {
    EmptyKnowledgePoint { index: usize },
    InvalidGeneratedItems { reason: &'static str },
}

/// The text of a validation error.
pub open spec fn validation_error_text(e: LlmValidationError) -> Seq<char> {
    match e {
        LlmValidationError::EmptyKnowledgePoint { index } => "knowledge_point at index "@ + decimal(
            index as nat,
        ) + " must be non-empty"@,
        LlmValidationError::InvalidGeneratedItems { reason } => "generated learning items failed validation: "@
            + reason@,
    }
}

/// The text of a schema error.
pub open spec fn schema_error_text(e: LlmSchemaError) -> Seq<char> {
    match e {
        LlmSchemaError::Parse(detail) => "Invalid LLM JSON payload: "@ + detail@,
        LlmSchemaError::Validation(v) => "LLM JSON validation failed: "@ + validation_error_text(v),
    }
}

impl LlmValidationError {
    /// The description of the broken rule.
    pub fn to_string(&self) -> (r: String)
        ensures
            r@ == validation_error_text(*self),
    {
        match self {
            LlmValidationError::EmptyKnowledgePoint { index } => {
                let mut out = String::from_str("knowledge_point at index ");
                push_decimal(&mut out, *index as u64);
                out.append(" must be non-empty");
                out
            },
            LlmValidationError::InvalidGeneratedItems { reason } => {
                let mut out = String::from_str("generated learning items failed validation: ");
                out.append(reason);
                out
            },
        }
    }
}

impl LlmSchemaError {
    /// The description of the failure.
    pub fn to_string(&self) -> (r: String)
        ensures
            r@ == schema_error_text(*self),
    {
        match self {
            LlmSchemaError::Parse(detail) => {
                let mut out = String::from_str("Invalid LLM JSON payload: ");
                out.append(detail.as_str());
                out
            },
            LlmSchemaError::Validation(v) => {
                let mut out = String::from_str("LLM JSON validation failed: ");
                let text = v.to_string();
                out.append(text.as_str());
                out
            },
        }
    }
}

// =====================================================================
// Stage A output
// =====================================================================
/// One extracted key point.
#[derive(Debug, Clone)]
pub struct StageAKeyPoint {
    pub knowledge_point: String,
}

/// Stage A output: `{ "key_points": [ { "knowledge_point": "..." } ] }`.
#[derive(Debug, Clone)]
pub struct StageAKeyPointsOutput {
    pub key_points: Vec<StageAKeyPoint>,
}

impl View for StageAKeyPointsOutput {
    type V = Seq<Seq<char>>;

    /// The key point texts, in order.
    open spec fn view(&self) -> Seq<Seq<char>> {
        self.key_points@.map_values(|k: StageAKeyPoint| k.knowledge_point@)
    }
}

/// A schema error as plain values.
pub enum SchemaErrorView {
    Parse(Seq<char>),
    Validation(LlmValidationError),
}

impl View for LlmSchemaError {
    type V = SchemaErrorView;

    open spec fn view(&self) -> SchemaErrorView {
        match self {
            LlmSchemaError::Parse(d) => SchemaErrorView::Parse(d@),
            LlmSchemaError::Validation(v) => SchemaErrorView::Validation(*v),
        }
    }
}

/// The knowledge point text of one decoded item.
pub open spec fn item_point(item: JsonValue) -> Option<Seq<char>> {
    match get_member(item, "knowledge_point"@) {
        Some(JsonValue::String(t)) => Some(t@),
        _ => None,
    }
}

/// The decoding error of item `i`.
pub open spec fn item_error(i: nat) -> Seq<char> {
    "key_points["@ + decimal(i) + "].knowledge_point: expected a string"@
}

/// The texts of all items, or the error of the first item without one.
pub open spec fn decode_items(items: Seq<JsonValue>) -> Result<Seq<Seq<char>>, Seq<char>>
    decreases items.len(),
{
    if items.len() == 0 {
        Ok(Seq::empty())
    } else {
        match decode_items(items.drop_last()) {
            Err(e) => Err(e),
            Ok(ps) => match item_point(items.last()) {
                Some(t) => Ok(ps.push(t)),
                None => Err(item_error((items.len() - 1) as nat)),
            },
        }
    }
}

/// The key point texts of a Stage A payload, or why its shape is wrong.
pub open spec fn decode_key_points(v: JsonValue) -> Result<Seq<Seq<char>>, Seq<char>> {
    match v {
        JsonValue::Object(_) => match get_member(v, "key_points"@) {
            Some(JsonValue::Array(items)) => decode_items(items@),
            Some(_) => Err("key_points: expected an array"@),
            None => Err("missing field `key_points`"@),
        },
        _ => Err("expected an object with a key_points array"@),
    }
}

/// The first blank key point, if any.
pub open spec fn first_blank(points: Seq<Seq<char>>) -> Option<nat>
    decreases points.len(),
{
    if points.len() == 0 {
        None
    } else {
        match first_blank(points.drop_last()) {
            Some(i) => Some(i),
            None => if trim_seq(points.last()).len() == 0 {
                Some((points.len() - 1) as nat)
            } else {
                None
            },
        }
    }
}

/// The result of parsing a Stage A payload: its key points when the shape
/// is right and none is blank.
pub open spec fn stage_a_output(v: JsonValue) -> Result<Seq<Seq<char>>, SchemaErrorView> {
    match decode_key_points(v) {
        Err(e) => Err(SchemaErrorView::Parse(e)),
        Ok(points) => match first_blank(points) {
            Some(i) => Err(SchemaErrorView::Validation(LlmValidationError::EmptyKnowledgePoint { index: i as usize })),
            None => Ok(points),
        },
    }
}

/// Checks that no key point is blank.
pub fn validate_stage_a_output(parsed: &StageAKeyPointsOutput) -> (r: Result<(), LlmSchemaError>)
    ensures
        match r {
            Ok(()) => first_blank(parsed@) is None,
            Err(e) => first_blank(parsed@) is Some && e@ == SchemaErrorView::Validation(
                LlmValidationError::EmptyKnowledgePoint { index: first_blank(parsed@)->0 as usize },
            ),
        },
{
    let ghost ps = parsed@;
    for index in 0..parsed.key_points.len()
        invariant
            ps == parsed@,
            ps.len() == parsed.key_points@.len(),
            first_blank(ps.take(index as int)) is None,
    {
        assert(ps.take(index + 1).drop_last() =~= ps.take(index as int));
        assert(ps[index as int] == parsed.key_points@[index as int].knowledge_point@);
        if is_blank(parsed.key_points[index].knowledge_point.as_str()) {
            proof {
                assert(first_blank(ps.take(index + 1)) == Some(index as nat));
                lemma_first_blank_prefix(ps, index + 1);
            }
            return Err(LlmSchemaError::Validation(LlmValidationError::EmptyKnowledgePoint { index }));
        }
    }
    assert(ps.take(ps.len() as int) =~= ps);
    Ok(())
}

proof fn lemma_first_blank_prefix(ps: Seq<Seq<char>>, k: int)
    requires
        0 <= k <= ps.len(),
        first_blank(ps.take(k)) is Some,
    ensures
        first_blank(ps) == first_blank(ps.take(k)),
    decreases ps.len() - k,
{
    if k < ps.len() {
        assert(ps.take(k + 1).drop_last() =~= ps.take(k));
        lemma_first_blank_prefix(ps, k + 1);
    } else {
        assert(ps.take(k) =~= ps);
    }
}

proof fn lemma_decode_items_prefix(items: Seq<JsonValue>, k: int)
    requires
        0 <= k <= items.len(),
        decode_items(items.take(k)) is Err,
    ensures
        decode_items(items) == decode_items(items.take(k)),
    decreases items.len() - k,
{
    if k < items.len() {
        assert(items.take(k + 1).drop_last() =~= items.take(k));
        lemma_decode_items_prefix(items, k + 1);
    } else {
        assert(items.take(k) =~= items);
    }
}

/// Decodes the items of the `key_points` array.
fn decode_key_point_items(items: &Vec<JsonValue>) -> (r: Result<StageAKeyPointsOutput, String>)
    ensures
        match r {
            Ok(out) => decode_items(items@) == Ok::<Seq<Seq<char>>, Seq<char>>(out@),
            Err(e) => decode_items(items@) == Err::<Seq<Seq<char>>, Seq<char>>(e@),
        },
{
    let mut out = StageAKeyPointsOutput { key_points: Vec::new() };
    assert(out@ =~= Seq::<Seq<char>>::empty());
    for i in 0..items.len()
        invariant
            decode_items(items@.take(i as int)) == Ok::<Seq<Seq<char>>, Seq<char>>(out@),
    {
        assert(items@.take(i + 1).drop_last() =~= items@.take(i as int));
        assert(items@.take(i + 1).last() == items@[i as int]);
        let point = match items[i].get("knowledge_point") {
            Some(v) => v.as_str(),
            None => None,
        };
        match point {
            Some(t) => {
                let ghost before = out@;
                out.key_points.push(StageAKeyPoint { knowledge_point: String::from_str(t) });
                assert(out@ =~= before.push(t@));
            },
            None => {
                let mut msg = String::from_str("key_points[");
                push_decimal(&mut msg, i as u64);
                msg.append("].knowledge_point: expected a string");
                proof {
                    assert(decode_items(items@.take(i + 1)) == Err::<Seq<Seq<char>>, Seq<char>>(msg@));
                    lemma_decode_items_prefix(items@, i + 1);
                }
                return Err(msg);
            },
        }
    }
    assert(items@.take(items@.len() as int) =~= items@);
    Ok(out)
}

/// Decodes a parsed Stage A document and checks that no key point is blank.
pub fn parse_stage_a_value(value: &JsonValue) -> (r: Result<StageAKeyPointsOutput, LlmSchemaError>)
    ensures
        match r {
            Ok(out) => stage_a_output(*value) == Ok::<Seq<Seq<char>>, SchemaErrorView>(out@),
            Err(e) => stage_a_output(*value) == Err::<Seq<Seq<char>>, SchemaErrorView>(e@),
        },
{
    let parsed = match value {
        JsonValue::Object(_) => match value.get("key_points") {
            Some(v) => match v.as_array() {
                Some(items) => match decode_key_point_items(items) {
                    Ok(out) => out,
                    Err(e) => {
                        return Err(LlmSchemaError::Parse(e));
                    },
                },
                None => {
                    return Err(LlmSchemaError::Parse(String::from_str("key_points: expected an array")));
                },
            },
            None => {
                return Err(LlmSchemaError::Parse(String::from_str("missing field `key_points`")));
            },
        },
        _ => {
            return Err(
                LlmSchemaError::Parse(String::from_str("expected an object with a key_points array")),
            );
        },
    };
    match validate_stage_a_output(&parsed) {
        Ok(()) => Ok(parsed),
        Err(e) => Err(e),
    }
}

/// Parses Stage A model output text and checks that no key point is blank.
///
/// Text that is not a JSON document is a parse error carrying the parser's
/// message; a document is decoded and checked as `parse_stage_a_value`
/// does.
pub fn parse_stage_a_output(json_payload: &str) -> (r: Result<StageAKeyPointsOutput, LlmSchemaError>)
    ensures
        match parsed_json(json_payload@) {
            None => r matches Err(LlmSchemaError::Parse(_)),
            Some(v) => match r {
                Ok(out) => stage_a_output(v) == Ok::<Seq<Seq<char>>, SchemaErrorView>(out@),
                Err(e) => stage_a_output(v) == Err::<Seq<Seq<char>>, SchemaErrorView>(e@),
            },
        },
{
    match parse_json_text(json_payload) {
        Ok(value) => parse_stage_a_value(&value),
        Err(message) => Err(LlmSchemaError::Parse(message)),
    }
}

/// `{"type": t}`.
pub open spec fn type_doc(t: Seq<char>) -> JsonDoc {
    JsonDoc::Object(seq![("type"@, JsonDoc::Text(t))])
}

/// `{"type": ["string", "null"]}`.
pub open spec fn optional_string_doc() -> JsonDoc {
    JsonDoc::Object(seq![("type"@, text_list(seq!["string"@, "null"@]))])
}

/// The Stage A key-point schema, member for member.
pub open spec fn stage_a_format_doc() -> JsonDoc {
    JsonDoc::Object(
        seq![
            ("type"@, JsonDoc::Text("object"@)),
            (
                "properties"@,
                JsonDoc::Object(
                    seq![
                        (
                            "key_points"@,
                            JsonDoc::Object(
                                seq![
                                    ("type"@, JsonDoc::Text("array"@)),
                                    (
                                        "items"@,
                                        JsonDoc::Object(
                                            seq![
                                                ("type"@, JsonDoc::Text("object"@)),
                                                (
                                                    "properties"@,
                                                    JsonDoc::Object(seq![("knowledge_point"@, type_doc("string"@))]),
                                                ),
                                                ("required"@, text_list(seq!["knowledge_point"@])),
                                                ("additionalProperties"@, JsonDoc::Bool(false)),
                                            ],
                                        ),
                                    ),
                                ],
                            ),
                        ),
                    ],
                ),
            ),
            ("required"@, text_list(seq!["key_points"@])),
            ("additionalProperties"@, JsonDoc::Bool(false)),
        ],
    )
}

/// The optional question of a Stage B item: a prompt and exactly three
/// distractors, or `null`.
pub open spec fn stage_b_mcq_doc() -> JsonDoc {
    JsonDoc::Object(
        seq![
            (
                "anyOf"@,
                JsonDoc::Array(
                    seq![
                        JsonDoc::Object(
                            seq![
                                ("type"@, JsonDoc::Text("object"@)),
                                (
                                    "properties"@,
                                    JsonDoc::Object(
                                        seq![
                                            ("prompt"@, optional_string_doc()),
                                            (
                                                "distractors"@,
                                                JsonDoc::Object(
                                                    seq![
                                                        ("type"@, JsonDoc::Text("array"@)),
                                                        ("minItems"@, count_doc(3)),
                                                        ("maxItems"@, count_doc(3)),
                                                        ("items"@, type_doc("string"@)),
                                                    ],
                                                ),
                                            ),
                                        ],
                                    ),
                                ),
                                ("required"@, text_list(seq!["prompt"@, "distractors"@])),
                                ("additionalProperties"@, JsonDoc::Bool(false)),
                            ],
                        ),
                        type_doc("null"@),
                    ],
                ),
            ),
        ],
    )
}

/// The fields a Stage B item must carry.
pub open spec fn stage_b_item_fields() -> Seq<Seq<char>> {
    seq![
        "knowledge_point_id"@,
        "target"@,
        "answer"@,
        "explanation"@,
        "flashcard"@,
        "mcq"@,
        "mcq_omission_reason"@,
    ]
}

/// One Stage B item, member for member.
pub open spec fn stage_b_item_doc() -> JsonDoc {
    JsonDoc::Object(
        seq![
            ("type"@, JsonDoc::Text("object"@)),
            (
                "properties"@,
                JsonDoc::Object(
                    seq![
                        ("knowledge_point_id"@, type_doc("string"@)),
                        ("target"@, type_doc("string"@)),
                        ("answer"@, type_doc("string"@)),
                        ("explanation"@, optional_string_doc()),
                        (
                            "flashcard"@,
                            JsonDoc::Object(
                                seq![
                                    ("type"@, JsonDoc::Text("object"@)),
                                    ("properties"@, JsonDoc::Object(seq![("prompt"@, type_doc("string"@))])),
                                    ("required"@, text_list(seq!["prompt"@])),
                                    ("additionalProperties"@, JsonDoc::Bool(false)),
                                ],
                            ),
                        ),
                        ("mcq"@, stage_b_mcq_doc()),
                        ("mcq_omission_reason"@, optional_string_doc()),
                    ],
                ),
            ),
            ("required"@, text_list(stage_b_item_fields())),
            ("additionalProperties"@, JsonDoc::Bool(false)),
        ],
    )
}

/// The Stage B learning-item schema, member for member.
pub open spec fn stage_b_format_doc() -> JsonDoc {
    JsonDoc::Object(
        seq![
            ("type"@, JsonDoc::Text("object"@)),
            (
                "properties"@,
                JsonDoc::Object(
                    seq![
                        (
                            "items"@,
                            JsonDoc::Object(
                                seq![
                                    ("type"@, JsonDoc::Text("array"@)),
                                    ("maxItems"@, count_doc(4)),
                                    ("items"@, stage_b_item_doc()),
                                ],
                            ),
                        ),
                    ],
                ),
            ),
            ("required"@, text_list(seq!["items"@])),
            ("additionalProperties"@, JsonDoc::Bool(false)),
        ],
    )
}

/// `{"type": t}`.
fn of_type(t: &str) -> (r: JsonValue)
    ensures
        r@ == type_doc(t@),
{
    let mut fields: Vec<(String, JsonValue)> = Vec::new();
    push_member(&mut fields, "type", text(t));
    assert(member_docs(fields@) =~~= seq![("type"@, JsonDoc::Text(t@))]);
    JsonValue::Object(fields)
}

/// `{"type": ["string", "null"]}`.
fn optional_string() -> (r: JsonValue)
    ensures
        r@ == optional_string_doc(),
{
    let either = texts(&["string", "null"]);
    assert(texts_of(Some(either)) == Some(seq!["string"@, "null"@]));
    let mut fields: Vec<(String, JsonValue)> = Vec::new();
    push_member(&mut fields, "type", either);
    assert(member_docs(fields@) =~~= seq![("type"@, text_list(seq!["string"@, "null"@]))]);
    JsonValue::Object(fields)
}

/// `{"type": "object", "properties": props, "required": required,
/// "additionalProperties": false}`, with the document of `props` given.
fn closed_object(props: Vec<(String, JsonValue)>, required: JsonValue) -> (r: JsonValue)
    ensures
        r@ == JsonDoc::Object(
            seq![
                ("type"@, JsonDoc::Text("object"@)),
                ("properties"@, JsonDoc::Object(member_docs(props@))),
                ("required"@, required@),
                ("additionalProperties"@, JsonDoc::Bool(false)),
            ],
        ),
{
    let ghost props_doc = JsonDoc::Object(member_docs(props@));
    let ghost required_doc = required@;
    let mut fields: Vec<(String, JsonValue)> = Vec::new();
    push_member(&mut fields, "type", text("object"));
    push_member(&mut fields, "properties", JsonValue::Object(props));
    push_member(&mut fields, "required", required);
    push_member(&mut fields, "additionalProperties", JsonValue::Bool(false));
    assert(member_docs(fields@) =~~= seq![
        ("type"@, JsonDoc::Text("object"@)),
        ("properties"@, props_doc),
        ("required"@, required_doc),
        ("additionalProperties"@, JsonDoc::Bool(false)),
    ]);
    JsonValue::Object(fields)
}

/// The JSON schema of Stage A key-point output: an object whose only
/// member `key_points` is an array of objects whose only member is the
/// string `knowledge_point`, the shape `parse_stage_a_value` decodes. The
/// whole document is `stage_a_format_doc`.
pub fn stage_a_format_schema() -> (r: JsonValue)
    ensures
        r@ == stage_a_format_doc(),
{
    let mut item_props: Vec<(String, JsonValue)> = Vec::new();
    push_member(&mut item_props, "knowledge_point", of_type("string"));
    assert(member_docs(item_props@) =~~= seq![("knowledge_point"@, type_doc("string"@))]);
    let point_required = texts(&["knowledge_point"]);
    assert(texts_of(Some(point_required)) == Some(seq!["knowledge_point"@]));
    let item = closed_object(item_props, point_required);
    let ghost item_doc = item@;
    let mut list: Vec<(String, JsonValue)> = Vec::new();
    push_member(&mut list, "type", text("array"));
    push_member(&mut list, "items", item);
    assert(member_docs(list@) =~~= seq![("type"@, JsonDoc::Text("array"@)), ("items"@, item_doc)]);
    let ghost list_doc = json_view(JsonValue::Object(list));
    let mut props: Vec<(String, JsonValue)> = Vec::new();
    push_member(&mut props, "key_points", JsonValue::Object(list));
    assert(member_docs(props@) =~~= seq![("key_points"@, list_doc)]);
    let required = texts(&["key_points"]);
    assert(texts_of(Some(required)) == Some(seq!["key_points"@]));
    let r = closed_object(props, required);
    assert(r@ =~~= stage_a_format_doc());
    r
}

/// The JSON schema of Stage B learning-item output: an object whose only
/// member `items` is an array of at most four items, each with all seven
/// fields required and no others, and whose optional question carries
/// exactly three distractors. The whole document is `stage_b_format_doc`.
pub fn stage_b_format_schema() -> (r: JsonValue)
    ensures
        r@ == stage_b_format_doc(),
{
    let mut distractors: Vec<(String, JsonValue)> = Vec::new();
    push_member(&mut distractors, "type", text("array"));
    push_member(&mut distractors, "minItems", count(3));
    push_member(&mut distractors, "maxItems", count(3));
    push_member(&mut distractors, "items", of_type("string"));
    assert(member_docs(distractors@) =~~= seq![
        ("type"@, JsonDoc::Text("array"@)),
        ("minItems"@, count_doc(3)),
        ("maxItems"@, count_doc(3)),
        ("items"@, type_doc("string"@)),
    ]);
    let ghost distractors_doc = json_view(JsonValue::Object(distractors));
    let mut question_props: Vec<(String, JsonValue)> = Vec::new();
    push_member(&mut question_props, "prompt", optional_string());
    push_member(&mut question_props, "distractors", JsonValue::Object(distractors));
    assert(member_docs(question_props@) =~~= seq![("prompt"@, optional_string_doc()), ("distractors"@, distractors_doc)]);
    let question_required = texts(&["prompt", "distractors"]);
    assert(texts_of(Some(question_required)) == Some(seq!["prompt"@, "distractors"@]));
    let question = closed_object(question_props, question_required);
    let ghost question_doc = question@;
    let null_choice = of_type("null");
    let mut choices: Vec<JsonValue> = Vec::new();
    let ghost s0 = choices@;
    choices.push(question);
    let ghost s1 = choices@;
    choices.push(null_choice);
    assert(choices@.drop_last() =~= s1);
    assert(s1.drop_last() =~= s0);
    assert(item_docs(s0) =~= Seq::<JsonDoc>::empty());
    assert(s1.last() == question);
    assert(item_docs(s1) =~~= seq![question_doc]);
    assert(item_docs(choices@) =~~= seq![question_doc, type_doc("null"@)]);
    let ghost choices_doc = json_view(JsonValue::Array(choices));
    let mut mcq: Vec<(String, JsonValue)> = Vec::new();
    push_member(&mut mcq, "anyOf", JsonValue::Array(choices));
    assert(member_docs(mcq@) =~~= seq![("anyOf"@, choices_doc)]);
    assert(json_view(JsonValue::Object(mcq)) =~~= stage_b_mcq_doc());
    let ghost mcq_doc = json_view(JsonValue::Object(mcq));
    let mut card_props: Vec<(String, JsonValue)> = Vec::new();
    push_member(&mut card_props, "prompt", of_type("string"));
    assert(member_docs(card_props@) =~~= seq![("prompt"@, type_doc("string"@))]);
    let card_required = texts(&["prompt"]);
    assert(texts_of(Some(card_required)) == Some(seq!["prompt"@]));
    let card = closed_object(card_props, card_required);
    let ghost card_doc = card@;
    let mut item_props: Vec<(String, JsonValue)> = Vec::new();
    push_member(&mut item_props, "knowledge_point_id", of_type("string"));
    push_member(&mut item_props, "target", of_type("string"));
    push_member(&mut item_props, "answer", of_type("string"));
    push_member(&mut item_props, "explanation", optional_string());
    push_member(&mut item_props, "flashcard", card);
    push_member(&mut item_props, "mcq", JsonValue::Object(mcq));
    push_member(&mut item_props, "mcq_omission_reason", optional_string());
    assert(member_docs(item_props@) =~~= seq![
        ("knowledge_point_id"@, type_doc("string"@)),
        ("target"@, type_doc("string"@)),
        ("answer"@, type_doc("string"@)),
        ("explanation"@, optional_string_doc()),
        ("flashcard"@, card_doc),
        ("mcq"@, mcq_doc),
        ("mcq_omission_reason"@, optional_string_doc()),
    ]);
    let item_required = texts(
        &[
            "knowledge_point_id",
            "target",
            "answer",
            "explanation",
            "flashcard",
            "mcq",
            "mcq_omission_reason",
        ],
    );
    assert(texts_of(Some(item_required)) == Some(stage_b_item_fields()));
    let item = closed_object(item_props, item_required);
    assert(item@ =~~= stage_b_item_doc());
    let ghost item_doc = item@;
    let mut list: Vec<(String, JsonValue)> = Vec::new();
    push_member(&mut list, "type", text("array"));
    push_member(&mut list, "maxItems", count(4));
    push_member(&mut list, "items", item);
    assert(member_docs(list@) =~~= seq![
        ("type"@, JsonDoc::Text("array"@)),
        ("maxItems"@, count_doc(4)),
        ("items"@, item_doc),
    ]);
    let ghost list_doc = json_view(JsonValue::Object(list));
    let mut props: Vec<(String, JsonValue)> = Vec::new();
    push_member(&mut props, "items", JsonValue::Object(list));
    assert(member_docs(props@) =~~= seq![("items"@, list_doc)]);
    let required = texts(&["items"]);
    assert(texts_of(Some(required)) == Some(seq!["items"@]));
    let r = closed_object(props, required);
    assert(r@ =~~= stage_b_format_doc());
    r
}

} // verus!
