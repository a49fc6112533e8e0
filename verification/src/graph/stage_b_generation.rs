//! Decoding and checking of a generated multiple-choice question, the step
//! of Stage B that follows the provider call.
use vstd::prelude::*;

use crate::graph::stage_b_schema::{mcq_errors, validate_mcq, GeneratedMCQ};
use crate::graph::types::QuestionType;
use crate::json::{
    child, count, count_doc, get_member, is_count, is_text, json_view, member, member_docs,
    parse_json_text, parsed_json, push_member, string_items, text, text_list, texts, texts_of, JsonDoc,
    JsonValue,
};
use crate::llm::default_generation_schema::LlmSchemaError;
use crate::llm::error::LlmServiceError;
use crate::text::{join, join_strings, strs};

verus! {

/// The model-owned fields of a question payload (question, options,
/// correct index, explanation), or why the payload has the wrong shape.
pub open spec fn decode_mcq(v: JsonValue) -> Result<(Seq<char>, Seq<Seq<char>>, nat, Seq<char>), Seq<char>> {
    if !(v is Object) {
        Err("expected an object"@)
    } else {
        match get_member(v, "question"@) {
            Some(JsonValue::String(q)) => match get_member(v, "options"@) {
                Some(JsonValue::Array(items)) => match string_items(items@) {
                    Some(options) => match get_member(v, "correct_index"@) {
                        Some(JsonValue::Number(n)) => match n.as_u64 {
                            Some(k) => if k <= usize::MAX {
                                match get_member(v, "explanation"@) {
                                    Some(JsonValue::String(x)) => Ok((q@, options, k as nat, x@)),
                                    _ => Err("explanation: expected a string"@),
                                }
                            } else {
                                Err("correct_index: expected a non-negative integer"@)
                            },
                            None => Err("correct_index: expected a non-negative integer"@),
                        },
                        _ => Err("correct_index: expected a non-negative integer"@),
                    },
                    None => Err("options: expected an array of strings"@),
                },
                _ => Err("options: expected an array of strings"@),
            },
            _ => Err("question: expected a string"@),
        }
    }
}

fn decode_strings(items: &Vec<JsonValue>) -> (r: Option<Vec<String>>)
    ensures
        match r {
            Some(v) => string_items(items@) == Some(strs(v@)),
            None => string_items(items@) is None,
        },
{
    let mut out: Vec<String> = Vec::new();
    for i in 0..items.len()
        invariant
            string_items(items@.take(i as int)) == Some(strs(out@)),
    {
        assert(items@.take(i + 1).drop_last() =~= items@.take(i as int));
        assert(items@.take(i + 1).last() == items@[i as int]);
        match items[i].as_str() {
            Some(t) => {
                let ghost before = out@;
                out.push(String::from_str(t));
                assert(strs(out@) =~= strs(before).push(t@));
            },
            None => {
                proof {
                    lemma_string_items_prefix(items@, i + 1);
                }
                return None;
            },
        }
    }
    assert(items@.take(items@.len() as int) =~= items@);
    Some(out)
}

proof fn lemma_string_items_prefix(items: Seq<JsonValue>, k: int)
    requires
        0 <= k <= items.len(),
        string_items(items.take(k)) is None,
    ensures
        string_items(items) is None,
    decreases items.len() - k,
{
    if k < items.len() {
        assert(items.take(k + 1).drop_last() =~= items.take(k));
        lemma_string_items_prefix(items, k + 1);
    } else {
        assert(items.take(k) =~= items);
    }
}



fn parse_error(message: &str) -> (r: LlmServiceError)
    ensures
        r matches LlmServiceError::Schema(LlmSchemaError::Parse(d)) && d@ == message@,
{
    LlmServiceError::Schema(LlmSchemaError::Parse(String::from_str(message)))
}

/// What decoding and checking the question document `v` gives.
pub open spec fn mcq_outcome(v: JsonValue, question_type: QuestionType, r: Result<GeneratedMCQ, LlmServiceError>) -> bool {
    match decode_mcq(v) {
        Err(msg) => r matches Err(LlmServiceError::Schema(LlmSchemaError::Parse(d))) && d@ == msg,
        Ok((q, o, k, x)) => if mcq_errors(q, o, k, x).len() == 0 {
            r matches Ok(m) && m.question@ == q && strs(m.options@) == o && m.correct_index == k
                && m.explanation@ == x && m.question_type == question_type
        } else {
            r matches Err(LlmServiceError::InvalidOutput(d)) && d@ == join(mcq_errors(q, o, k, x), "; "@)
        },
    }
}

/// Parses question text into a question of the bundle's type and checks
/// it. Text that is not a JSON document is a schema error carrying the
/// parser's message; a document is decoded and checked as
/// `check_mcq_value` does.
pub fn parse_and_validate_mcq(json_payload: &str, question_type: QuestionType) -> (r: Result<GeneratedMCQ, LlmServiceError>)
    ensures
        match parsed_json(json_payload@) {
            None => r matches Err(LlmServiceError::Schema(LlmSchemaError::Parse(_))),
            Some(v) => mcq_outcome(v, question_type, r),
        },
{
    match parse_json_text(json_payload) {
        Ok(value) => check_mcq_value(&value, question_type),
        Err(message) => Err(LlmServiceError::Schema(LlmSchemaError::Parse(message))),
    }
}

/// Decodes a question document into a question of the bundle's type and
/// checks it: a document of the wrong shape is a schema error; structural
/// problems become one invalid-output error listing them all, joined by
/// `; `.
pub fn check_mcq_value(value: &JsonValue, question_type: QuestionType) -> (r: Result<GeneratedMCQ, LlmServiceError>)
    ensures
        mcq_outcome(*value, question_type, r),
{
    match value {
        JsonValue::Object(_) => {},
        _ => {
            return Err(parse_error("expected an object"));
        },
    }
    let question = match value.get("question") {
        Some(v) => match v.as_str() {
            Some(q) => String::from_str(q),
            None => {
                return Err(parse_error("question: expected a string"));
            },
        },
        None => {
            return Err(parse_error("question: expected a string"));
        },
    };
    let options = match value.get("options") {
        Some(v) => match v.as_array() {
            Some(items) => match decode_strings(items) {
                Some(o) => o,
                None => {
                    return Err(parse_error("options: expected an array of strings"));
                },
            },
            None => {
                return Err(parse_error("options: expected an array of strings"));
            },
        },
        None => {
            return Err(parse_error("options: expected an array of strings"));
        },
    };
    let correct_index: usize = match value.get("correct_index") {
        Some(JsonValue::Number(n)) => match n.as_u64 {
            Some(k) => {
                if k <= usize::MAX as u64 {
                    k as usize
                } else {
                    return Err(parse_error("correct_index: expected a non-negative integer"));
                }
            },
            None => {
                return Err(parse_error("correct_index: expected a non-negative integer"));
            },
        },
        _ => {
            return Err(parse_error("correct_index: expected a non-negative integer"));
        },
    };
    let explanation = match value.get("explanation") {
        Some(v) => match v.as_str() {
            Some(x) => String::from_str(x),
            None => {
                return Err(parse_error("explanation: expected a string"));
            },
        },
        None => {
            return Err(parse_error("explanation: expected a string"));
        },
    };
    let mcq = GeneratedMCQ { question, options, correct_index, explanation, question_type };
    let errors = validate_mcq(&mcq);
    if errors.len() > 0 {
        return Err(LlmServiceError::InvalidOutput(join_strings(&errors, "; ")));
    }
    Ok(mcq)
}

/// A schema property: its type, a description, and an inclusive range
/// named by `low_key` and `high_key`.
fn bounded(t: &str, d: &str, low_key: &str, low: u64, high_key: &str, high: u64) -> (r: Vec<(String, JsonValue)>)
    requires
        low_key@ != high_key@,
        low_key@ != "type"@,
        low_key@ != "description"@,
        high_key@ != "type"@,
        high_key@ != "description"@,
    ensures
        is_text(member(r@, "type"@), t@),
        is_count(member(r@, low_key@), low),
        is_count(member(r@, high_key@), high),
        member_docs(r@) == bounded_members(t@, d@, low_key@, low, high_key@, high),
{
    let mut fields: Vec<(String, JsonValue)> = Vec::new();
    push_member(&mut fields, "type", text(t));
    push_member(&mut fields, "description", text(d));
    push_member(&mut fields, low_key, count(low));
    push_member(&mut fields, high_key, count(high));
    assert(member_docs(fields@) =~~= bounded_members(t@, d@, low_key@, low, high_key@, high));
    fields
}

/// The members of a bounded schema property.
pub open spec fn bounded_members(t: Seq<char>, d: Seq<char>, low_key: Seq<char>, low: u64, high_key: Seq<char>, high: u64) -> Seq<(Seq<char>, JsonDoc)> {
    seq![
        ("type"@, JsonDoc::Text(t)),
        ("description"@, JsonDoc::Text(d)),
        (low_key, count_doc(low)),
        (high_key, count_doc(high)),
    ]
}

/// The question schema, member for member.
pub open spec fn generated_mcq_schema_doc() -> JsonDoc {
    JsonDoc::Object(
        seq![
            ("type"@, JsonDoc::Text("object"@)),
            (
                "properties"@,
                JsonDoc::Object(
                    seq![
                        (
                            "question"@,
                            JsonDoc::Object(
                                bounded_members(
                                    "string"@,
                                    "The multiple-choice question (10-500 characters)"@,
                                    "minLength"@,
                                    10,
                                    "maxLength"@,
                                    500,
                                ),
                            ),
                        ),
                        (
                            "options"@,
                            JsonDoc::Object(
                                seq![
                                    ("type"@, JsonDoc::Text("array"@)),
                                    ("description"@, JsonDoc::Text("Exactly 4 answer options (each 1-500 characters)"@)),
                                    (
                                        "items"@,
                                        JsonDoc::Object(
                                            seq![
                                                ("type"@, JsonDoc::Text("string"@)),
                                                ("minLength"@, count_doc(1)),
                                                ("maxLength"@, count_doc(500)),
                                            ],
                                        ),
                                    ),
                                    ("minItems"@, count_doc(4)),
                                    ("maxItems"@, count_doc(4)),
                                ],
                            ),
                        ),
                        (
                            "correct_index"@,
                            JsonDoc::Object(
                                bounded_members("integer"@, "Index of correct answer (0-3)"@, "minimum"@, 0, "maximum"@, 3),
                            ),
                        ),
                        (
                            "explanation"@,
                            JsonDoc::Object(
                                bounded_members(
                                    "string"@,
                                    "Explanation of why the answer is correct (20-1000 characters)"@,
                                    "minLength"@,
                                    20,
                                    "maxLength"@,
                                    1000,
                                ),
                            ),
                        ),
                    ],
                ),
            ),
            ("required"@, text_list(seq!["question"@, "options"@, "correct_index"@, "explanation"@])),
            ("additionalProperties"@, JsonDoc::Bool(false)),
        ],
    )
}

/// The JSON schema of a generated question handed to the provider: a
/// question of 10 to 500 characters, exactly four options of 1 to 500
/// characters each, a correct index from 0 to 3 and an explanation of 20 to
/// 1000 characters, all required and nothing else allowed, the bounds that
/// `validate_mcq` checks. The whole document is `generated_mcq_schema_doc`.
pub fn schema_for_generated_mcq() -> (r: JsonValue)
    ensures
        is_text(child(Some(r), "type"@), "object"@),
        texts_of(child(Some(r), "required"@)) == Some(
            seq!["question"@, "options"@, "correct_index"@, "explanation"@],
        ),
        child(Some(r), "additionalProperties"@) == Some(JsonValue::Bool(false)),
        is_text(child(child(child(Some(r), "properties"@), "question"@), "type"@), "string"@),
        is_count(child(child(child(Some(r), "properties"@), "question"@), "minLength"@), 10),
        is_count(child(child(child(Some(r), "properties"@), "question"@), "maxLength"@), 500),
        is_text(child(child(child(Some(r), "properties"@), "options"@), "type"@), "array"@),
        is_count(child(child(child(Some(r), "properties"@), "options"@), "minItems"@), 4),
        is_count(child(child(child(Some(r), "properties"@), "options"@), "maxItems"@), 4),
        is_text(child(child(child(child(Some(r), "properties"@), "options"@), "items"@), "type"@), "string"@),
        is_count(child(child(child(child(Some(r), "properties"@), "options"@), "items"@), "minLength"@), 1),
        is_count(child(child(child(child(Some(r), "properties"@), "options"@), "items"@), "maxLength"@), 500),
        is_text(child(child(child(Some(r), "properties"@), "correct_index"@), "type"@), "integer"@),
        is_count(child(child(child(Some(r), "properties"@), "correct_index"@), "minimum"@), 0),
        is_count(child(child(child(Some(r), "properties"@), "correct_index"@), "maximum"@), 3),
        is_text(child(child(child(Some(r), "properties"@), "explanation"@), "type"@), "string"@),
        is_count(child(child(child(Some(r), "properties"@), "explanation"@), "minLength"@), 20),
        is_count(child(child(child(Some(r), "properties"@), "explanation"@), "maxLength"@), 1000),
        r@ == generated_mcq_schema_doc(),
{
    proof {
        reveal_strlit("type");
        reveal_strlit("description");
        reveal_strlit("items");
        reveal_strlit("properties");
        reveal_strlit("required");
        reveal_strlit("additionalProperties");
        reveal_strlit("minLength");
        reveal_strlit("maxLength");
        reveal_strlit("minItems");
        reveal_strlit("maxItems");
        reveal_strlit("minimum");
        reveal_strlit("maximum");
        reveal_strlit("question");
        reveal_strlit("options");
        reveal_strlit("correct_index");
        reveal_strlit("explanation");
        assert("minLength"@[0] != "type"@[0] && "minLength"@[0] != "description"@[0]);
        assert("maxLength"@[0] != "type"@[0] && "maxLength"@[0] != "description"@[0]);
        assert("minimum"@[0] != "type"@[0] && "minimum"@[0] != "description"@[0]);
        assert("maximum"@[0] != "type"@[0] && "maximum"@[0] != "description"@[0]);
        assert("maxLength"@[1] != "minLength"@[1]);
        assert("maximum"@[1] != "minimum"@[1]);
        assert("items"@[0] != "type"@[0] && "items"@[0] != "description"@[0]);
        assert("minItems"@[0] != "type"@[0] && "minItems"@[0] != "description"@[0] && "minItems"@[0] != "items"@[0]);
        assert("maxItems"@[0] != "type"@[0] && "maxItems"@[0] != "description"@[0] && "maxItems"@[0] != "items"@[0]);
        assert("maxItems"@[1] != "minItems"@[1]);
        assert("options"@[0] != "question"@[0]);
        assert("correct_index"@[0] != "question"@[0] && "correct_index"@[0] != "options"@[0]);
        assert("explanation"@[0] != "question"@[0] && "explanation"@[0] != "options"@[0]
            && "explanation"@[0] != "correct_index"@[0]);
        assert("properties"@[0] != "type"@[0]);
        assert("required"@[0] != "type"@[0] && "required"@[0] != "properties"@[0]);
        assert("additionalProperties"@[0] != "type"@[0] && "additionalProperties"@[0] != "properties"@[0]
            && "additionalProperties"@[0] != "required"@[0]);
    }
    let question = bounded(
        "string",
        "The multiple-choice question (10-500 characters)",
        "minLength",
        10,
        "maxLength",
        500,
    );
    let mut option: Vec<(String, JsonValue)> = Vec::new();
    push_member(&mut option, "type", text("string"));
    push_member(&mut option, "minLength", count(1));
    push_member(&mut option, "maxLength", count(500));
    let mut options: Vec<(String, JsonValue)> = Vec::new();
    push_member(&mut options, "type", text("array"));
    push_member(&mut options, "description", text("Exactly 4 answer options (each 1-500 characters)"));
    push_member(&mut options, "items", JsonValue::Object(option));
    push_member(&mut options, "minItems", count(4));
    push_member(&mut options, "maxItems", count(4));
    assert(member_docs(option@) =~~= seq![
        ("type"@, JsonDoc::Text("string"@)),
        ("minLength"@, count_doc(1)),
        ("maxLength"@, count_doc(500)),
    ]);
    let ghost option_doc = json_view(JsonValue::Object(option));
    assert(member_docs(options@) =~~= seq![
        ("type"@, JsonDoc::Text("array"@)),
        ("description"@, JsonDoc::Text("Exactly 4 answer options (each 1-500 characters)"@)),
        ("items"@, option_doc),
        ("minItems"@, count_doc(4)),
        ("maxItems"@, count_doc(4)),
    ]);
    let correct = bounded("integer", "Index of correct answer (0-3)", "minimum", 0, "maximum", 3);
    let explanation = bounded(
        "string",
        "Explanation of why the answer is correct (20-1000 characters)",
        "minLength",
        20,
        "maxLength",
        1000,
    );
    let ghost question_doc = json_view(JsonValue::Object(question));
    let ghost options_doc = json_view(JsonValue::Object(options));
    let ghost correct_doc = json_view(JsonValue::Object(correct));
    let ghost explanation_doc = json_view(JsonValue::Object(explanation));
    let mut props: Vec<(String, JsonValue)> = Vec::new();
    push_member(&mut props, "question", JsonValue::Object(question));
    push_member(&mut props, "options", JsonValue::Object(options));
    push_member(&mut props, "correct_index", JsonValue::Object(correct));
    push_member(&mut props, "explanation", JsonValue::Object(explanation));
    assert(member_docs(props@) =~~= seq![
        ("question"@, question_doc),
        ("options"@, options_doc),
        ("correct_index"@, correct_doc),
        ("explanation"@, explanation_doc),
    ]);
    let ghost props_doc = json_view(JsonValue::Object(props));
    let required = texts(&["question", "options", "correct_index", "explanation"]);
    assert(texts_of(Some(required)) == Some(seq!["question"@, "options"@, "correct_index"@, "explanation"@]));
    let mut fields: Vec<(String, JsonValue)> = Vec::new();
    push_member(&mut fields, "type", text("object"));
    push_member(&mut fields, "properties", JsonValue::Object(props));
    push_member(&mut fields, "required", required);
    push_member(&mut fields, "additionalProperties", JsonValue::Bool(false));
    assert(member_docs(fields@) =~~= seq![
        ("type"@, JsonDoc::Text("object"@)),
        ("properties"@, props_doc),
        ("required"@, text_list(seq!["question"@, "options"@, "correct_index"@, "explanation"@])),
        ("additionalProperties"@, JsonDoc::Bool(false)),
    ]);
    JsonValue::Object(fields)
}

} // verus!
