//! Stage B prompts: the system prompt for question generation and the
//! rendering of a bundle into the user prompt.
use vstd::prelude::*;

use crate::graph::graph_index::last_entity;
use crate::graph::types::{
    EntityNode, EntityNodeView, GraphContextBundle, GraphContextBundleView, KnowledgePointView,
    QuestionType, Relation, RelationType, RelationView,
};
use crate::text::str_eq;

verus! {

/// The system prompt for multiple-choice question generation.
pub const STAGE_B_SYSTEM_PROMPT: &'static str = r#"You are an expert educational MCQ (multiple-choice question) generator for active recall learning.

Your task: Generate exactly ONE high-quality MCQ from the provided knowledge point and supporting context.

REQUIREMENTS:
1. Return valid JSON only. No markdown, no prose, no explanations outside JSON.
2. The question must primarily assess understanding of the ROOT KNOWLEDGE POINT.
3. Use related knowledge only as supporting context. Do not ask about unrelated supporting facts.
4. All four options must be grammatically parallel and plausible.
5. Exactly one option is correct; the other three are convincing distractors.
6. Avoid "none of the above" or "all of the above" options.
7. The question stem must be self-contained and answerable without access to the source note.
8. Include any essential facts from an example, code block, image, diagram, figure, or table directly in the question stem.
9. Never refer to unspecified context with wording such as "the example", "shown above", "shown below", or "the following configuration".
10. Do not rely on the answer options to supply context missing from the question stem.
11. Base the question only on source information that can be restated faithfully as text.

QUESTION TYPES:

Recall Question:
- Tests direct factual knowledge of a single concept
- Example: "What is the primary role of JWT?"
- Options present different facts or definitions
- These should be straightforward but require accurate retrieval from memory
- Assume the learner has studied the material but may have forgotten details

Relational Question:
- Tests understanding of connections between multiple concepts
- Example: "How does JWT compare to Cookies in stateless authentication?"
- Requires reasoning about at least TWO connected concepts
- The correct answer depends on understanding the relationship, not recalling a single isolated fact
- Do not reduce to asking about a single concept even if related points are provided

QUALITY GUIDELINES:
- Make distractors plausible (common misconceptions are ideal)
- Ensure the question is unambiguous
- Explanation should justify why the correct answer is right
- Keep question and explanation concise but complete
- The question should require retrieval and understanding, not guessing

OUTPUT JSON SCHEMA:
{
  "question": "string (10-500 chars)",
  "options": ["option A", "option B", "option C", "option D"],
  "correct_index": 0-3,
  "explanation": "string (20-1000 chars, justify correctness)"
}
"#;

/// The instructions that close every rendered bundle.
pub const BUNDLE_CLOSING: &'static str = "Generate exactly ONE multiple-choice question.\nThe question must primarily assess understanding of the ROOT KNOWLEDGE POINT.\nUse the related knowledge only as supporting context.\nDo not ask about unrelated supporting facts.\n";

/// The JSON shape the user prompt asks for.
pub const RESPONSE_SCHEMA_HINT: &'static str = "Respond with valid JSON matching this schema:\n{\n  \"question\": \"...\",\n  \"options\": [\"A\", \"B\", \"C\", \"D\"],\n  \"correct_index\": 0-3,\n  \"explanation\": \"...\"\n}\n";

/// Returns the system prompt for question generation.
pub fn system_prompt() -> (r: String)
    ensures
        r@ == STAGE_B_SYSTEM_PROMPT@,
{
    String::from_str(STAGE_B_SYSTEM_PROMPT)
}

// =====================================================================
// Rendering specification
// =====================================================================
/// The guidance line for a question type.
pub open spec fn question_type_hint(t: QuestionType) -> Seq<char> {
    match t {
        QuestionType::Recall => "Question type: RECALL — focus on testing direct knowledge of this concept."@,
        QuestionType::Relational => "Question type: RELATIONAL — focus on connections between this concept and others below."@,
    }
}

/// The phrase that reads a relation type.
pub open spec fn relation_phrase(t: RelationType) -> Seq<char> {
    match t {
        RelationType::RelatedTo => "is related to"@,
        RelationType::Contrasts => "contrasts with"@,
        RelationType::Prerequisite => "is a prerequisite for"@,
        RelationType::Consequence => "leads to"@,
        RelationType::Example => "is an example of"@,
        RelationType::CounterExample => "is a counter-example to"@,
    }
}

/// The display name of an entity ID: the canonical name of the last
/// supporting entity with that ID, or the ID itself.
pub open spec fn display_name(es: Seq<EntityNodeView>, id: Seq<char>) -> Seq<char> {
    match last_entity(es, id) {
        Some(e) => e.canonical_name,
        None => id,
    }
}

/// One bullet line per related point.
pub open spec fn related_lines(ps: Seq<KnowledgePointView>) -> Seq<char>
    decreases ps.len(),
{
    if ps.len() == 0 {
        Seq::empty()
    } else {
        related_lines(ps.drop_last()) + "- "@ + ps.last().point + "\n"@
    }
}

/// One bullet line per relation, read with display names.
pub open spec fn relation_lines(rs: Seq<RelationView>, es: Seq<EntityNodeView>) -> Seq<char>
    decreases rs.len(),
{
    if rs.len() == 0 {
        Seq::empty()
    } else {
        let r = rs.last();
        relation_lines(rs.drop_last(), es) + "- "@ + display_name(es, r.source_id) + " "@
            + relation_phrase(r.relation_type) + " "@ + display_name(es, r.target_id) + "\n"@
    }
}

/// One bullet line per supporting entity.
pub open spec fn entity_lines(es: Seq<EntityNodeView>) -> Seq<char>
    decreases es.len(),
{
    if es.len() == 0 {
        Seq::empty()
    } else {
        entity_lines(es.drop_last()) + "- "@ + es.last().canonical_name + "\n"@
    }
}

/// The related-points section; empty when there are none.
pub open spec fn related_section(ps: Seq<KnowledgePointView>) -> Seq<char> {
    if ps.len() == 0 {
        Seq::empty()
    } else {
        "RELATED KNOWLEDGE POINTS (for context):\n"@ + related_lines(ps) + "\n"@
    }
}

/// The relationships section; empty when there are none.
pub open spec fn relations_section(rs: Seq<RelationView>, es: Seq<EntityNodeView>) -> Seq<char> {
    if rs.len() == 0 {
        Seq::empty()
    } else {
        "KEY RELATIONSHIPS:\n"@ + relation_lines(rs, es) + "\n"@
    }
}

/// The supporting-entities section; empty when there are none.
pub open spec fn entities_section(es: Seq<EntityNodeView>) -> Seq<char> {
    if es.len() == 0 {
        Seq::empty()
    } else {
        "SUPPORTING ENTITIES:\n"@ + entity_lines(es) + "\n"@
    }
}

/// The rendered context of a bundle: the root point, the question type
/// guidance, then the related points, relationships, and supporting
/// entities (each section only when non-empty), and the closing
/// instructions.
pub open spec fn rendered_context(b: GraphContextBundleView) -> Seq<char> {
    "ROOT KNOWLEDGE POINT:\n"@ + b.root_point.point + "\n\n"@ + question_type_hint(b.question_type)
        + "\n\n"@ + related_section(b.related_points) + relations_section(
        b.supporting_relations,
        b.supporting_entities,
    ) + entities_section(b.supporting_entities) + BUNDLE_CLOSING@
}

// =====================================================================
// Rendering
// =====================================================================
fn display_name_exec<'a>(entities: &'a Vec<EntityNode>, id: &'a String) -> (r: &'a str)
    ensures
        r@ == display_name(crate::graph::types::entity_views(entities@), id@),
{
    let ghost es = crate::graph::types::entity_views(entities@);
    let mut i = entities.len();
    assert(es.take(i as int) =~= es);
    while i > 0
        invariant
            i <= entities@.len(),
            es == crate::graph::types::entity_views(entities@),
            last_entity(es, id@) == last_entity(es.take(i as int), id@),
        decreases i,
    {
        i = i - 1;
        assert(es.take(i + 1).drop_last() =~= es.take(i as int));
        assert(es.take(i + 1).last() == entities@[i as int]@);
        if str_eq(entities[i].id.as_str(), id.as_str()) {
            return entities[i].canonical_name.as_str();
        }
    }
    assert(es.take(0) =~= Seq::<EntityNodeView>::empty());
    id.as_str()
}

fn relation_phrase_exec(t: RelationType) -> (r: &'static str)
    ensures
        r@ == relation_phrase(t),
{
    match t {
        RelationType::RelatedTo => "is related to",
        RelationType::Contrasts => "contrasts with",
        RelationType::Prerequisite => "is a prerequisite for",
        RelationType::Consequence => "leads to",
        RelationType::Example => "is an example of",
        RelationType::CounterExample => "is a counter-example to",
    }
}

fn append_related(context: &mut String, points: &Vec<crate::graph::types::KnowledgePoint>)
    ensures
        final(context)@ == old(context)@ + related_section(crate::graph::types::point_views(points@)),
{
    let ghost ps = crate::graph::types::point_views(points@);
    if points.len() > 0 {
        context.append("RELATED KNOWLEDGE POINTS (for context):\n");
        let ghost start = context@;
        for i in 0..points.len()
            invariant
                ps == crate::graph::types::point_views(points@),
                context@ == start + related_lines(ps.take(i as int)),
        {
            assert(ps.take(i + 1).drop_last() =~= ps.take(i as int));
            assert(ps.take(i + 1).last() == points@[i as int]@);
            context.append("- ");
            context.append(points[i].point.as_str());
            context.append("\n");
        }
        assert(ps.take(points@.len() as int) =~= ps);
        context.append("\n");
    }
}

fn append_relations(context: &mut String, relations: &Vec<Relation>, entities: &Vec<EntityNode>)
    ensures
        final(context)@ == old(context)@ + relations_section(
            crate::graph::types::relation_views(relations@),
            crate::graph::types::entity_views(entities@),
        ),
{
    let ghost rs = crate::graph::types::relation_views(relations@);
    let ghost es = crate::graph::types::entity_views(entities@);
    if relations.len() > 0 {
        context.append("KEY RELATIONSHIPS:\n");
        let ghost start = context@;
        for i in 0..relations.len()
            invariant
                rs == crate::graph::types::relation_views(relations@),
                es == crate::graph::types::entity_views(entities@),
                context@ == start + relation_lines(rs.take(i as int), es),
        {
            let rel = &relations[i];
            assert(rs.take(i + 1).drop_last() =~= rs.take(i as int));
            assert(rs.take(i + 1).last() == rel@);
            let source_name = display_name_exec(entities, &rel.source_id);
            let target_name = display_name_exec(entities, &rel.target_id);
            context.append("- ");
            context.append(source_name);
            context.append(" ");
            context.append(relation_phrase_exec(rel.relation_type));
            context.append(" ");
            context.append(target_name);
            context.append("\n");
        }
        assert(rs.take(relations@.len() as int) =~= rs);
        context.append("\n");
    }
}

fn append_entities(context: &mut String, entities: &Vec<EntityNode>)
    ensures
        final(context)@ == old(context)@ + entities_section(crate::graph::types::entity_views(entities@)),
{
    let ghost es = crate::graph::types::entity_views(entities@);
    if entities.len() > 0 {
        context.append("SUPPORTING ENTITIES:\n");
        let ghost start = context@;
        for i in 0..entities.len()
            invariant
                es == crate::graph::types::entity_views(entities@),
                context@ == start + entity_lines(es.take(i as int)),
        {
            assert(es.take(i + 1).drop_last() =~= es.take(i as int));
            assert(es.take(i + 1).last() == entities@[i as int]@);
            context.append("- ");
            context.append(entities[i].canonical_name.as_str());
            context.append("\n");
        }
        assert(es.take(entities@.len() as int) =~= es);
        context.append("\n");
    }
}

/// Renders a bundle into the context text of the user prompt; internal
/// entity IDs appear only for relation ends no supporting entity names.
pub fn render_bundle_context(bundle: &GraphContextBundle) -> (r: String)
    ensures
        r@ == rendered_context(bundle@),
{
    let mut context = String::from_str("ROOT KNOWLEDGE POINT:\n");
    context.append(bundle.root_point.point.as_str());
    context.append("\n\n");
    let hint = match bundle.question_type {
        QuestionType::Recall => "Question type: RECALL — focus on testing direct knowledge of this concept.",
        QuestionType::Relational => "Question type: RELATIONAL — focus on connections between this concept and others below.",
    };
    context.append(hint);
    context.append("\n\n");
    append_related(&mut context, &bundle.related_points);
    append_relations(&mut context, &bundle.supporting_relations, &bundle.supporting_entities);
    append_entities(&mut context, &bundle.supporting_entities);
    context.append(BUNDLE_CLOSING);
    context
}

/// The complete user prompt: the rendered context followed by the JSON
/// shape to answer with.
pub fn build_user_prompt(bundle: &GraphContextBundle) -> (r: String)
    ensures
        r@ == rendered_context(bundle@) + RESPONSE_SCHEMA_HINT@,
{
    let mut prompt = render_bundle_context(bundle);
    prompt.append(RESPONSE_SCHEMA_HINT);
    prompt
}

// =====================================================================
// Laws
// =====================================================================
proof fn lemma_relation_lines_prefix(rs: Seq<RelationView>, es: Seq<EntityNodeView>, j: int) -> (rest: Seq<char>)
    requires
        0 <= j <= rs.len(),
    ensures
        relation_lines(rs, es) == relation_lines(rs.take(j), es) + rest,
    decreases rs.len(),
{
    if j == rs.len() {
        assert(rs.take(j) =~= rs);
        assert(relation_lines(rs, es) =~= relation_lines(rs.take(j), es) + Seq::<char>::empty());
        Seq::empty()
    } else {
        let init = rs.drop_last();
        let rest0 = lemma_relation_lines_prefix(init, es, j);
        assert(init.take(j) =~= rs.take(j));
        let r = rs.last();
        let line = "- "@ + display_name(es, r.source_id) + " "@ + relation_phrase(r.relation_type) + " "@
            + display_name(es, r.target_id) + "\n"@;
        assert(relation_lines(rs, es) == relation_lines(init, es) + line);
        assert(relation_lines(rs, es) =~= relation_lines(rs.take(j), es) + (rest0 + line));
        rest0 + line
    }
}

/// The length of a relation type's phrase.
spec fn phrase_len(t: RelationType) -> nat {
    match t {
        RelationType::RelatedTo => 13,
        RelationType::Contrasts => 14,
        RelationType::Prerequisite => 21,
        RelationType::Consequence => 8,
        RelationType::Example => 16,
        RelationType::CounterExample => 23,
    }
}

proof fn lemma_phrase_len(t: RelationType)
    ensures
        relation_phrase(t).len() == phrase_len(t),
{
    match t {
        RelationType::RelatedTo => {
            reveal_strlit("is related to");
        },
        RelationType::Contrasts => {
            reveal_strlit("contrasts with");
        },
        RelationType::Prerequisite => {
            reveal_strlit("is a prerequisite for");
        },
        RelationType::Consequence => {
            reveal_strlit("leads to");
        },
        RelationType::Example => {
            reveal_strlit("is an example of");
        },
        RelationType::CounterExample => {
            reveal_strlit("is a counter-example to");
        },
    }
}

/// Different relation types read differently: no two types share a phrase.
pub proof fn lemma_relation_phrases_distinct(a: RelationType, b: RelationType)
    ensures
        relation_phrase(a) == relation_phrase(b) ==> a == b,
{
    lemma_phrase_len(a);
    lemma_phrase_len(b);
}

/// Each supporting relation of a bundle appears in its rendered context as
/// one line: `- `, the display name of the relation's source, the phrase
/// of its type, the display name of its target, and a line break.
#[verifier::spinoff_prover]
#[verifier::rlimit(40)]
pub proof fn lemma_rendered_relation_line(b: GraphContextBundleView, k: int)
    requires
        0 <= k < b.supporting_relations.len(),
    ensures
        ({
            let r = b.supporting_relations[k];
            let line = "- "@ + display_name(b.supporting_entities, r.source_id) + " "@ + relation_phrase(
                r.relation_type,
            ) + " "@ + display_name(b.supporting_entities, r.target_id) + "\n"@;
            exists|p: int|
                0 <= p && p + line.len() <= rendered_context(b).len() && #[trigger] rendered_context(b).subrange(
                    p,
                    p + line.len(),
                ) == line
        }),
{
    let rs = b.supporting_relations;
    let es = b.supporting_entities;
    let r = rs[k];
    let line = "- "@ + display_name(es, r.source_id) + " "@ + relation_phrase(r.relation_type) + " "@
        + display_name(es, r.target_id) + "\n"@;
    let tail = lemma_relation_lines_prefix(rs, es, k + 1);
    let front = rs.take(k + 1);
    assert(front.drop_last() =~= rs.take(k));
    assert(front.last() == r);
    assert(relation_lines(front, es) == relation_lines(rs.take(k), es) + line);
    let head = "ROOT KNOWLEDGE POINT:\n"@ + b.root_point.point + "\n\n"@ + question_type_hint(b.question_type)
        + "\n\n"@ + related_section(b.related_points) + "KEY RELATIONSHIPS:\n"@ + relation_lines(
        rs.take(k),
        es,
    );
    let after = tail + "\n"@ + entities_section(es) + BUNDLE_CLOSING@;
    assert(rendered_context(b) =~= head + line + after);
    let p = head.len() as int;
    assert(rendered_context(b).subrange(p, p + line.len()) =~= line);
}

} // verus!
