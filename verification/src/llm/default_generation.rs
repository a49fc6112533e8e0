//! Prompts for the two default generation stages: Stage A extracts key
//! points from a note chunk, Stage B turns key points into learning items.
use vstd::prelude::*;

verus! {

/// System prompt of Stage A.
pub const STAGE_A_SYSTEM_PROMPT: &'static str = "You are generating knowledge extraction output for active recall. Return strict JSON only, no markdown, no prose.";

/// System prompt of Stage B.
pub const STAGE_B_SYSTEM_PROMPT: &'static str = "You are generating atomic learning items for active recall. Each item has one shared answer, a required flashcard, and an optional MCQ variant. Return strict JSON only, no markdown, no prose.";

/// Stage A user prompt text before the chunk.
pub const STAGE_A_USER_PROMPT_OPENING: &'static str = "Extract concrete knowledge points from this markdown chunk for study review. Only include points that represent stable, testable knowledge. Ignore navigation text, filler, personal journaling, and weak context that does not stand on its own. If the chunk does not contain enough real knowledge to study, return an empty array. Return exactly this JSON shape and nothing else: {\"key_points\":[{\"knowledge_point\":\"...\"}]}. Examples: {\"key_points\":[]} or {\"key_points\":[{\"knowledge_point\":\"...\"}]}.\n\nChunk:\n";

/// Stage B user prompt text before the chunk.
pub const STAGE_B_USER_PROMPT_OPENING: &'static str = "Given this markdown chunk and extracted key points, create up to 4 atomic learning items for active recall. Use at most one learning item per key point and prioritize the strongest distinct concepts. Copy knowledge_point_id exactly from the supplied key points; never invent an ID. Each item must contain one target, one concise canonical answer, and one required flashcard prompt. The target should state the specific knowledge the learner is expected to retain, not merely repeat the question. The flashcard prompt must be self-contained and answerable without access to the source chunk. The canonical answer must directly and grammatically answer the flashcard prompt, contain enough information to satisfy the target, and remain understandable when read on its own. Do not begin or depend on context-only pronouns such as 'it', 'this', 'that', or 'they' when the referenced subject would be unclear without the prompt; briefly restate the subject instead. If the prompt asks how, why, or for an explanation, include the essential mechanism, causal link, or reasoning needed to answer that request; do not merely name the outcome, process, or concept. Keep the canonical answer concise after completeness is satisfied; do not add unrelated facts or turn it into a paragraph. The root answer is shared by both variants; do not put a second correct answer inside the MCQ. Add an MCQ only when you can produce exactly 3 plausible, distinct distractors with exactly one defensible answer. When the flashcard wording also works for the MCQ, set mcq.prompt to null. Otherwise provide a self-contained MCQ prompt that tests the same target and has the same root answer. When an MCQ is unsuitable, set mcq to null and set mcq_omission_reason to a short plain-language explanation of why a good MCQ could not be produced. When an MCQ is present, set mcq_omission_reason to null. If concepts overlap, generate fewer items instead of duplicates. All content must be grounded in the chunk. Include any essential facts from an example, code block, image, diagram, figure, or table directly in the prompt. Never refer to unspecified context with wording such as 'the example', 'shown above', 'shown below', or 'the following configuration'. Do not rely on distractors to supply context missing from the prompt. Base items only on source information that can be restated faithfully as text. Avoid trick wording and semantic duplicates. Before returning, self-check schema compliance, grounding, uniqueness, and non-empty core fields. Return exactly this JSON shape and nothing else: {\"items\":[{\"knowledge_point_id\":\"kp_1\",\"target\":\"...\",\"answer\":\"...\",\"explanation\":\"... or null\",\"flashcard\":{\"prompt\":\"...\"},\"mcq\":{\"prompt\":null,\"distractors\":[\"...\",\"...\",\"...\"]},\"mcq_omission_reason\":null}]}. For a flashcard-only item, use \"mcq\":null and a non-null omission reason.\n\nChunk:\n";

/// Stage B user prompt text between the chunk and the key points.
pub const STAGE_B_KEY_POINTS_HEADING: &'static str = "\n\nKey points with IDs JSON:\n";

/// The Stage A user prompt: the extraction instructions, then the chunk.
pub open spec fn stage_a_user_prompt(chunk: Seq<char>) -> Seq<char> {
    STAGE_A_USER_PROMPT_OPENING@ + chunk
}

/// The Stage B user prompt: the item-writing instructions, the chunk, then
/// the key points with their IDs as JSON.
pub open spec fn stage_b_user_prompt(chunk: Seq<char>, key_points_json: Seq<char>) -> Seq<char> {
    STAGE_B_USER_PROMPT_OPENING@ + chunk + STAGE_B_KEY_POINTS_HEADING@ + key_points_json
}

/// Renders the Stage A user prompt for a Markdown chunk.
pub fn format_stage_a_user_prompt(chunk_markdown: &str) -> (r: String)
    ensures
        r@ == stage_a_user_prompt(chunk_markdown@),
{
    let mut out = String::from_str(STAGE_A_USER_PROMPT_OPENING);
    out.append(chunk_markdown);
    out
}

/// Renders the Stage B user prompt for a Markdown chunk and its key points
/// serialized as JSON.
pub fn format_stage_b_user_prompt(chunk_markdown: &str, key_points_json: &str) -> (r: String)
    ensures
        r@ == stage_b_user_prompt(chunk_markdown@, key_points_json@),
{
    let mut out = String::from_str(STAGE_B_USER_PROMPT_OPENING);
    out.append(chunk_markdown);
    out.append(STAGE_B_KEY_POINTS_HEADING);
    out.append(key_points_json);
    out
}

} // verus!
