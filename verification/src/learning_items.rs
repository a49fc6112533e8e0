//! Learning items: the editable unit of study, with one shared answer and
//! a flashcard and/or multiple-choice variant.
//!
//! This module holds the rules around the item store: how generated output
//! and legacy multiple-choice questions become item input, what input may be
//! saved, how a review response is graded, and how an item is shown in the
//! legacy question form. Reading and writing the store happens at the edge
//! of the program.
use vstd::prelude::*;

use crate::graph::types::opt_str;
use crate::scheduler::Rating;
use crate::text::{is_blank, is_blank_seq, lowercase, push_char, str_eq, strs, to_lowercase, trim, trim_seq};

verus! {

// =====================================================================
// Item input
// =====================================================================
/// One answer option of a multiple-choice variant.
#[derive(Debug, Clone, PartialEq, Eq)]
pub struct McqOption {
    /// Stable option identity (`A`..`D` for generated items).
    pub id: String,
    pub text: String,
}

/// A question variant as entered or generated.
#[derive(Debug, Clone, PartialEq, Eq)]
pub enum VariantInput {
    Flashcard { prompt: String },
    Mcq { prompt: String, options: Vec<McqOption>, correct_option_id: String },
}

/// The generation pipeline that produced an item.
#[derive(Debug, Clone, Copy, PartialEq, Eq, Structural)]
pub enum GenerationPipeline {
    Chunk,
    Graph,
}

/// Where and how an item was generated.
#[derive(Debug, Clone, PartialEq, Eq)]
pub struct GenerationMetadata {
    pub model: Option<String>,
    pub provider: Option<String>,
    pub pipeline: Option<GenerationPipeline>,
    pub generated_at: Option<String>,
}

/// The note passage an item was generated from.
#[derive(Debug, Clone, PartialEq, Eq)]
pub struct SourceReference {
    pub note_path: String,
    pub start_line: u64,
    pub end_line: u64,
    pub knowledge_point: String,
}

/// The content of a learning item to save.
#[derive(Debug, Clone, PartialEq, Eq)]
pub struct LearningItemInput {
    /// What the item teaches; required for flashcards.
    pub target: Option<String>,
    /// The answer shared by every variant.
    pub answer: String,
    pub explanation: Option<String>,
    pub space_id: i64,
    pub generation: GenerationMetadata,
    pub source: Option<SourceReference>,
    pub variants: Vec<VariantInput>,
}

/// The flashcard of a generated item.
#[derive(Debug, Clone, PartialEq, Eq)]
pub struct GeneratedFlashcard {
    pub prompt: String,
}

/// The multiple-choice part of a generated item: the wrong answers, and a
/// prompt when it differs from the flashcard's.
#[derive(Debug, Clone, PartialEq, Eq)]
pub struct GeneratedMcq {
    pub prompt: Option<String>,
    pub distractors: Vec<String>,
}

/// One learning item as the generator returns it.
#[derive(Debug, Clone, PartialEq, Eq)]
pub struct GeneratedItem {
    /// The supplied key point the item was written for.
    pub knowledge_point_id: String,
    pub target: String,
    pub answer: String,
    pub explanation: Option<String>,
    pub flashcard: GeneratedFlashcard,
    pub mcq: Option<GeneratedMcq>,
    /// Why no multiple-choice variant was written, when there is none.
    pub mcq_omission_reason: Option<String>,
}

/// A legacy four-option question with its correct label (`A`..`D`).
#[derive(Debug, Clone, PartialEq, Eq)]
pub struct QuestionInput {
    pub question: String,
    pub option_a: String,
    pub option_b: String,
    pub option_c: String,
    pub option_d: String,
    pub correct_answer: String,
    pub explanation: Option<String>,
    pub space_id: i64,
}

// =====================================================================
// Views
// =====================================================================
pub struct McqOptionView {
    pub id: Seq<char>,
    pub text: Seq<char>,
}

impl View for McqOption {
    type V = McqOptionView;

    open spec fn view(&self) -> McqOptionView {
        McqOptionView { id: self.id@, text: self.text@ }
    }
}

/// Views of a list of options.
pub open spec fn option_views(os: Seq<McqOption>) -> Seq<McqOptionView> {
    os.map_values(|o: McqOption| o@)
}

pub enum VariantInputView {
    Flashcard { prompt: Seq<char> },
    Mcq { prompt: Seq<char>, options: Seq<McqOptionView>, correct_option_id: Seq<char> },
}

impl View for VariantInput {
    type V = VariantInputView;

    open spec fn view(&self) -> VariantInputView {
        match self {
            VariantInput::Flashcard { prompt } => VariantInputView::Flashcard { prompt: prompt@ },
            VariantInput::Mcq { prompt, options, correct_option_id } => VariantInputView::Mcq {
                prompt: prompt@,
                options: option_views(options@),
                correct_option_id: correct_option_id@,
            },
        }
    }
}

/// Views of a list of variants.
pub open spec fn variant_views(vs: Seq<VariantInput>) -> Seq<VariantInputView> {
    vs.map_values(|v: VariantInput| v@)
}

pub struct GenerationMetadataView {
    pub model: Option<Seq<char>>,
    pub provider: Option<Seq<char>>,
    pub pipeline: Option<GenerationPipeline>,
    pub generated_at: Option<Seq<char>>,
}

impl View for GenerationMetadata {
    type V = GenerationMetadataView;

    open spec fn view(&self) -> GenerationMetadataView {
        GenerationMetadataView {
            model: opt_str(self.model),
            provider: opt_str(self.provider),
            pipeline: self.pipeline,
            generated_at: opt_str(self.generated_at),
        }
    }
}

pub struct SourceReferenceView {
    pub note_path: Seq<char>,
    pub start_line: u64,
    pub end_line: u64,
    pub knowledge_point: Seq<char>,
}

impl View for SourceReference {
    type V = SourceReferenceView;

    open spec fn view(&self) -> SourceReferenceView {
        SourceReferenceView {
            note_path: self.note_path@,
            start_line: self.start_line,
            end_line: self.end_line,
            knowledge_point: self.knowledge_point@,
        }
    }
}

pub struct LearningItemInputView {
    pub target: Option<Seq<char>>,
    pub answer: Seq<char>,
    pub explanation: Option<Seq<char>>,
    pub space_id: i64,
    pub generation: GenerationMetadataView,
    pub source: Option<SourceReferenceView>,
    pub variants: Seq<VariantInputView>,
}

impl View for LearningItemInput {
    type V = LearningItemInputView;

    open spec fn view(&self) -> LearningItemInputView {
        LearningItemInputView {
            target: opt_str(self.target),
            answer: self.answer@,
            explanation: opt_str(self.explanation),
            space_id: self.space_id,
            generation: self.generation@,
            source: match self.source {
                Some(s) => Some(s@),
                None => None,
            },
            variants: variant_views(self.variants@),
        }
    }
}

// =====================================================================
// Option labels
// =====================================================================
/// The label of the option at position `i`: `A` for the first, then on
/// through the character codes.
pub open spec fn option_label(i: nat) -> Seq<char> {
    seq![((65 + i) as u8) as char]
}

fn label_of(index: usize) -> (r: String)
    requires
        index <= 190,
    ensures
        r@ == option_label(index as nat),
{
    let code: u8 = 65u8 + (index as u8);
    let mut out = String::new();
    push_char(&mut out, code as char);
    out
}

/// Options labelled in order, with the given texts.
pub open spec fn labelled_options(texts: Seq<Seq<char>>) -> Seq<McqOptionView> {
    Seq::new(texts.len(), |i: int| McqOptionView { id: option_label(i as nat), text: texts[i] })
}

fn labelled(texts: &Vec<String>) -> (r: Vec<McqOption>)
    requires
        texts@.len() <= 191,
    ensures
        option_views(r@) =~= labelled_options(strs(texts@)),
{
    let mut out: Vec<McqOption> = Vec::new();
    for i in 0..texts.len()
        invariant
            texts@.len() <= 191,
            out@.len() == i,
            forall|k: int| 0 <= k < i ==> (#[trigger] out@[k])@ == labelled_options(strs(texts@))[k],
    {
        let id = label_of(i);
        out.push(McqOption { id, text: texts[i].clone() });
    }
    out
}

// =====================================================================
// Finding options
// =====================================================================
/// The position of the first option with the given ID.
pub open spec fn first_with_id(os: Seq<McqOptionView>, id: Seq<char>) -> Option<int>
    decreases os.len(),
{
    if os.len() == 0 {
        None
    } else if os[0].id == id {
        Some(0)
    } else {
        match first_with_id(os.drop_first(), id) {
            Some(k) => Some(k + 1),
            None => None,
        }
    }
}

proof fn lemma_first_with_id(os: Seq<McqOptionView>, id: Seq<char>, i: int)
    requires
        0 <= i <= os.len(),
        forall|k: int| 0 <= k < i ==> (#[trigger] os[k]).id != id,
    ensures
        i < os.len() && os[i].id == id ==> first_with_id(os, id) == Some(i),
        i == os.len() ==> first_with_id(os, id) is None,
        first_with_id(os, id) matches Some(k) ==> i <= k < os.len() && os[k].id == id,
    decreases os.len(),
{
    if os.len() > 0 && i > 0 {
        let rest = os.drop_first();
        assert forall|k: int| 0 <= k < i - 1 implies (#[trigger] rest[k]).id != id by {
            assert(rest[k] == os[k + 1]);
        }
        assert(os[0].id != id);
        lemma_first_with_id(rest, id, i - 1);
        if i < os.len() {
            assert(rest[i - 1] == os[i]);
        }
        if first_with_id(rest, id) is Some {
            let k = first_with_id(rest, id)->Some_0;
            assert(rest[k] == os[k + 1]);
        }
    } else if os.len() > 0 {
        if os[0].id != id {
            lemma_first_with_id(os.drop_first(), id, 0);
            if first_with_id(os.drop_first(), id) is Some {
                let k = first_with_id(os.drop_first(), id)->Some_0;
                assert(os.drop_first()[k] == os[k + 1]);
            }
        }
    }
}

/// The position of the first option with the given ID, if any.
fn find_option(options: &Vec<McqOption>, id: &str) -> (r: Option<usize>)
    ensures
        match first_with_id(option_views(options@), id@) {
            Some(k) => 0 <= k < options@.len() && r == Some(k as usize),
            None => r is None,
        },
{
    let ghost os = option_views(options@);
    for i in 0..options.len()
        invariant
            os == option_views(options@),
            os.len() == options@.len(),
            forall|k: int| 0 <= k < i ==> (#[trigger] os[k]).id != id@,
    {
        if str_eq(options[i].id.as_str(), id) {
            proof {
                lemma_first_with_id(os, id@, i as int);
            }
            return Some(i);
        }
        assert(os[i as int] == options@[i as int]@);
    }
    proof {
        lemma_first_with_id(os, id@, os.len() as int);
    }
    None
}

// =====================================================================
// Building item input
// =====================================================================
pub const INVALID_ANSWER_LABEL_MESSAGE: &'static str = "Invalid correct answer label";

pub const SPACE_REQUIRED_MESSAGE: &'static str = "Recall space is required";

pub const CHUNK_PIPELINE_MESSAGE: &'static str = "Generated learning-item saves require the chunk pipeline";

/// The four option texts of a legacy question, in label order.
pub open spec fn question_texts(q: QuestionInput) -> Seq<Seq<char>> {
    seq![q.option_a@, q.option_b@, q.option_c@, q.option_d@]
}

/// The item input of a legacy question: its options labelled `A`..`D`, the
/// correct option's text as the shared answer, no flashcard, and space 1
/// when the question has none.
pub open spec fn legacy_input(q: QuestionInput, model: Seq<char>, answer: Seq<char>) -> LearningItemInputView {
    LearningItemInputView {
        target: None,
        answer,
        explanation: opt_str(q.explanation),
        space_id: if q.space_id > 0 {
            q.space_id
        } else {
            1
        },
        generation: GenerationMetadataView {
            model: Some(model),
            provider: None,
            pipeline: None,
            generated_at: None,
        },
        source: None,
        variants: seq![
            VariantInputView::Mcq {
                prompt: q.question@,
                options: labelled_options(question_texts(q)),
                correct_option_id: q.correct_answer@,
            },
        ],
    }
}

/// Converts a legacy multiple-choice question into item input; no
/// flashcard is invented.
pub fn from_mcq(question: QuestionInput, model: String) -> (r: Result<LearningItemInput, String>)
    ensures
        match first_with_id(labelled_options(question_texts(question)), question.correct_answer@) {
            Some(k) => r matches Ok(input) && input@ == legacy_input(
                question,
                model@,
                question_texts(question)[k],
            ),
            None => r matches Err(m) && m@ == INVALID_ANSWER_LABEL_MESSAGE@,
        },
{
    let texts = vec![
        question.option_a.clone(),
        question.option_b.clone(),
        question.option_c.clone(),
        question.option_d.clone(),
    ];
    assert(strs(texts@) =~= question_texts(question));
    let options = labelled(&texts);
    assert(option_views(options@) == labelled_options(question_texts(question)));
    let index = match find_option(&options, question.correct_answer.as_str()) {
        Some(k) => k,
        None => {
            return Err(String::from_str(INVALID_ANSWER_LABEL_MESSAGE));
        },
    };
    let answer = options[index].text.clone();
    assert(option_views(options@)[index as int] == options@[index as int]@);
    let space_id = if question.space_id > 0 {
        question.space_id
    } else {
        1
    };
    let variant = VariantInput::Mcq {
        prompt: question.question,
        options,
        correct_option_id: question.correct_answer,
    };
    let input = LearningItemInput {
        target: None,
        answer,
        explanation: question.explanation,
        space_id,
        generation: GenerationMetadata { model: Some(model), provider: None, pipeline: None, generated_at: None },
        source: None,
        variants: vec![variant],
    };
    assert(input@.variants =~= legacy_input(question, model@, question_texts(question)[index as int]).variants);
    Ok(input)
}

/// The variants of a generated item: its flashcard, then, when it has one,
/// a multiple-choice variant whose options are the distractors with the
/// answer inserted at `correct_index % 4`, labelled in order.
pub open spec fn generated_variants(c: GeneratedItem, correct_index: nat) -> Seq<VariantInputView> {
    let flashcard = VariantInputView::Flashcard { prompt: c.flashcard.prompt@ };
    match c.mcq {
        None => seq![flashcard],
        Some(m) => {
            let at = (correct_index % 4) as int;
            seq![
                flashcard,
                VariantInputView::Mcq {
                    prompt: match m.prompt {
                        Some(p) => p@,
                        None => c.flashcard.prompt@,
                    },
                    options: labelled_options(strs(m.distractors@).insert(at, c.answer@)),
                    correct_option_id: option_label(at as nat),
                },
            ]
        },
    }
}

/// The item input of generated content saved with its provenance.
pub open spec fn generated_input(
    c: GeneratedItem,
    space_id: i64,
    generation: GenerationMetadataView,
    source: SourceReferenceView,
    correct_index: nat,
) -> LearningItemInputView {
    LearningItemInputView {
        target: Some(c.target@),
        answer: c.answer@,
        explanation: opt_str(c.explanation),
        space_id,
        generation,
        source: Some(source),
        variants: generated_variants(c, correct_index),
    }
}

/// Turns generated content into item input with the provenance the
/// backend records; only the chunk pipeline may save generated items.
pub fn from_generated(
    content: GeneratedItem,
    space_id: i64,
    generation: GenerationMetadata,
    source: SourceReference,
    correct_index: usize,
) -> (r: Result<LearningItemInput, String>)
    requires
        content.mcq matches Some(m) ==> correct_index % 4 <= m.distractors@.len() <= 190,
    ensures
        space_id <= 0 ==> (r matches Err(m) && m@ == SPACE_REQUIRED_MESSAGE@),
        space_id > 0 && generation.pipeline != Some(GenerationPipeline::Chunk) ==> (r matches Err(m) && m@
            == CHUNK_PIPELINE_MESSAGE@),
        space_id > 0 && generation.pipeline == Some(GenerationPipeline::Chunk) ==> (r matches Ok(input)
            && input@ == generated_input(content, space_id, generation@, source@, correct_index as nat)),
{
    if space_id <= 0 {
        return Err(String::from_str(SPACE_REQUIRED_MESSAGE));
    }
    let chunk = match generation.pipeline {
        Some(GenerationPipeline::Chunk) => true,
        _ => false,
    };
    if !chunk {
        return Err(String::from_str(CHUNK_PIPELINE_MESSAGE));
    }
    let ghost c = content;
    let flashcard = VariantInput::Flashcard { prompt: content.flashcard.prompt.clone() };
    let mut variants = vec![flashcard];
    match content.mcq {
        Some(mcq) => {
            let at = correct_index % 4;
            let mut texts = mcq.distractors;
            let ghost before = strs(texts@);
            texts.insert(at, content.answer.clone());
            assert(strs(texts@) =~= before.insert(at as int, c.answer@));
            let options = labelled(&texts);
            let prompt = match mcq.prompt {
                Some(p) => p,
                None => content.flashcard.prompt.clone(),
            };
            let correct_option_id = label_of(at);
            variants.push(VariantInput::Mcq { prompt, options, correct_option_id });
            assert(variant_views(variants@) =~= generated_variants(c, correct_index as nat));
        },
        None => {
            assert(variant_views(variants@) =~= generated_variants(c, correct_index as nat));
        },
    }
    let input = LearningItemInput {
        target: Some(content.target),
        answer: content.answer,
        explanation: content.explanation,
        space_id,
        generation,
        source: Some(source),
        variants,
    };
    Ok(input)
}

// =====================================================================
// Input validation
// =====================================================================
pub const REQUIRED_FIELDS_MESSAGE: &'static str = "Answer, variants and recall space are required";

pub const FLASHCARD_TARGET_MESSAGE: &'static str = "Flashcards need an explicit learning target";

pub const FOUR_OPTIONS_MESSAGE: &'static str = "MCQ requires four options";

pub const DISTINCT_OPTIONS_MESSAGE: &'static str = "MCQ options must be nonempty and distinct";

pub const CORRECT_OPTION_MESSAGE: &'static str = "Invalid correct option ID";

pub const PROMPT_FORMAT_MESSAGE: &'static str = "Empty prompt or duplicate format";

/// Options compare by their trimmed, lower-cased text.
pub open spec fn option_key(o: McqOptionView) -> Seq<char> {
    lowercase(trim_seq(o.text))
}

/// Every option has a non-blank ID and text, and no two share an ID or a
/// compared text.
pub open spec fn options_distinct(os: Seq<McqOptionView>) -> bool {
    &&& forall|i: int| 0 <= i < os.len() ==> !is_blank_seq((#[trigger] os[i]).id) && !is_blank_seq(os[i].text)
    &&& forall|i: int, j: int|
        0 <= i < j < os.len() ==> (#[trigger] os[i]).id != (#[trigger] os[j]).id && option_key(os[i])
            != option_key(os[j])
}

/// Some variant of `vs` has the multiple-choice format (`mcq`) or the
/// flashcard format (`!mcq`).
pub open spec fn has_format(vs: Seq<VariantInputView>, mcq: bool) -> bool {
    exists|k: int| 0 <= k < vs.len() && ((#[trigger] vs[k]) is Mcq) == mcq
}

/// The problem of one variant, given the item's target and the variants
/// before it.
pub open spec fn variant_problem(
    target: Option<Seq<char>>,
    v: VariantInputView,
    earlier: Seq<VariantInputView>,
) -> Option<Seq<char>> {
    match v {
        VariantInputView::Flashcard { prompt } => if target is None || is_blank_seq(target->0) {
            Some(FLASHCARD_TARGET_MESSAGE@)
        } else if is_blank_seq(prompt) || has_format(earlier, false) {
            Some(PROMPT_FORMAT_MESSAGE@)
        } else {
            None
        },
        VariantInputView::Mcq { prompt, options, correct_option_id } => if options.len() != 4 {
            Some(FOUR_OPTIONS_MESSAGE@)
        } else if !options_distinct(options) {
            Some(DISTINCT_OPTIONS_MESSAGE@)
        } else if first_with_id(options, correct_option_id) is None {
            Some(CORRECT_OPTION_MESSAGE@)
        } else if is_blank_seq(prompt) || has_format(earlier, true) {
            Some(PROMPT_FORMAT_MESSAGE@)
        } else {
            None
        },
    }
}

/// The first problem among the variants, in order.
pub open spec fn variants_problem(target: Option<Seq<char>>, vs: Seq<VariantInputView>) -> Option<Seq<char>>
    decreases vs.len(),
{
    if vs.len() == 0 {
        None
    } else {
        match variants_problem(target, vs.drop_last()) {
            Some(e) => Some(e),
            None => variant_problem(target, vs.last(), vs.drop_last()),
        }
    }
}

/// Why item input cannot be saved: a blank answer, no variants or no
/// space, then the first variant problem; `None` when it can.
pub open spec fn input_problem(i: LearningItemInputView) -> Option<Seq<char>> {
    if is_blank_seq(i.answer) || i.variants.len() == 0 || i.space_id <= 0 {
        Some(REQUIRED_FIELDS_MESSAGE@)
    } else {
        variants_problem(i.target, i.variants)
    }
}

fn options_are_distinct(options: &Vec<McqOption>) -> (r: bool)
    ensures
        r == options_distinct(option_views(options@)),
{
    let ghost os = option_views(options@);
    let mut keys: Vec<String> = Vec::new();
    for i in 0..options.len()
        invariant
            os == option_views(options@),
            os.len() == options@.len(),
            keys@.len() == i,
            forall|k: int| 0 <= k < i ==> (#[trigger] keys@[k])@ == option_key(os[k]),
            forall|k: int| 0 <= k < i ==> !is_blank_seq((#[trigger] os[k]).id) && !is_blank_seq(os[k].text),
            forall|a: int, b: int|
                0 <= a < b < i ==> (#[trigger] os[a]).id != (#[trigger] os[b]).id && option_key(os[a])
                    != option_key(os[b]),
    {
        let option = &options[i];
        assert(os[i as int] == option@);
        if is_blank(option.id.as_str()) || is_blank(option.text.as_str()) {
            return false;
        }
        let trimmed = trim(option.text.as_str());
        let key = to_lowercase(trimmed.as_str());
        for j in 0..i
            invariant
                os == option_views(options@),
                os.len() == options@.len(),
                i < options@.len(),
                *option == options@[i as int],
                os[i as int] == options@[i as int]@,
                keys@.len() == i,
                key@ == option_key(os[i as int]),
                forall|k: int| 0 <= k < i ==> (#[trigger] keys@[k])@ == option_key(os[k]),
                forall|a: int| 0 <= a < j ==> (#[trigger] os[a]).id != os[i as int].id && option_key(os[a])
                    != option_key(os[i as int]),
        {
            assert(os[j as int] == options@[j as int]@);
            assert(keys@[j as int]@ == option_key(os[j as int]));
            if str_eq(options[j].id.as_str(), option.id.as_str()) || str_eq(keys[j].as_str(), key.as_str()) {
                assert(os[j as int].id == os[i as int].id || option_key(os[j as int]) == option_key(os[i as int]));
                return false;
            }
        }
        keys.push(key);
    }
    true
}

/// Checks one variant given whether a flashcard or multiple-choice variant
/// came before it.
fn check_variant(target: &Option<String>, v: &VariantInput, seen_flashcard: bool, seen_mcq: bool) -> (r: Result<
    (),
    String,
>)
    ensures
        forall|earlier: Seq<VariantInputView>|
            #![trigger variant_problem(opt_str(*target), v@, earlier)]
            has_format(earlier, false) == seen_flashcard && has_format(earlier, true) == seen_mcq ==> match variant_problem(
                opt_str(*target),
                v@,
                earlier,
            ) {
                Some(m) => r matches Err(e) && e@ == m,
                None => r is Ok,
            },
{
    match v {
        VariantInput::Flashcard { prompt } => {
            let has_target = match target {
                Some(t) => !is_blank(t.as_str()),
                None => false,
            };
            if !has_target {
                return Err(String::from_str(FLASHCARD_TARGET_MESSAGE));
            }
            if is_blank(prompt.as_str()) || seen_flashcard {
                return Err(String::from_str(PROMPT_FORMAT_MESSAGE));
            }
            Ok(())
        },
        VariantInput::Mcq { prompt, options, correct_option_id } => {
            if options.len() != 4 {
                return Err(String::from_str(FOUR_OPTIONS_MESSAGE));
            }
            if !options_are_distinct(options) {
                return Err(String::from_str(DISTINCT_OPTIONS_MESSAGE));
            }
            if find_option(options, correct_option_id.as_str()).is_none() {
                return Err(String::from_str(CORRECT_OPTION_MESSAGE));
            }
            if is_blank(prompt.as_str()) || seen_mcq {
                return Err(String::from_str(PROMPT_FORMAT_MESSAGE));
            }
            Ok(())
        },
    }
}

/// Checks that item input may be saved: the shared answer, variants and
/// space are present, and every variant is well formed, with at most one of
/// each format.
pub fn validate(input: &LearningItemInput) -> (r: Result<(), String>)
    ensures
        match input_problem(input@) {
            Some(m) => r matches Err(e) && e@ == m,
            None => r is Ok,
        },
{
    if is_blank(input.answer.as_str()) || input.variants.len() == 0 || input.space_id <= 0 {
        return Err(String::from_str(REQUIRED_FIELDS_MESSAGE));
    }
    let ghost vs = input@.variants;
    let mut seen_flashcard = false;
    let mut seen_mcq = false;
    for i in 0..input.variants.len()
        invariant
            vs == input@.variants,
            vs.len() == input.variants@.len(),
            input_problem(input@) == variants_problem(input@.target, vs),
            variants_problem(input@.target, vs.take(i as int)) is None,
            seen_flashcard == has_format(vs.take(i as int), false),
            seen_mcq == has_format(vs.take(i as int), true),
    {
        let ghost before = vs.take(i as int);
        assert(vs.take(i + 1).drop_last() =~= before);
        assert(vs.take(i + 1).last() == vs[i as int]);
        assert(vs[i as int] == input.variants@[i as int]@);
        let v = &input.variants[i];
        let ghost problem = variant_problem(opt_str(input.target), v@, before);
        assert(variants_problem(input@.target, vs.take(i + 1)) == problem);
        match check_variant(&input.target, v, seen_flashcard, seen_mcq) {
            Err(e) => {
                proof {
                    lemma_variants_problem_prefix(input@.target, vs, i as int + 1);
                }
                return Err(e);
            },
            Ok(()) => {},
        }
        let is_mcq = match v {
            VariantInput::Mcq { .. } => true,
            VariantInput::Flashcard { .. } => false,
        };
        proof {
            let after = vs.take(i + 1);
            assert(after[i as int] == vs[i as int]);
            assert forall|mcq: bool| has_format(after, mcq) == (has_format(before, mcq) || (vs[i as int] is Mcq)
                == mcq) by {
                if has_format(before, mcq) {
                    let k = choose|k: int| 0 <= k < before.len() && ((#[trigger] before[k]) is Mcq) == mcq;
                    assert(after[k] == before[k]);
                }
                if has_format(after, mcq) {
                    let k = choose|k: int| 0 <= k < after.len() && ((#[trigger] after[k]) is Mcq) == mcq;
                    if k < i {
                        assert(before[k] == after[k]);
                    }
                }
            }
        }
        if is_mcq {
            seen_mcq = true;
        } else {
            seen_flashcard = true;
        }
    }
    assert(vs.take(vs.len() as int) =~= vs);
    Ok(())
}

/// A problem among the first `n` variants is the first problem of all.
proof fn lemma_variants_problem_prefix(target: Option<Seq<char>>, vs: Seq<VariantInputView>, n: int)
    requires
        0 <= n <= vs.len(),
        variants_problem(target, vs.take(n)) is Some,
    ensures
        variants_problem(target, vs) == variants_problem(target, vs.take(n)),
    decreases vs.len() - n,
{
    if n < vs.len() {
        assert(vs.take(n + 1).drop_last() =~= vs.take(n));
        lemma_variants_problem_prefix(target, vs, n + 1);
    } else {
        assert(vs.take(n) =~= vs);
    }
}

// =====================================================================
// Saving a multiple-choice variant
// =====================================================================
pub const SHARED_ANSWER_MESSAGE: &'static str = "Shared answer duplicates a distractor";

/// The options with the first option carrying `correct_id` showing the
/// shared answer.
pub open spec fn with_shared_answer(os: Seq<McqOptionView>, correct_id: Seq<char>, answer: Seq<char>) -> Seq<
    McqOptionView,
> {
    match first_with_id(os, correct_id) {
        Some(k) => os.update(k, McqOptionView { id: os[k].id, text: answer }),
        None => os,
    }
}

/// No two options compare equal by trimmed, lower-cased text.
pub open spec fn keys_distinct(os: Seq<McqOptionView>) -> bool {
    forall|i: int, j: int| 0 <= i < j < os.len() ==> option_key(#[trigger] os[i]) != option_key(#[trigger] os[j])
}

/// The options a multiple-choice variant is stored with: the correct option
/// shows the item's shared answer, which must not repeat a distractor.
pub fn sync_shared_answer(options: &Vec<McqOption>, correct_option_id: &str, answer: &str) -> (r: Result<
    Vec<McqOption>,
    String,
>)
    ensures
        keys_distinct(with_shared_answer(option_views(options@), correct_option_id@, answer@)) ==> (r matches Ok(
            synced,
        ) && option_views(synced@) == with_shared_answer(option_views(options@), correct_option_id@, answer@)),
        !keys_distinct(with_shared_answer(option_views(options@), correct_option_id@, answer@)) ==> (r matches Err(
            m,
        ) && m@ == SHARED_ANSWER_MESSAGE@),
{
    let ghost target = with_shared_answer(option_views(options@), correct_option_id@, answer@);
    let found = find_option(options, correct_option_id);
    let mut synced: Vec<McqOption> = Vec::new();
    for i in 0..options.len()
        invariant
            synced@.len() == i,
            i <= options@.len(),
            target == with_shared_answer(option_views(options@), correct_option_id@, answer@),
            match first_with_id(option_views(options@), correct_option_id@) {
                Some(k) => 0 <= k < options@.len() && found == Some(k as usize),
                None => found is None,
            },
            target.len() == options@.len(),
            forall|k: int| 0 <= k < i ==> (#[trigger] synced@[k])@ == target[k],
    {
        assert(option_views(options@)[i as int] == options@[i as int]@);
        let text = if found == Some(i) {
            String::from_str(answer)
        } else {
            options[i].text.clone()
        };
        synced.push(McqOption { id: options[i].id.clone(), text });
    }
    assert(option_views(synced@) =~= target);
    let mut keys: Vec<String> = Vec::new();
    for i in 0..synced.len()
        invariant
            option_views(synced@) == target,
            target == with_shared_answer(option_views(options@), correct_option_id@, answer@),
            keys@.len() == i,
            forall|k: int| 0 <= k < i ==> (#[trigger] keys@[k])@ == option_key(target[k]),
            forall|a: int, b: int| 0 <= a < b < i ==> option_key(#[trigger] target[a]) != option_key(#[trigger] target[b]),
    {
        assert(target[i as int] == synced@[i as int]@);
        let trimmed = trim(synced[i].text.as_str());
        let key = to_lowercase(trimmed.as_str());
        for j in 0..i
            invariant
                option_views(synced@) == target,
                target == with_shared_answer(option_views(options@), correct_option_id@, answer@),
                i < target.len(),
                keys@.len() == i,
                key@ == option_key(target[i as int]),
                forall|k: int| 0 <= k < i ==> (#[trigger] keys@[k])@ == option_key(target[k]),
                forall|a: int| 0 <= a < j ==> option_key(#[trigger] target[a]) != option_key(target[i as int]),
        {
            assert(keys@[j as int]@ == option_key(target[j as int]));
            if str_eq(keys[j].as_str(), key.as_str()) {
                assert(option_key(target[j as int]) == option_key(target[i as int]));
                return Err(String::from_str(SHARED_ANSWER_MESSAGE));
            }
        }
        keys.push(key);
    }
    Ok(synced)
}

// =====================================================================
// Reviews
// =====================================================================
/// Whether an item may be reviewed.
#[derive(Debug, Clone, Copy, PartialEq, Eq, Structural)]
pub enum ItemStatus {
    Ready,
    NeedsRepair,
}

/// The learner's own rating of a flashcard.
#[derive(Debug, Clone, Copy, PartialEq, Eq, Structural)]
pub enum ReviewRating {
    Again,
    Hard,
    Good,
    Easy,
}

/// A stored question variant with its stable ID.
#[derive(Debug, Clone, PartialEq, Eq)]
pub enum QuestionVariant {
    Mcq { id: i64, prompt: String, options: Vec<McqOption>, correct_option_id: String },
    Flashcard { id: i64, prompt: String },
}

/// The learner's answer to one variant.
#[derive(Debug, Clone, PartialEq, Eq)]
pub enum ReviewResponse {
    Mcq { selected_option_id: String },
    Flashcard { rating: ReviewRating },
}

pub enum QuestionVariantView {
    Mcq { id: i64, prompt: Seq<char>, options: Seq<McqOptionView>, correct_option_id: Seq<char> },
    Flashcard { id: i64, prompt: Seq<char> },
}

impl View for QuestionVariant {
    type V = QuestionVariantView;

    open spec fn view(&self) -> QuestionVariantView {
        match self {
            QuestionVariant::Mcq { id, prompt, options, correct_option_id } => QuestionVariantView::Mcq {
                id: *id,
                prompt: prompt@,
                options: option_views(options@),
                correct_option_id: correct_option_id@,
            },
            QuestionVariant::Flashcard { id, prompt } => QuestionVariantView::Flashcard { id: *id, prompt: prompt@ },
        }
    }
}

/// Views of a list of stored variants.
pub open spec fn question_views(vs: Seq<QuestionVariant>) -> Seq<QuestionVariantView> {
    vs.map_values(|v: QuestionVariant| v@)
}

/// The ID of a stored variant.
pub open spec fn variant_id(v: QuestionVariantView) -> i64 {
    match v {
        QuestionVariantView::Mcq { id, .. } => id,
        QuestionVariantView::Flashcard { id, .. } => id,
    }
}

/// The first stored variant with the given ID.
pub open spec fn variant_with_id(vs: Seq<QuestionVariantView>, id: i64) -> Option<QuestionVariantView>
    decreases vs.len(),
{
    if vs.len() == 0 {
        None
    } else if variant_id(vs[0]) == id {
        Some(vs[0])
    } else {
        variant_with_id(vs.drop_first(), id)
    }
}

pub const NEEDS_REPAIR_MESSAGE: &'static str = "Item needs repair";

pub const FOREIGN_VARIANT_MESSAGE: &'static str = "Variant does not belong to this item";

pub const UNKNOWN_OPTION_MESSAGE: &'static str = "Unknown answer option";

pub const FORMAT_MISMATCH_MESSAGE: &'static str = "Response does not match variant format";

/// The scheduling rating of a flashcard self-rating.
pub open spec fn rating_of(r: ReviewRating) -> Rating {
    match r {
        ReviewRating::Again => Rating::Again,
        ReviewRating::Hard => Rating::Hard,
        ReviewRating::Good => Rating::Good,
        ReviewRating::Easy => Rating::Easy,
    }
}

/// How a response to one variant of an item is graded: a multiple-choice
/// answer is `Easy` when correct and `Again` otherwise; a flashcard keeps
/// the learner's rating.
pub open spec fn graded(status: ItemStatus, vs: Seq<QuestionVariantView>, id: i64, response: ReviewResponse) -> Result<
    Rating,
    Seq<char>,
> {
    if status != ItemStatus::Ready {
        Err(NEEDS_REPAIR_MESSAGE@)
    } else {
        match variant_with_id(vs, id) {
            None => Err(FOREIGN_VARIANT_MESSAGE@),
            Some(QuestionVariantView::Mcq { options, correct_option_id, .. }) => match response {
                ReviewResponse::Mcq { selected_option_id } => if first_with_id(options, selected_option_id@) is None {
                    Err(UNKNOWN_OPTION_MESSAGE@)
                } else if correct_option_id == selected_option_id@ {
                    Ok(Rating::Easy)
                } else {
                    Ok(Rating::Again)
                },
                _ => Err(FORMAT_MISMATCH_MESSAGE@),
            },
            Some(QuestionVariantView::Flashcard { .. }) => match response {
                ReviewResponse::Flashcard { rating } => Ok(rating_of(rating)),
                _ => Err(FORMAT_MISMATCH_MESSAGE@),
            },
        }
    }
}

fn find_variant(variants: &Vec<QuestionVariant>, id: i64) -> (r: Option<usize>)
    ensures
        match variant_with_id(question_views(variants@), id) {
            Some(v) => r matches Some(k) && k < variants@.len() && variants@[k as int]@ == v,
            None => r is None,
        },
{
    let ghost vs = question_views(variants@);
    let mut i: usize = 0;
    assert(vs.skip(0) =~= vs);
    while i < variants.len()
        invariant
            vs == question_views(variants@),
            i <= variants@.len(),
            variant_with_id(vs, id) == variant_with_id(vs.skip(i as int), id),
        decreases variants@.len() - i,
    {
        assert(vs.skip(i as int)[0] == variants@[i as int]@);
        assert(vs.skip(i as int).drop_first() =~= vs.skip(i + 1));
        let found = match &variants[i] {
            QuestionVariant::Mcq { id: vid, .. } => *vid == id,
            QuestionVariant::Flashcard { id: vid, .. } => *vid == id,
        };
        if found {
            return Some(i);
        }
        i = i + 1;
    }
    None
}

/// Grades a review response to one variant of an item.
pub fn review_rating(status: ItemStatus, variants: &Vec<QuestionVariant>, variant_id: i64, response: &ReviewResponse) -> (r: Result<
    Rating,
    String,
>)
    ensures
        match graded(status, question_views(variants@), variant_id, *response) {
            Ok(rating) => r == Ok::<Rating, String>(rating),
            Err(m) => r matches Err(e) && e@ == m,
        },
{
    if status != ItemStatus::Ready {
        return Err(String::from_str(NEEDS_REPAIR_MESSAGE));
    }
    let index = match find_variant(variants, variant_id) {
        Some(k) => k,
        None => {
            return Err(String::from_str(FOREIGN_VARIANT_MESSAGE));
        },
    };
    match (&variants[index], response) {
        (
            QuestionVariant::Mcq { options, correct_option_id, .. },
            ReviewResponse::Mcq { selected_option_id },
        ) => {
            if find_option(options, selected_option_id.as_str()).is_none() {
                return Err(String::from_str(UNKNOWN_OPTION_MESSAGE));
            }
            if str_eq(correct_option_id.as_str(), selected_option_id.as_str()) {
                Ok(Rating::Easy)
            } else {
                Ok(Rating::Again)
            }
        },
        (QuestionVariant::Flashcard { .. }, ReviewResponse::Flashcard { rating }) => Ok(
            match rating {
                ReviewRating::Again => Rating::Again,
                ReviewRating::Hard => Rating::Hard,
                ReviewRating::Good => Rating::Good,
                ReviewRating::Easy => Rating::Easy,
            },
        ),
        _ => Err(String::from_str(FORMAT_MISMATCH_MESSAGE)),
    }
}

// =====================================================================
// Legacy question form
// =====================================================================
pub const FOUR_OPTIONS_COMPAT_MESSAGE: &'static str = "MCQ compatibility requires four options";

pub const INVALID_STORED_ANSWER_MESSAGE: &'static str = "Invalid stored answer";

/// The text of an item's multiple-choice variant in the legacy four-option
/// form.
#[derive(Debug, Clone, PartialEq, Eq)]
pub struct LegacyQuestionText {
    pub question: String,
    pub option_a: String,
    pub option_b: String,
    pub option_c: String,
    pub option_d: String,
    /// The label (`A`..`D`) of the correct option's position.
    pub correct_answer: String,
}

/// The first multiple-choice variant.
pub open spec fn first_mcq(vs: Seq<QuestionVariantView>) -> Option<QuestionVariantView>
    decreases vs.len(),
{
    if vs.len() == 0 {
        None
    } else if vs[0] is Mcq {
        Some(vs[0])
    } else {
        first_mcq(vs.drop_first())
    }
}

/// The legacy form of an item's variants: nothing without a
/// multiple-choice variant; otherwise its prompt and four option texts with
/// the correct option's position as a label.
pub open spec fn legacy_form(vs: Seq<QuestionVariantView>) -> Result<
    Option<(Seq<char>, Seq<Seq<char>>, Seq<char>)>,
    Seq<char>,
> {
    match first_mcq(vs) {
        Some(QuestionVariantView::Mcq { prompt, options, correct_option_id, .. }) => if options.len() != 4 {
            Err(FOUR_OPTIONS_COMPAT_MESSAGE@)
        } else {
            match first_with_id(options, correct_option_id) {
                None => Err(INVALID_STORED_ANSWER_MESSAGE@),
                Some(k) => Ok(
                    Some(
                        (
                            prompt,
                            seq![options[0].text, options[1].text, options[2].text, options[3].text],
                            option_label(k as nat),
                        ),
                    ),
                ),
            }
        },
        _ => Ok(None),
    }
}

fn find_mcq(variants: &Vec<QuestionVariant>) -> (r: Option<usize>)
    ensures
        match first_mcq(question_views(variants@)) {
            Some(v) => r matches Some(k) && k < variants@.len() && variants@[k as int]@ == v,
            None => r is None,
        },
{
    let ghost vs = question_views(variants@);
    let mut i: usize = 0;
    assert(vs.skip(0) =~= vs);
    while i < variants.len()
        invariant
            vs == question_views(variants@),
            i <= variants@.len(),
            first_mcq(vs) == first_mcq(vs.skip(i as int)),
        decreases variants@.len() - i,
    {
        assert(vs.skip(i as int)[0] == variants@[i as int]@);
        assert(vs.skip(i as int).drop_first() =~= vs.skip(i + 1));
        let found = match &variants[i] {
            QuestionVariant::Mcq { .. } => true,
            QuestionVariant::Flashcard { .. } => false,
        };
        if found {
            return Some(i);
        }
        i = i + 1;
    }
    None
}

/// The legacy four-option form of an item's multiple-choice variant, if it
/// has one.
pub fn legacy_question_text(variants: &Vec<QuestionVariant>) -> (r: Result<Option<LegacyQuestionText>, String>)
    ensures
        match legacy_form(question_views(variants@)) {
            Ok(None) => r matches Ok(None),
            Ok(Some((prompt, texts, label))) => r matches Ok(Some(q)) && q.question@ == prompt && q.option_a@
                == texts[0] && q.option_b@ == texts[1] && q.option_c@ == texts[2] && q.option_d@ == texts[3]
                && q.correct_answer@ == label,
            Err(m) => r matches Err(e) && e@ == m,
        },
{
    let index = match find_mcq(variants) {
        Some(k) => k,
        None => {
            return Ok(None);
        },
    };
    match &variants[index] {
        QuestionVariant::Mcq { prompt, options, correct_option_id, .. } => {
            if options.len() != 4 {
                return Err(String::from_str(FOUR_OPTIONS_COMPAT_MESSAGE));
            }
            let correct = match find_option(options, correct_option_id.as_str()) {
                Some(k) => k,
                None => {
                    return Err(String::from_str(INVALID_STORED_ANSWER_MESSAGE));
                },
            };
            proof {
                assert(option_views(options@)[0] == options@[0]@);
                assert(option_views(options@)[1] == options@[1]@);
                assert(option_views(options@)[2] == options@[2]@);
                assert(option_views(options@)[3] == options@[3]@);
            }
            Ok(
                Some(
                    LegacyQuestionText {
                        question: prompt.clone(),
                        option_a: options[0].text.clone(),
                        option_b: options[1].text.clone(),
                        option_c: options[2].text.clone(),
                        option_d: options[3].text.clone(),
                        correct_answer: label_of(correct),
                    },
                ),
            )
        },
        QuestionVariant::Flashcard { .. } => Ok(None),
    }
}

/// A legacy question converted to an item and shown again in the legacy
/// form gives back its prompt, its four option texts in order, and its
/// correct label.
pub proof fn lemma_legacy_round_trip(q: QuestionInput, id: i64)
    requires
        first_with_id(labelled_options(question_texts(q)), q.correct_answer@) is Some,
    ensures
        legacy_form(
            seq![
                QuestionVariantView::Mcq {
                    id,
                    prompt: q.question@,
                    options: labelled_options(question_texts(q)),
                    correct_option_id: q.correct_answer@,
                },
            ],
        ) == Ok::<Option<(Seq<char>, Seq<Seq<char>>, Seq<char>)>, Seq<char>>(
            Some((q.question@, question_texts(q), q.correct_answer@)),
        ),
{
    let os = labelled_options(question_texts(q));
    let v = QuestionVariantView::Mcq { id, prompt: q.question@, options: os, correct_option_id: q.correct_answer@ };
    assert(first_mcq(seq![v]) == Some(v));
    lemma_first_with_id(os, q.correct_answer@, 0);
    let k = first_with_id(os, q.correct_answer@)->Some_0;
    assert(os[k].id == option_label(k as nat));
    assert(seq![os[0].text, os[1].text, os[2].text, os[3].text] =~= question_texts(q));
}

} // verus!
