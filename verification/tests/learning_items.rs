use arka::learning_items::{
    from_generated, from_mcq, legacy_question_text, review_rating, sync_shared_answer, validate,
    GeneratedFlashcard, GeneratedItem, GeneratedMcq, GenerationMetadata, GenerationPipeline, ItemStatus,
    LearningItemInput, McqOption, QuestionInput, QuestionVariant, ReviewRating, ReviewResponse, SourceReference,
    VariantInput,
};
use arka::scheduler::Rating;

fn paired() -> LearningItemInput {
    let mut input = from_mcq(
        QuestionInput {
            question: "Worst-case complexity?".into(),
            option_a: "O(1)".into(),
            option_b: "O(log n)".into(),
            option_c: "O(n)".into(),
            option_d: "O(n²)".into(),
            correct_answer: "B".into(),
            explanation: Some("Halve the interval".into()),
            space_id: 1,
        },
        "original-model".into(),
    )
    .unwrap();
    input.target = Some("Binary search worst-case complexity".into());
    input.generation.provider = Some("ollama".into());
    input.variants.push(VariantInput::Flashcard {
        prompt: "What is binary search's worst-case complexity?".into(),
    });
    input
}

fn generated_pair() -> GeneratedItem {
    GeneratedItem {
        knowledge_point_id: String::from("kp_1"),
        target: String::from("Binary search has O(log n) worst-case search time on a sorted array."),
        answer: String::from("O(log n)"),
        explanation: Some(String::from("Each comparison halves the remaining interval.")),
        flashcard: GeneratedFlashcard {
            prompt: String::from("What is the worst-case time of binary search on a sorted array?"),
        },
        mcq: Some(GeneratedMcq {
            prompt: None,
            distractors: vec![String::from("O(1)"), String::from("O(n)"), String::from("O(n log n)")],
        }),
        mcq_omission_reason: None,
    }
}

#[test]
fn generated_save_materializes_content_with_backend_provenance() {
    let generation = GenerationMetadata {
        model: Some(String::from("generation-model")),
        provider: Some(String::from("openai")),
        pipeline: Some(GenerationPipeline::Chunk),
        generated_at: Some(String::from("2026-09-09T10:00:00Z")),
    };
    let source = SourceReference {
        note_path: String::from("notes/algorithms.md"),
        start_line: 4,
        end_line: 12,
        knowledge_point: String::from("Binary search has logarithmic worst-case time."),
    };

    let input = from_generated(generated_pair(), 7, generation.clone(), source.clone(), 1).unwrap();

    assert_eq!(input.generation, generation);
    assert_eq!(input.source, Some(source));
    assert_eq!(
        input.target.as_deref(),
        Some("Binary search has O(log n) worst-case search time on a sorted array.")
    );
    assert!(matches!(input.variants[0], VariantInput::Flashcard { .. }));
    match &input.variants[1] {
        VariantInput::Mcq { options, correct_option_id, .. } => {
            assert_eq!(correct_option_id, "B");
            assert_eq!(options[1].text, "O(log n)");
        }
        _ => panic!("expected MCQ variant"),
    }
}

#[test]
fn canonical_generated_save_rejects_non_chunk_provenance() {
    let mut flashcard_only = generated_pair();
    flashcard_only.mcq = None;
    let result = from_generated(
        flashcard_only,
        1,
        GenerationMetadata {
            model: Some(String::from("graph-model")),
            provider: Some(String::from("ollama")),
            pipeline: Some(GenerationPipeline::Graph),
            generated_at: None,
        },
        SourceReference {
            note_path: String::from("note.md"),
            start_line: 1,
            end_line: 2,
            knowledge_point: String::from("Point"),
        },
        0,
    );
    assert!(result.is_err());
}

#[test]
fn generated_items_need_a_recall_space_and_place_the_answer_by_index() {
    let chunk = GenerationMetadata {
        model: None,
        provider: None,
        pipeline: Some(GenerationPipeline::Chunk),
        generated_at: None,
    };
    let source = SourceReference {
        note_path: String::from("n.md"),
        start_line: 1,
        end_line: 1,
        knowledge_point: String::from("p"),
    };
    assert_eq!(
        from_generated(generated_pair(), 0, chunk.clone(), source.clone(), 0),
        Err(String::from("Recall space is required"))
    );
    let input = from_generated(generated_pair(), 3, chunk, source, 7).unwrap();
    match &input.variants[1] {
        VariantInput::Mcq { prompt, options, correct_option_id } => {
            assert_eq!(correct_option_id, "D");
            let ids: Vec<&str> = options.iter().map(|o| o.id.as_str()).collect();
            assert_eq!(ids, vec!["A", "B", "C", "D"]);
            assert_eq!(options[3].text, "O(log n)");
            assert_eq!(prompt, "What is the worst-case time of binary search on a sorted array?");
        }
        _ => panic!("expected MCQ variant"),
    }
}

#[test]
fn legacy_questions_keep_labels_and_default_space() {
    let input = paired();
    assert_eq!(input.answer, "O(log n)");
    assert_eq!(input.space_id, 1);
    assert_eq!(input.generation.model.as_deref(), Some("original-model"));
    assert!(validate(&input).is_ok());

    let bad = from_mcq(
        QuestionInput {
            question: "Q?".into(),
            option_a: "1".into(),
            option_b: "2".into(),
            option_c: "3".into(),
            option_d: "4".into(),
            correct_answer: "E".into(),
            explanation: None,
            space_id: 0,
        },
        "m".into(),
    );
    assert_eq!(bad, Err(String::from("Invalid correct answer label")));
}

#[test]
fn validation_reports_the_first_problem() {
    let mut no_space = paired();
    no_space.space_id = 0;
    assert_eq!(
        validate(&no_space),
        Err(String::from("Answer, variants and recall space are required"))
    );

    let mut no_target = paired();
    no_target.target = Some(String::from("   "));
    assert_eq!(
        validate(&no_target),
        Err(String::from("Flashcards need an explicit learning target"))
    );

    let mut repeated_text = paired();
    if let VariantInput::Mcq { options, .. } = &mut repeated_text.variants[0] {
        options[3].text = String::from(" o(1) ");
    }
    assert_eq!(
        validate(&repeated_text),
        Err(String::from("MCQ options must be nonempty and distinct"))
    );

    let mut three = paired();
    if let VariantInput::Mcq { options, .. } = &mut three.variants[0] {
        options.pop();
    }
    assert_eq!(validate(&three), Err(String::from("MCQ requires four options")));

    let mut unknown_correct = paired();
    if let VariantInput::Mcq { correct_option_id, .. } = &mut unknown_correct.variants[0] {
        *correct_option_id = String::from("Z");
    }
    assert_eq!(validate(&unknown_correct), Err(String::from("Invalid correct option ID")));

    let mut twice = paired();
    twice.variants.push(VariantInput::Flashcard { prompt: String::from("Again?") });
    assert_eq!(validate(&twice), Err(String::from("Empty prompt or duplicate format")));
}

fn options(texts: &[&str]) -> Vec<McqOption> {
    texts
        .iter()
        .enumerate()
        .map(|(i, text)| McqOption {
            id: ((b'A' + i as u8) as char).to_string(),
            text: text.to_string(),
        })
        .collect()
}

#[test]
fn the_shared_answer_replaces_the_correct_option_and_must_stay_distinct() {
    let synced = sync_shared_answer(&options(&["O(1)", "O(log n)", "O(n)", "O(n²)"]), "B", "O(log₂ n)").unwrap();
    assert_eq!(synced[1].text, "O(log₂ n)");
    assert_eq!(synced[0].text, "O(1)");
    assert_eq!(
        sync_shared_answer(&options(&["O(1)", "O(log n)", "O(n)", "O(n²)"]), "B", "O(n)"),
        Err(String::from("Shared answer duplicates a distractor"))
    );
}

fn stored() -> Vec<QuestionVariant> {
    vec![
        QuestionVariant::Mcq {
            id: 10,
            prompt: String::from("Worst-case complexity?"),
            options: options(&["O(1)", "O(log n)", "O(n)", "O(n²)"]),
            correct_option_id: String::from("B"),
        },
        QuestionVariant::Flashcard {
            id: 11,
            prompt: String::from("Binary search worst case?"),
        },
    ]
}

#[test]
fn reviews_grade_choices_and_keep_flashcard_ratings() {
    let variants = stored();
    let answer = |id: &str| ReviewResponse::Mcq { selected_option_id: id.to_string() };
    assert_eq!(review_rating(ItemStatus::Ready, &variants, 10, &answer("B")), Ok(Rating::Easy));
    assert_eq!(review_rating(ItemStatus::Ready, &variants, 10, &answer("C")), Ok(Rating::Again));
    assert_eq!(
        review_rating(ItemStatus::Ready, &variants, 10, &answer("missing")),
        Err(String::from("Unknown answer option"))
    );
    let flash = ReviewResponse::Flashcard { rating: ReviewRating::Hard };
    assert_eq!(review_rating(ItemStatus::Ready, &variants, 11, &flash), Ok(Rating::Hard));
    assert_eq!(
        review_rating(ItemStatus::Ready, &variants, 10, &flash),
        Err(String::from("Response does not match variant format"))
    );
    assert_eq!(
        review_rating(ItemStatus::Ready, &variants, 999, &answer("B")),
        Err(String::from("Variant does not belong to this item"))
    );
    assert_eq!(
        review_rating(ItemStatus::NeedsRepair, &variants, 10, &answer("B")),
        Err(String::from("Item needs repair"))
    );
}

#[test]
fn legacy_form_labels_follow_option_position() {
    let mut variants = stored();
    if let QuestionVariant::Mcq { options, correct_option_id, .. } = &mut variants[0] {
        options[1].id = String::from("stable-correct-id");
        *correct_option_id = String::from("stable-correct-id");
    }
    let question = legacy_question_text(&variants).unwrap().unwrap();
    assert_eq!(question.correct_answer, "B");
    assert_eq!(question.option_b, "O(log n)");
    assert_eq!(question.question, "Worst-case complexity?");

    let flashcard_only = vec![stored().remove(1)];
    assert_eq!(legacy_question_text(&flashcard_only), Ok(None));
}
