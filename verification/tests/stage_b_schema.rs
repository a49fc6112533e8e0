use arka::graph::stage_b_schema::{validate_mcq, GeneratedMCQ};
use arka::graph::types::QuestionType;

fn make_valid_mcq() -> GeneratedMCQ {
    GeneratedMCQ {
        question: "What is the primary role of JWT in web authentication?".to_string(),
        options: vec![
            "To encrypt passwords on the server".to_string(),
            "To create stateless authentication tokens".to_string(),
            "To store session data in the database".to_string(),
            "To hash user passwords".to_string(),
        ],
        correct_index: 1,
        explanation: "JWT (JSON Web Tokens) are used to create stateless authentication tokens that can be verified without accessing the server's database.".to_string(),
        question_type: QuestionType::Recall,
    }
}

#[test]
fn test_valid_mcq() {
    let mcq = make_valid_mcq();
    let errors = validate_mcq(&mcq);
    assert!(errors.is_empty(), "Expected no errors, got: {:?}", errors);
}

#[test]
fn test_correct_index_out_of_range() {
    let mut mcq = make_valid_mcq();
    mcq.correct_index = 4;
    let errors = validate_mcq(&mcq);
    assert!(!errors.is_empty());
    assert!(errors.iter().any(|e| e.contains("correct_index")));
}

#[test]
fn test_wrong_option_count_too_few() {
    let mut mcq = make_valid_mcq();
    mcq.options.pop();
    let errors = validate_mcq(&mcq);
    assert!(!errors.is_empty());
    assert!(errors.iter().any(|e| e.contains("expected 4 options")));
}

#[test]
fn test_wrong_option_count_too_many() {
    let mut mcq = make_valid_mcq();
    mcq.options.push("Extra option".to_string());
    let errors = validate_mcq(&mcq);
    assert!(!errors.is_empty());
    assert!(errors.iter().any(|e| e.contains("expected 4 options")));
}

#[test]
fn test_empty_option() {
    let mut mcq = make_valid_mcq();
    mcq.options[2] = "".to_string();
    let errors = validate_mcq(&mcq);
    assert!(!errors.is_empty());
    assert!(errors.iter().any(|e| e.contains("option") && e.contains("empty")));
}

#[test]
fn test_option_too_long() {
    let mut mcq = make_valid_mcq();
    mcq.options[0] = "x".repeat(501);
    let errors = validate_mcq(&mcq);
    assert!(!errors.is_empty());
    assert!(errors.iter().any(|e| e.contains("exceeds 500 chars")));
}

#[test]
fn test_empty_question() {
    let mut mcq = make_valid_mcq();
    mcq.question = "".to_string();
    let errors = validate_mcq(&mcq);
    assert!(!errors.is_empty());
    assert!(errors.iter().any(|e| e.contains("question is empty")));
}

#[test]
fn test_question_too_short() {
    let mut mcq = make_valid_mcq();
    mcq.question = "Short?".to_string();
    let errors = validate_mcq(&mcq);
    assert!(!errors.is_empty());
    assert!(errors.iter().any(|e| e.contains("question too short")));
}

#[test]
fn test_question_too_long() {
    let mut mcq = make_valid_mcq();
    mcq.question = "x".repeat(501);
    let errors = validate_mcq(&mcq);
    assert!(!errors.is_empty());
    assert!(errors.iter().any(|e| e.contains("question too long")));
}

#[test]
fn test_empty_explanation() {
    let mut mcq = make_valid_mcq();
    mcq.explanation = "".to_string();
    let errors = validate_mcq(&mcq);
    assert!(!errors.is_empty());
    assert!(errors.iter().any(|e| e.contains("explanation is empty")));
}

#[test]
fn test_explanation_too_short() {
    let mut mcq = make_valid_mcq();
    mcq.explanation = "Too short!".to_string();
    let errors = validate_mcq(&mcq);
    assert!(!errors.is_empty());
    assert!(errors.iter().any(|e| e.contains("explanation too short")));
}

#[test]
fn test_explanation_too_long() {
    let mut mcq = make_valid_mcq();
    mcq.explanation = "x".repeat(1001);
    let errors = validate_mcq(&mcq);
    assert!(!errors.is_empty());
    assert!(errors.iter().any(|e| e.contains("explanation too long")));
}

#[test]
fn test_relational_question_type() {
    let mut mcq = make_valid_mcq();
    mcq.question_type = QuestionType::Relational;
    let errors = validate_mcq(&mcq);
    assert!(errors.is_empty());
    assert_eq!(mcq.question_type, QuestionType::Relational);
}

#[test]
fn test_multiple_validation_errors() {
    let mut mcq = make_valid_mcq();
    mcq.correct_index = 5;
    mcq.options.pop();
    mcq.question = "Short".to_string();
    mcq.explanation = "Bad".to_string();
    let errors = validate_mcq(&mcq);
    assert!(errors.len() > 1, "Expected multiple errors, got: {:?}", errors);
}
