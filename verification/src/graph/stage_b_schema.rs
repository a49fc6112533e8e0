//! The generated multiple-choice question and its structural checks.
use vstd::prelude::*;

use crate::graph::types::QuestionType;
use crate::text::{decimal, is_blank, push_decimal, strs, trim_seq};

verus! {

/// A complete multiple-choice question generated from a bundle.
#[derive(Debug, Clone, PartialEq, Eq)]
pub struct GeneratedMCQ {
    /// The question text.
    pub question: String,
    /// The answer options; exactly four are expected.
    pub options: Vec<String>,
    /// Index of the correct option, expected in 0..=3.
    pub correct_index: usize,
    /// Why the correct option is right.
    pub explanation: String,
    /// Recall or relational, as computed from the bundle.
    pub question_type: QuestionType,
}

/// The length of a string in UTF-8 bytes.
pub open spec fn byte_len(s: Seq<char>) -> nat {
    vstd::utf8::encode_utf8(s).len()
}

/// The problems of each option, option by option: blank, then too long.
pub open spec fn option_errors(options: Seq<Seq<char>>) -> Seq<Seq<char>>
    decreases options.len(),
{
    if options.len() == 0 {
        Seq::empty()
    } else {
        let i = (options.len() - 1) as nat;
        let o = options.last();
        option_errors(options.drop_last()) + (if trim_seq(o).len() == 0 {
            seq!["option "@ + decimal(i) + " is empty"@]
        } else {
            Seq::empty()
        }) + (if byte_len(o) > 500 {
            seq!["option "@ + decimal(i) + " exceeds 500 chars ("@ + decimal(byte_len(o)) + ")"@]
        } else {
            Seq::empty()
        })
    }
}

/// The problem with the correct index, if any.
pub open spec fn index_errors(correct_index: nat) -> Seq<Seq<char>> {
    if correct_index > 3 {
        seq!["correct_index "@ + decimal(correct_index) + " out of range [0, 3]"@]
    } else {
        Seq::empty()
    }
}

/// The problem with the number of options, if any.
pub open spec fn count_errors(n: nat) -> Seq<Seq<char>> {
    if n != 4 {
        seq!["expected 4 options, got "@ + decimal(n)]
    } else {
        Seq::empty()
    }
}

/// The problems of the question text: blank, too short, too long.
pub open spec fn question_errors(q: Seq<char>) -> Seq<Seq<char>> {
    (if trim_seq(q).len() == 0 {
        seq!["question is empty"@]
    } else {
        Seq::empty()
    }) + (if byte_len(q) < 10 {
        seq!["question too short ("@ + decimal(byte_len(q)) + " chars, min 10)"@]
    } else {
        Seq::empty()
    }) + (if byte_len(q) > 500 {
        seq!["question too long ("@ + decimal(byte_len(q)) + " chars, max 500)"@]
    } else {
        Seq::empty()
    })
}

/// The problems of the explanation: blank, too short, too long.
pub open spec fn explanation_errors(e: Seq<char>) -> Seq<Seq<char>> {
    (if trim_seq(e).len() == 0 {
        seq!["explanation is empty"@]
    } else {
        Seq::empty()
    }) + (if byte_len(e) < 20 {
        seq!["explanation too short ("@ + decimal(byte_len(e)) + " chars, min 20)"@]
    } else {
        Seq::empty()
    }) + (if byte_len(e) > 1000 {
        seq!["explanation too long ("@ + decimal(byte_len(e)) + " chars, max 1000)"@]
    } else {
        Seq::empty()
    })
}

/// Every structural problem of a question, in check order: the correct
/// index, the option count, each option, the question, the explanation.
/// Lengths are counted in UTF-8 bytes.
pub open spec fn mcq_errors(question: Seq<char>, options: Seq<Seq<char>>, correct_index: nat, explanation: Seq<char>) -> Seq<Seq<char>> {
    index_errors(correct_index) + count_errors(options.len()) + option_errors(options)
        + question_errors(question) + explanation_errors(explanation)
}

/// A structurally valid question: index in 0..=3, four non-blank options
/// of at most 500 bytes, a non-blank question of 10 to 500 bytes, and a
/// non-blank explanation of 20 to 1000 bytes.
pub open spec fn mcq_is_valid(question: Seq<char>, options: Seq<Seq<char>>, correct_index: nat, explanation: Seq<char>) -> bool {
    &&& correct_index <= 3
    &&& options.len() == 4
    &&& forall|i: int| 0 <= i < options.len() ==> trim_seq(#[trigger] options[i]).len() > 0 && byte_len(options[i]) <= 500
    &&& trim_seq(question).len() > 0
    &&& 10 <= byte_len(question) <= 500
    &&& trim_seq(explanation).len() > 0
    &&& 20 <= byte_len(explanation) <= 1000
}

fn push_message(errors: &mut Vec<String>, m: String)
    ensures
        strs(final(errors)@) == strs(old(errors)@).push(m@),
{
    errors.push(m);
    assert(strs(errors@) =~= strs(old(errors)@).push(m@));
}

fn append_option_errors(errors: &mut Vec<String>, options: &Vec<String>)
    ensures
        strs(final(errors)@) == strs(old(errors)@) + option_errors(strs(options@)),
{
    let ghost os = strs(options@);
    let ghost head = strs(errors@);
    assert(os.take(0) =~= Seq::<Seq<char>>::empty());
    assert(head + option_errors(os.take(0)) =~= head);
    for i in 0..options.len()
        invariant
            os == strs(options@),
            strs(errors@) == head + option_errors(os.take(i as int)),
    {
        let option = &options[i];
        let ghost before = strs(errors@);
        proof {
            assert(os.take(i + 1).drop_last() =~= os.take(i as int));
            assert(os.take(i + 1).last() == option@);
        }
        if is_blank(option.as_str()) {
            let mut m = String::from_str("option ");
            push_decimal(&mut m, i as u64);
            m.append(" is empty");
            push_message(errors, m);
        }
        let ghost mid = strs(errors@);
        let len = option.as_str().as_bytes().len();
        if len > 500 {
            let mut m = String::from_str("option ");
            push_decimal(&mut m, i as u64);
            m.append(" exceeds 500 chars (");
            push_decimal(&mut m, len as u64);
            m.append(")");
            push_message(errors, m);
        }
        proof {
            let e1: Seq<Seq<char>> = if trim_seq(option@).len() == 0 {
                seq!["option "@ + decimal(i as nat) + " is empty"@]
            } else {
                Seq::empty()
            };
            let e2: Seq<Seq<char>> = if byte_len(option@) > 500 {
                seq!["option "@ + decimal(i as nat) + " exceeds 500 chars ("@ + decimal(byte_len(option@)) + ")"@]
            } else {
                Seq::empty()
            };
            assert(mid =~= before + e1);
            assert(strs(errors@) =~= before + e1 + e2);
            assert(head + option_errors(os.take(i + 1)) =~= head + option_errors(os.take(i as int)) + e1 + e2);
        }
    }
    assert(os.take(os.len() as int) =~= os);
}

fn append_question_errors(errors: &mut Vec<String>, text: &str)
    ensures
        strs(final(errors)@) == strs(old(errors)@) + question_errors(text@),
{
    let ghost start = strs(errors@);
    let len = text.as_bytes().len();
    if is_blank(text) {
        push_message(errors, String::from_str("question is empty"));
    }
    let ghost a = strs(errors@);
    if len < 10 {
        let mut m = String::from_str("question too short (");
        push_decimal(&mut m, len as u64);
        m.append(" chars, min 10)");
        push_message(errors, m);
    }
    let ghost b = strs(errors@);
    if len > 500 {
        let mut m = String::from_str("question too long (");
        push_decimal(&mut m, len as u64);
        m.append(" chars, max 500)");
        push_message(errors, m);
    }
    assert(strs(errors@) =~= start + question_errors(text@));
}

fn append_explanation_errors(errors: &mut Vec<String>, text: &str)
    ensures
        strs(final(errors)@) == strs(old(errors)@) + explanation_errors(text@),
{
    let ghost start = strs(errors@);
    let len = text.as_bytes().len();
    if is_blank(text) {
        push_message(errors, String::from_str("explanation is empty"));
    }
    let ghost a = strs(errors@);
    if len < 20 {
        let mut m = String::from_str("explanation too short (");
        push_decimal(&mut m, len as u64);
        m.append(" chars, min 20)");
        push_message(errors, m);
    }
    let ghost b = strs(errors@);
    if len > 1000 {
        let mut m = String::from_str("explanation too long (");
        push_decimal(&mut m, len as u64);
        m.append(" chars, max 1000)");
        push_message(errors, m);
    }
    assert(strs(errors@) =~= start + explanation_errors(text@));
}

/// Checks a generated question and lists every structural problem; an
/// empty list means the question is valid.
pub fn validate_mcq(mcq: &GeneratedMCQ) -> (r: Vec<String>)
    ensures
        strs(r@) == mcq_errors(mcq.question@, strs(mcq.options@), mcq.correct_index as nat, mcq.explanation@),
{
    let mut errors: Vec<String> = Vec::new();
    if mcq.correct_index > 3 {
        let mut m = String::from_str("correct_index ");
        push_decimal(&mut m, mcq.correct_index as u64);
        m.append(" out of range [0, 3]");
        push_message(&mut errors, m);
    }
    if mcq.options.len() != 4 {
        let mut m = String::from_str("expected 4 options, got ");
        push_decimal(&mut m, mcq.options.len() as u64);
        push_message(&mut errors, m);
    }
    assert(strs(errors@) =~= index_errors(mcq.correct_index as nat) + count_errors(mcq.options@.len()));
    append_option_errors(&mut errors, &mcq.options);
    append_question_errors(&mut errors, mcq.question.as_str());
    append_explanation_errors(&mut errors, mcq.explanation.as_str());
    assert(strs(errors@) =~= mcq_errors(mcq.question@, strs(mcq.options@), mcq.correct_index as nat, mcq.explanation@));
    errors
}

proof fn lemma_option_errors_empty(options: Seq<Seq<char>>)
    ensures
        (option_errors(options).len() == 0) <==> (forall|i: int|
            0 <= i < options.len() ==> trim_seq(#[trigger] options[i]).len() > 0 && byte_len(options[i]) <= 500),
    decreases options.len(),
{
    if options.len() > 0 {
        let init = options.drop_last();
        lemma_option_errors_empty(init);
        if forall|i: int| 0 <= i < options.len() ==> trim_seq(#[trigger] options[i]).len() > 0 && byte_len(options[i]) <= 500 {
            assert forall|i: int| 0 <= i < init.len() implies trim_seq(#[trigger] init[i]).len() > 0 && byte_len(init[i]) <= 500 by {
                assert(init[i] == options[i]);
            }
            assert(trim_seq(options[options.len() - 1]).len() > 0);
        }
        if option_errors(options).len() == 0 {
            assert forall|i: int| 0 <= i < options.len() implies trim_seq(#[trigger] options[i]).len() > 0 && byte_len(options[i]) <= 500 by {
                if i < options.len() - 1 {
                    assert(init[i] == options[i]);
                }
            }
        }
    }
}

/// `validate_mcq` reports nothing exactly for structurally valid questions.
pub proof fn lemma_no_errors_iff_valid(question: Seq<char>, options: Seq<Seq<char>>, correct_index: nat, explanation: Seq<char>)
    ensures
        (mcq_errors(question, options, correct_index, explanation).len() == 0) <==> mcq_is_valid(
            question,
            options,
            correct_index,
            explanation,
        ),
{
    lemma_option_errors_empty(options);
    let a = index_errors(correct_index);
    let b = count_errors(options.len());
    let c = option_errors(options);
    let d = question_errors(question);
    let e = explanation_errors(explanation);
    assert(mcq_errors(question, options, correct_index, explanation).len() == a.len() + b.len()
        + c.len() + d.len() + e.len());
    assert((d.len() == 0) <==> (trim_seq(question).len() > 0 && 10 <= byte_len(question) <= 500));
    assert((e.len() == 0) <==> (trim_seq(explanation).len() > 0 && 20 <= byte_len(explanation) <= 1000));
}

} // verus!
