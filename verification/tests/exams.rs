use term_prep_plus::exam::Exam;
use term_prep_plus::question::{Question, QuestionType};
use term_prep_plus::session::SessionState;

fn texts(items: &[&str]) -> Vec<String> {
    items.iter().map(|s| s.to_string()).collect()
}

fn entry(prompt: &str, answer: &str) -> Question {
    Question::new(
        QuestionType::FreeEntry,
        prompt.to_string(),
        Vec::new(),
        texts(&[answer]),
        String::new(),
        Vec::new(),
    )
    .unwrap()
}

#[test]
fn two_copies_of_a_question_make_one_member() {
    let exam = Exam::new("Copies".to_string(), vec![entry("p", "a"), entry("p", "a")]);
    assert_eq!(exam.len(), 1);
    assert!(exam.question(0).unwrap() == &entry("p", "a"));
    assert!(exam.question(1).is_none());
}

#[test]
fn questions_stay_in_the_order_of_their_first_occurrence() {
    let exam = Exam::new(
        "Order".to_string(),
        vec![entry("c", "1"), entry("a", "2"), entry("c", "1"), entry("b", "3"), entry("a", "2")],
    );
    assert_eq!(exam.len(), 3);
    assert_eq!(exam.question(0).unwrap().prompt(), "c");
    assert_eq!(exam.question(1).unwrap().prompt(), "a");
    assert_eq!(exam.question(2).unwrap().prompt(), "b");
}

#[test]
fn questions_that_differ_in_one_field_are_both_kept() {
    let exam = Exam::new("Near".to_string(), vec![entry("p", "a"), entry("p", "b")]);
    assert_eq!(exam.len(), 2);
}

#[test]
fn an_exam_may_be_empty() {
    let exam = Exam::new("None".to_string(), Vec::new());
    assert_eq!(exam.len(), 0);
    assert!(exam.question(0).is_none());
    assert_eq!(exam.name(), "None");
}

#[test]
fn study_opens_a_session_that_waits_for_the_count() {
    let exam = Exam::new("Open".to_string(), vec![entry("p", "a")]);
    let session = exam.study(3);
    assert_eq!(session.state(), SessionState::AwaitingCount);
    assert_eq!(session.finish(), None);
    assert_eq!(session.exam().name(), "Open");
}
