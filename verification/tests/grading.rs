use term_prep_plus::grader::{grade, Response, Verdict};
use term_prep_plus::question::{Question, QuestionType};

fn texts(items: &[&str]) -> Vec<String> {
    items.iter().map(|s| s.to_string()).collect()
}

fn question(kind: QuestionType, choices: &[&str], answer: &[&str]) -> Question {
    Question::new(
        kind,
        "prompt".to_string(),
        texts(choices),
        texts(answer),
        String::new(),
        Vec::new(),
    )
    .unwrap()
}

fn is_correct(q: &Question, r: Response) -> bool {
    match grade(q, &r) {
        Verdict::Correct => true,
        Verdict::Incorrect { correct_answers } => {
            assert_eq!(&correct_answers, q.answer());
            false
        }
    }
}

fn choice(s: &str) -> Response {
    Response::Choice(s.to_string())
}

fn selection(items: &[&str]) -> Response {
    Response::Selection(texts(items))
}

fn entry(s: &str) -> Response {
    Response::Entry(s.to_string())
}

#[test]
fn single_choice_accepts_the_stored_answer_only() {
    let q = question(QuestionType::SingleChoice, &["3", "4", "5"], &["4"]);
    assert!(is_correct(&q, choice("4")));
    assert!(!is_correct(&q, choice("3")));
    assert!(!is_correct(&q, choice("5")));
    assert!(!is_correct(&q, choice("")));
    assert!(!is_correct(&q, choice("44")));
}

#[test]
fn single_choice_matches_exactly_and_not_by_case() {
    let q = question(QuestionType::SingleChoice, &["Paris", "paris"], &["Paris"]);
    assert!(is_correct(&q, choice("Paris")));
    assert!(!is_correct(&q, choice("paris")));
    assert!(!is_correct(&q, choice("PARIS")));
    assert!(!is_correct(&q, choice("Paris ")));
}

#[test]
fn multi_select_accepts_the_answer_set_in_any_order() {
    let q = question(QuestionType::MultiSelect, &["a", "b", "c", "d"], &["a", "c"]);
    assert!(is_correct(&q, selection(&["a", "c"])));
    assert!(is_correct(&q, selection(&["c", "a"])));
    assert!(is_correct(&q, selection(&["c", "a", "c"])));
}

#[test]
fn multi_select_refuses_a_strict_subset() {
    let q = question(QuestionType::MultiSelect, &["a", "b", "c", "d"], &["a", "c"]);
    assert!(!is_correct(&q, selection(&["a"])));
    assert!(!is_correct(&q, selection(&["c"])));
    assert!(!is_correct(&q, selection(&[])));
}

#[test]
fn multi_select_refuses_a_superset() {
    let q = question(QuestionType::MultiSelect, &["a", "b", "c", "d"], &["a", "c"]);
    assert!(!is_correct(&q, selection(&["a", "b", "c"])));
    assert!(!is_correct(&q, selection(&["a", "b", "c", "d"])));
}

#[test]
fn multi_select_refuses_a_set_with_one_wrong_member() {
    let q = question(QuestionType::MultiSelect, &["a", "b", "c", "d"], &["a", "c"]);
    assert!(!is_correct(&q, selection(&["a", "b"])));
    assert!(!is_correct(&q, selection(&["d", "c"])));
    assert!(!is_correct(&q, selection(&["a", "a"])));
}

#[test]
fn free_entry_accepts_any_one_of_the_literals() {
    let q = question(QuestionType::FreeEntry, &[], &["four", "4", "IV"]);
    assert!(is_correct(&q, entry("four")));
    assert!(is_correct(&q, entry("4")));
    assert!(is_correct(&q, entry("IV")));
}

#[test]
fn free_entry_refuses_everything_else() {
    let q = question(QuestionType::FreeEntry, &["a hint"], &["four", "4", "IV"]);
    assert!(!is_correct(&q, entry("Four")));
    assert!(!is_correct(&q, entry("iv")));
    assert!(!is_correct(&q, entry("")));
    assert!(!is_correct(&q, entry("4 ")));
    assert!(!is_correct(&q, entry("a hint")));
    assert!(!is_correct(&q, entry("four4")));
}

#[test]
fn a_response_of_another_shape_is_incorrect() {
    let single = question(QuestionType::SingleChoice, &["4"], &["4"]);
    assert!(!is_correct(&single, entry("4")));
    assert!(!is_correct(&single, selection(&["4"])));
    let multi = question(QuestionType::MultiSelect, &["4"], &["4"]);
    assert!(!is_correct(&multi, choice("4")));
    assert!(!is_correct(&multi, entry("4")));
    let free = question(QuestionType::FreeEntry, &[], &["4"]);
    assert!(!is_correct(&free, choice("4")));
    assert!(!is_correct(&free, selection(&["4"])));
}

#[test]
fn grading_twice_gives_the_same_outcome() {
    let q = question(QuestionType::MultiSelect, &["a", "b", "c"], &["a", "c"]);
    let right = selection(&["c", "a"]);
    let wrong = selection(&["b"]);
    for _ in 0..3 {
        assert!(matches!(grade(&q, &right), Verdict::Correct));
        match grade(&q, &wrong) {
            Verdict::Incorrect { correct_answers } => {
                assert_eq!(correct_answers, texts(&["a", "c"]))
            }
            Verdict::Correct => panic!("a wrong selection was accepted"),
        }
    }
    let copy = q.clone();
    assert!(matches!(grade(&copy, &right), Verdict::Correct));
}

#[test]
fn an_incorrect_outcome_carries_all_correct_answers() {
    let q = question(QuestionType::FreeEntry, &[], &["b", "a", "b"]);
    match grade(&q, &entry("c")) {
        Verdict::Incorrect { correct_answers } => assert_eq!(correct_answers, texts(&["a", "b"])),
        Verdict::Correct => panic!("a wrong entry was accepted"),
    }
}
