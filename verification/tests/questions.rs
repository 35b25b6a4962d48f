use std::collections::HashSet;
use term_prep_plus::question::{Field, LoadError, Question, QuestionType};

fn texts(items: &[&str]) -> Vec<String> {
    items.iter().map(|s| s.to_string()).collect()
}

fn capital(choices: &[&str], answer: &[&str]) -> Question {
    Question::new(
        QuestionType::MultiSelect,
        "Which are capitals?".to_string(),
        texts(choices),
        texts(answer),
        "Capitals seat a government.".to_string(),
        texts(&["atlas", "almanac"]),
    )
    .unwrap()
}

#[test]
fn equality_is_reflexive_symmetric_and_transitive() {
    let a = capital(&["Paris", "Lyon", "Rome"], &["Paris", "Rome"]);
    let b = capital(&["Rome", "Paris", "Lyon"], &["Rome", "Paris"]);
    let c = capital(&["Lyon", "Rome", "Paris", "Rome"], &["Paris", "Rome", "Paris"]);
    assert!(a == a);
    assert!(a == b && b == a);
    assert!(b == c);
    assert!(a == c);
}

#[test]
fn equal_questions_have_the_same_digest() {
    let a = capital(&["Paris", "Lyon", "Rome"], &["Paris", "Rome"]);
    let b = capital(&["Rome", "Paris", "Lyon"], &["Rome", "Paris"]);
    assert!(a == b);
    assert_eq!(a.digest(), b.digest());
    assert_eq!(a.digest(), a.clone().digest());
}

#[test]
fn equal_questions_are_one_member_of_a_hash_set() {
    let mut set: HashSet<Question> = HashSet::new();
    assert!(set.insert(capital(&["Paris", "Lyon", "Rome"], &["Paris", "Rome"])));
    assert!(!set.insert(capital(&["Rome", "Paris", "Lyon"], &["Rome", "Paris"])));
    assert!(set.insert(capital(&["Paris", "Lyon"], &["Paris"])));
    assert_eq!(set.len(), 2);
}

#[test]
fn a_difference_in_any_field_makes_questions_unequal() {
    let make = |kind, prompt: &str, choices: &[&str], answer: &[&str], why: &str, refs: &[&str]| {
        Question::new(
            kind,
            prompt.to_string(),
            texts(choices),
            texts(answer),
            why.to_string(),
            texts(refs),
        )
        .unwrap()
    };
    let base = make(QuestionType::MultiSelect, "p", &["a", "b"], &["a"], "e", &["r", "s"]);
    assert!(base != make(QuestionType::FreeEntry, "p", &["a", "b"], &["a"], "e", &["r", "s"]));
    assert!(base != make(QuestionType::MultiSelect, "q", &["a", "b"], &["a"], "e", &["r", "s"]));
    assert!(base != make(QuestionType::MultiSelect, "p", &["a", "c"], &["a"], "e", &["r", "s"]));
    assert!(base != make(QuestionType::MultiSelect, "p", &["a", "b"], &["b"], "e", &["r", "s"]));
    assert!(base != make(QuestionType::MultiSelect, "p", &["a", "b"], &["a"], "f", &["r", "s"]));
    assert!(base != make(QuestionType::MultiSelect, "p", &["a", "b"], &["a"], "e", &["s", "r"]));
    assert!(base == make(QuestionType::MultiSelect, "p", &["b", "a"], &["a"], "e", &["r", "s"]));
}

#[test]
fn unequal_questions_have_different_digests_here() {
    let a = capital(&["Paris", "Lyon"], &["Paris"]);
    let b = capital(&["Paris"], &["Lyon", "Paris"]);
    assert!(a != b);
    assert_ne!(a.digest(), b.digest());
}

#[test]
fn choices_and_answers_are_kept_as_sorted_sets() {
    let q = capital(&["Rome", "Paris", "Lyon", "Paris", ""], &["Rome", "Paris", "Rome"]);
    assert_eq!(q.choices(), &texts(&["", "Lyon", "Paris", "Rome"]));
    assert_eq!(q.answer(), &texts(&["Paris", "Rome"]));
}

#[test]
fn sorting_is_by_code_point_and_shorter_comes_first() {
    let q = capital(&["b", "ab", "a", "B", "é", "abc", "z"], &["a"]);
    assert_eq!(q.choices(), &texts(&["B", "a", "ab", "abc", "b", "z", "é"]));
}

#[test]
fn references_keep_their_order_and_repetitions() {
    let q = Question::new(
        QuestionType::FreeEntry,
        "p".to_string(),
        Vec::new(),
        texts(&["x"]),
        String::new(),
        texts(&["z", "a", "z"]),
    )
    .unwrap();
    assert_eq!(q.refs(), &texts(&["z", "a", "z"]));
}

#[test]
fn an_empty_prompt_is_refused() {
    let made = Question::new(
        QuestionType::FreeEntry,
        String::new(),
        Vec::new(),
        texts(&["x"]),
        String::new(),
        Vec::new(),
    );
    assert_eq!(made.unwrap_err(), LoadError::InvalidField(Field::Prompt));
}

#[test]
fn an_empty_answer_set_is_refused_for_every_type() {
    for kind in [QuestionType::SingleChoice, QuestionType::MultiSelect, QuestionType::FreeEntry] {
        let made = Question::new(
            kind,
            "p".to_string(),
            texts(&["a"]),
            Vec::new(),
            String::new(),
            Vec::new(),
        );
        assert_eq!(made.unwrap_err(), LoadError::InvalidField(Field::Answer));
    }
}

#[test]
fn a_single_choice_question_has_exactly_one_answer() {
    let two = Question::new(
        QuestionType::SingleChoice,
        "p".to_string(),
        texts(&["a", "b"]),
        texts(&["a", "b"]),
        String::new(),
        Vec::new(),
    );
    assert_eq!(two.unwrap_err(), LoadError::InvalidField(Field::Answer));
    let repeated = Question::new(
        QuestionType::SingleChoice,
        "p".to_string(),
        texts(&["a", "b"]),
        texts(&["a", "a"]),
        String::new(),
        Vec::new(),
    )
    .unwrap();
    assert_eq!(repeated.answer(), &texts(&["a"]));
}

#[test]
fn an_empty_prompt_is_reported_before_an_empty_answer() {
    let made = Question::new(
        QuestionType::MultiSelect,
        String::new(),
        Vec::new(),
        Vec::new(),
        String::new(),
        Vec::new(),
    );
    assert_eq!(made.unwrap_err(), LoadError::InvalidField(Field::Prompt));
}

#[test]
fn empty_choices_are_accepted() {
    let q = Question::new(
        QuestionType::SingleChoice,
        "p".to_string(),
        Vec::new(),
        texts(&["a"]),
        String::new(),
        Vec::new(),
    )
    .unwrap();
    assert!(q.choices().is_empty());
    assert!(q.options().is_empty());
}

#[test]
fn an_empty_explanation_is_suppressed() {
    let silent = Question::new(
        QuestionType::FreeEntry,
        "p".to_string(),
        Vec::new(),
        texts(&["x"]),
        String::new(),
        Vec::new(),
    )
    .unwrap();
    assert_eq!(silent.explanation(), None);
    let spoken = capital(&["Paris"], &["Paris"]);
    assert_eq!(spoken.explanation(), Some("Capitals seat a government."));
}

#[test]
fn options_are_the_choices_except_for_free_entry() {
    let picked = capital(&["Rome", "", "Paris"], &["Paris"]);
    assert_eq!(picked.options(), texts(&["", "Paris", "Rome"]));
    assert!(picked.hints().is_empty());
    let typed = Question::new(
        QuestionType::FreeEntry,
        "p".to_string(),
        texts(&["starts with P", "", "in France"]),
        texts(&["Paris"]),
        String::new(),
        Vec::new(),
    )
    .unwrap();
    assert!(typed.options().is_empty());
    assert_eq!(typed.hints(), texts(&["in France", "starts with P"]));
}

#[test]
fn accessors_give_back_what_was_put_in() {
    let q = capital(&["Paris"], &["Paris"]);
    assert_eq!(q.kind(), QuestionType::MultiSelect);
    assert_eq!(q.prompt(), "Which are capitals?");
    assert_eq!(q.refs(), &texts(&["atlas", "almanac"]));
}

#[test]
fn a_clone_equals_what_it_was_made_from() {
    let q = capital(&["Paris", "Rome"], &["Paris"]);
    let copy = q.clone();
    assert!(copy == q);
    assert_eq!(copy.choices(), q.choices());
    assert_eq!(copy.prompt(), q.prompt());
}
