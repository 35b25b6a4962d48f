//! Grading: one matching rule for each type of question.

use crate::question::{Question, QuestionType, QuestionView};
use crate::text_set::{
    clone_texts, contains_text, lemma_sorted_no_duplicates, same_text, texts,
};
use vstd::prelude::*;
use vstd::seq_lib::seq_to_set_is_finite;
use vstd::set_lib::lemma_subset_equality;

verus! {

/// What a user answered, in the shape that the question's type asks for.
#[derive(Debug)]
pub enum Response {
    /// The one option picked for a single-choice question.
    Choice(String),
    /// The options picked for a multi-select question; order and
    /// repetition do not matter.
    Selection(Vec<String>),
    /// The text typed in for a free-entry question.
    Entry(String),
}

/// What a response is, as plain mathematical data.
pub enum ResponseView {
    Choice(Seq<char>),
    Selection(Seq<Seq<char>>),
    Entry(Seq<char>),
}

impl View for Response {
    type V = ResponseView;

    open spec fn view(&self) -> ResponseView {
        match self {
            Response::Choice(c) => ResponseView::Choice(c@),
            Response::Selection(s) => ResponseView::Selection(texts(s@)),
            Response::Entry(e) => ResponseView::Entry(e@),
        }
    }
}

/// The outcome of grading one response.
#[derive(Debug)]
pub enum Verdict {
    Correct,
    /// The response was wrong; these are the correct answers.
    Incorrect { correct_answers: Vec<String> },
}

/// What a verdict is, as plain mathematical data.
pub enum VerdictView {
    Correct,
    Incorrect { correct_answers: Seq<Seq<char>> },
}

impl View for Verdict {
    type V = VerdictView;

    open spec fn view(&self) -> VerdictView {
        match self {
            Verdict::Correct => VerdictView::Correct,
            Verdict::Incorrect { correct_answers } => VerdictView::Incorrect {
                correct_answers: texts(correct_answers@),
            },
        }
    }
}

/// Whether a response answers a question correctly.
///
/// A single choice is correct when it is the one stored answer, character
/// for character. A selection is correct when it holds exactly the stored
/// answers, as a set. A free entry is correct when it is one of the stored
/// answers. A response in a shape that the question's type does not ask
/// for is never correct.
pub open spec fn is_correct(q: QuestionView, r: ResponseView) -> bool {
    match (q.kind, r) {
        (QuestionType::SingleChoice, ResponseView::Choice(picked)) => q.answer.len() == 1
            && q.answer[0] == picked,
        (QuestionType::MultiSelect, ResponseView::Selection(picked)) => picked.to_set()
            == q.answer.to_set(),
        (QuestionType::FreeEntry, ResponseView::Entry(typed)) => q.answer.contains(typed),
        _ => false,
    }
}

/// The verdict on a response: correct, or incorrect with the question's
/// answers.
pub open spec fn verdict_of(q: QuestionView, r: ResponseView) -> VerdictView {
    if is_correct(q, r) {
        VerdictView::Correct
    } else {
        VerdictView::Incorrect { correct_answers: q.answer }
    }
}

/// Grading is pure: the verdict depends on nothing but what the question and
/// the response are, so grading the same pair again gives the same verdict.
pub proof fn lemma_grading_is_pure(q1: Question, r1: Response, q2: Question, r2: Response)
    requires
        q1@ == q2@,
        r1@ == r2@,
    ensures
        verdict_of(q1@, r1@) == verdict_of(q2@, r2@),
{
}

/// At a single-choice question the stored answer is correct and every other
/// text is not.
pub proof fn lemma_single_choice(q: QuestionView, picked: Seq<char>)
    requires
        q.wf(),
        q.kind is SingleChoice,
    ensures
        is_correct(q, ResponseView::Choice(picked)) <==> picked == q.answer[0],
{
}

/// At a multi-select question a selection is correct exactly when it holds
/// the stored answers and nothing else, in whatever order and however often.
/// A selection that lacks an answer is incorrect, and so is one that holds
/// a text that is no answer.
pub proof fn lemma_multi_select(q: QuestionView, picked: Seq<Seq<char>>)
    requires
        q.wf(),
        q.kind is MultiSelect,
    ensures
        is_correct(q, ResponseView::Selection(picked)) <==> picked.to_set() == q.answer.to_set(),
        (exists|t: Seq<char>| q.answer.contains(t) && !picked.contains(t)) ==> !is_correct(
            q,
            ResponseView::Selection(picked),
        ),
        (exists|t: Seq<char>| picked.contains(t) && !q.answer.contains(t)) ==> !is_correct(
            q,
            ResponseView::Selection(picked),
        ),
{
    if exists|t: Seq<char>| q.answer.contains(t) && !picked.contains(t) {
        let t = choose|t: Seq<char>| q.answer.contains(t) && !picked.contains(t);
        assert(q.answer.to_set().contains(t));
    }
    if exists|t: Seq<char>| picked.contains(t) && !q.answer.contains(t) {
        let t = choose|t: Seq<char>| picked.contains(t) && !q.answer.contains(t);
        assert(picked.to_set().contains(t));
    }
}

/// At a multi-select question a selection is correct exactly when it has as
/// many members as there are answers and every answer is among them.
pub proof fn lemma_multi_select_by_size(q: QuestionView, picked: Seq<Seq<char>>)
    requires
        q.wf(),
        q.kind is MultiSelect,
    ensures
        is_correct(q, ResponseView::Selection(picked)) <==> (picked.to_set().len()
            == q.answer.len() && forall|t: Seq<char>| q.answer.contains(t) ==> picked.contains(t)),
{
    lemma_sorted_no_duplicates(q.answer);
    q.answer.unique_seq_to_set();
    seq_to_set_is_finite(q.answer);
    seq_to_set_is_finite(picked);
    if picked.to_set().len() == q.answer.len() && forall|t: Seq<char>|
        q.answer.contains(t) ==> picked.contains(t) {
        lemma_subset_equality(q.answer.to_set(), picked.to_set());
    }
    if picked.to_set() == q.answer.to_set() {
        assert forall|t: Seq<char>| q.answer.contains(t) implies picked.contains(t) by {
            assert(q.answer.to_set().contains(t));
        }
    }
}

/// At a free-entry question a text is correct exactly when it is one of the
/// stored answers.
pub proof fn lemma_free_entry(q: QuestionView, typed: Seq<char>)
    requires
        q.wf(),
        q.kind is FreeEntry,
    ensures
        is_correct(q, ResponseView::Entry(typed)) <==> exists|i: int|
            0 <= i < q.answer.len() && q.answer[i] == typed,
{
}

/// Every text of `part` is among `whole`.
fn all_among(part: &Vec<String>, whole: &Vec<String>) -> (all: bool)
    ensures
        all == texts(part@).to_set().subset_of(texts(whole@).to_set()),
{
    let mut i: usize = 0;
    while i < part.len()
        invariant
            i <= part.len(),
            forall|j: int| 0 <= j < i ==> texts(whole@).contains(#[trigger] texts(part@)[j]),
        decreases part.len() - i,
    {
        if !contains_text(whole, part[i].as_str()) {
            assert(texts(part@).to_set().contains(texts(part@)[i as int]));
            return false;
        }
        i += 1;
    }
    true
}

/// Grades a response against a question's answer key.
pub fn grade(question: &Question, response: &Response) -> (verdict: Verdict)
    ensures
        verdict@ == verdict_of(question@, response@),
{
    let answer = question.answer();
    let correct = match (question.kind(), response) {
        (QuestionType::SingleChoice, Response::Choice(picked)) => answer.len() == 1 && same_text(
            answer[0].as_str(),
            picked.as_str(),
        ),
        (QuestionType::MultiSelect, Response::Selection(picked)) => {
            let both = all_among(picked, answer) && all_among(answer, picked);
            assert(both == (texts(picked@).to_set() =~= texts(answer@).to_set()));
            both
        },
        (QuestionType::FreeEntry, Response::Entry(typed)) => contains_text(answer, typed.as_str()),
        _ => false,
    };
    if correct {
        Verdict::Correct
    } else {
        Verdict::Incorrect { correct_answers: clone_texts(answer) }
    }
}

} // verus!
