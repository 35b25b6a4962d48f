//! What a line typed at a question means: an answer in the shape that the
//! question asks for, or a request for its hints.

use crate::grader::{Response, ResponseView};
use crate::input::{
    asks_for_hint, choice_of, is_hint_request, label_of, lemma_label_round_trip, parse_choice,
    parse_selection, selection_of, InputError,
};
use crate::order::ints;
use crate::outcome::viewed;
use crate::question::{Question, QuestionType, QuestionView};
use crate::text_set::texts;
use vstd::prelude::*;

verus! {

/// What the user typed at a question.
#[derive(Debug)]
pub enum Reading {
    /// An answer, to be graded.
    Answer(Response),
    /// A request for the hints. It is no answer.
    HintRequest,
}

/// What a reading is, as plain mathematical data.
pub enum ReadingView {
    Answer(ResponseView),
    HintRequest,
}

impl View for Reading {
    type V = ReadingView;

    open spec fn view(&self) -> ReadingView {
        match self {
            Reading::Answer(r) => ReadingView::Answer(r@),
            Reading::HintRequest => ReadingView::HintRequest,
        }
    }
}

/// The options that stand at the given indices.
pub open spec fn picked(options: Seq<Seq<char>>, picks: Seq<int>) -> Seq<Seq<char>> {
    picks.map_values(|k: int| options[k])
}

/// What a line means at a question.
///
/// At a single-choice question the line names one option by its letter,
/// at a multi-select question a list of them. At a free-entry question the
/// line is the answer itself, unless it asks for the hints; where the
/// question has no hints, that request is refused.
pub open spec fn reading_of(q: QuestionView, line: Seq<char>) -> Result<ReadingView, InputError> {
    match q.kind {
        QuestionType::SingleChoice => match choice_of(line, q.options().len()) {
            Some(k) => Ok(ReadingView::Answer(ResponseView::Choice(q.options()[k]))),
            None => Err(InputError::UnrecognizedChoice),
        },
        QuestionType::MultiSelect => match selection_of(line, q.options().len()) {
            Some(ks) => Ok(ReadingView::Answer(ResponseView::Selection(picked(q.options(), ks)))),
            None => Err(InputError::UnrecognizedChoice),
        },
        QuestionType::FreeEntry => if asks_for_hint(line) {
            if q.hints().len() > 0 {
                Ok(ReadingView::HintRequest)
            } else {
                Err(InputError::HintsUnavailable)
            }
        } else {
            Ok(ReadingView::Answer(ResponseView::Entry(line)))
        },
    }
}

/// At a single-choice question, a line that starts with the letter that an
/// option is shown under is the choice of that option.
pub proof fn lemma_letter_picks_option(q: QuestionView, k: int, line: Seq<char>)
    requires
        q.kind is SingleChoice,
        0 <= k < q.options().len(),
        line.len() > 0,
        label_of(k) == Some(line[0]),
    ensures
        reading_of(q, line) == Ok::<ReadingView, InputError>(
            ReadingView::Answer(ResponseView::Choice(q.options()[k])),
        ),
{
    lemma_label_round_trip(k);
}

/// Reads the line that the user typed at a question.
pub fn read_response(question: &Question, line: &str) -> (read: Result<Reading, InputError>)
    ensures
        viewed(read) == reading_of(question@, line@),
{
    match question.kind() {
        QuestionType::SingleChoice => {
            let options = question.options();
            match parse_choice(line, options.len()) {
                Ok(k) => Ok(Reading::Answer(Response::Choice(options[k].clone()))),
                Err(e) => Err(e),
            }
        },
        QuestionType::MultiSelect => {
            let options = question.options();
            match parse_selection(line, options.len()) {
                Ok(picks) => {
                    let ghost wanted = picked(texts(options@), ints(picks@));
                    let mut chosen: Vec<String> = Vec::new();
                    let mut i: usize = 0;
                    while i < picks.len()
                        invariant
                            i <= picks.len(),
                            chosen@.len() == i,
                            texts(options@).len() == options@.len(),
                            selection_of(line@, options.len() as nat) == Some(ints(picks@)),
                            wanted == picked(texts(options@), ints(picks@)),
                            forall|j: int| 0 <= j < i ==> texts(chosen@)[j] == wanted[j],
                        decreases picks.len() - i,
                    {
                        let k = picks[i];
                        assert(ints(picks@)[i as int] == k);
                        chosen.push(options[k].clone());
                        i += 1;
                    }
                    assert(texts(chosen@) =~= wanted);
                    Ok(Reading::Answer(Response::Selection(chosen)))
                },
                Err(e) => Err(e),
            }
        },
        QuestionType::FreeEntry => {
            if is_hint_request(line) {
                let hints = question.hints();
                if hints.len() > 0 {
                    Ok(Reading::HintRequest)
                } else {
                    Err(InputError::HintsUnavailable)
                }
            } else {
                Ok(Reading::Answer(Response::Entry(line.to_owned())))
            }
        },
    }
}

} // verus!
