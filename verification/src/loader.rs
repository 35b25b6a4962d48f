//! Loading an exam from the fields of a document. Reading the source and
//! parsing its syntax happen outside; what is decided here is whether the
//! fields make an exam.

use crate::exam::{distinct, lemma_distinct, views, Exam, ExamView};
use crate::outcome::viewed;
use crate::question::{
    assemble, lemma_assemble, Field, LoadError, Question, QuestionType, QuestionView,
};
use crate::text_set::{same_text, texts};
use vstd::prelude::*;

verus! {

/// The fields of one question as a document gives them. A field that the
/// document lacks is `None`. Every field is required: none is filled in
/// where the document lacks it.
#[derive(Debug)]
pub struct QuestionSource {
    pub kind: Option<String>,
    pub prompt: Option<String>,
    pub choices: Option<Vec<String>>,
    pub answer: Option<Vec<String>>,
    pub explanation: Option<String>,
    pub refs: Option<Vec<String>>,
}

/// The fields of one question, as plain mathematical data.
pub struct QuestionSourceView {
    pub kind: Option<Seq<char>>,
    pub prompt: Option<Seq<char>>,
    pub choices: Option<Seq<Seq<char>>>,
    pub answer: Option<Seq<Seq<char>>>,
    pub explanation: Option<Seq<char>>,
    pub refs: Option<Seq<Seq<char>>>,
}

/// The text of a field that may be absent.
pub open spec fn text_of(field: Option<String>) -> Option<Seq<char>> {
    match field {
        Some(s) => Some(s@),
        None => None,
    }
}

/// The texts of a list field that may be absent.
pub open spec fn texts_of(field: Option<Vec<String>>) -> Option<Seq<Seq<char>>> {
    match field {
        Some(v) => Some(texts(v@)),
        None => None,
    }
}

impl View for QuestionSource {
    type V = QuestionSourceView;

    open spec fn view(&self) -> QuestionSourceView {
        QuestionSourceView {
            kind: text_of(self.kind),
            prompt: text_of(self.prompt),
            choices: texts_of(self.choices),
            answer: texts_of(self.answer),
            explanation: text_of(self.explanation),
            refs: texts_of(self.refs),
        }
    }
}

/// The fields of an exam as a document gives them.
#[derive(Debug)]
pub struct ExamSource {
    pub name: Option<String>,
    pub questions: Option<Vec<QuestionSource>>,
}

/// The fields of an exam, as plain mathematical data.
pub struct ExamSourceView {
    pub name: Option<Seq<char>>,
    pub questions: Option<Seq<QuestionSourceView>>,
}

/// What each source of a sequence is.
pub open spec fn source_views(s: Seq<QuestionSource>) -> Seq<QuestionSourceView> {
    s.map_values(|q: QuestionSource| q@)
}

impl View for ExamSource {
    type V = ExamSourceView;

    open spec fn view(&self) -> ExamSourceView {
        ExamSourceView {
            name: text_of(self.name),
            questions: match self.questions {
                Some(v) => Some(source_views(v@)),
                None => None,
            },
        }
    }
}

/// What came of reading a source and parsing its syntax.
#[derive(Debug)]
pub enum SourceOutcome {
    /// The source could not be read.
    Unreadable,
    /// The source was read but is no well-formed document.
    Malformed,
    /// The source is a document with these fields.
    Parsed(ExamSource),
}

/// What came of reading a source, as plain mathematical data.
pub enum SourceOutcomeView {
    Unreadable,
    Malformed,
    Parsed(ExamSourceView),
}

impl View for SourceOutcome {
    type V = SourceOutcomeView;

    open spec fn view(&self) -> SourceOutcomeView {
        match self {
            SourceOutcome::Unreadable => SourceOutcomeView::Unreadable,
            SourceOutcome::Malformed => SourceOutcomeView::Malformed,
            SourceOutcome::Parsed(src) => SourceOutcomeView::Parsed(src@),
        }
    }
}

/// The type of question that a tag names.
pub open spec fn type_named(tag: Seq<char>) -> Option<QuestionType> {
    if tag == "SingleChoice"@ {
        Some(QuestionType::SingleChoice)
    } else if tag == "MultiSelect"@ {
        Some(QuestionType::MultiSelect)
    } else if tag == "FreeEntry"@ {
        Some(QuestionType::FreeEntry)
    } else {
        None
    }
}

/// The question that the fields of a document make, or why they make none.
/// The first field that is absent is reported, in the order type, prompt,
/// choices, answer, explanation, refs; where none is absent, a type that
/// is not known; where it is known, the first rule of the data model that
/// the values break. An explanation may be empty, but it may not be absent.
pub open spec fn question_from(src: QuestionSourceView) -> Result<QuestionView, LoadError> {
    if src.kind is None {
        Err(LoadError::MissingField(Field::Type))
    } else if src.prompt is None {
        Err(LoadError::MissingField(Field::Prompt))
    } else if src.choices is None {
        Err(LoadError::MissingField(Field::Choices))
    } else if src.answer is None {
        Err(LoadError::MissingField(Field::Answer))
    } else if src.explanation is None {
        Err(LoadError::MissingField(Field::Explanation))
    } else if src.refs is None {
        Err(LoadError::MissingField(Field::Refs))
    } else {
        match type_named(src.kind->0) {
            None => Err(LoadError::UnrecognizedType),
            Some(kind) => assemble(
                kind,
                src.prompt->0,
                src.choices->0,
                src.answer->0,
                src.explanation->0,
                src.refs->0,
            ),
        }
    }
}

/// The questions that a sequence of sources makes, in order, or the error
/// of the first source that makes none.
pub open spec fn questions_from(srcs: Seq<QuestionSourceView>) -> Result<
    Seq<QuestionView>,
    LoadError,
>
    decreases srcs.len(),
{
    if srcs.len() == 0 {
        Ok(Seq::empty())
    } else {
        match questions_from(srcs.drop_last()) {
            Err(e) => Err(e),
            Ok(qs) => match question_from(srcs.last()) {
                Err(e) => Err(e),
                Ok(q) => Ok(qs.push(q)),
            },
        }
    }
}

/// The exam that the fields of a document make, or why they make none. A
/// question that equals an earlier one in every field is dropped.
pub open spec fn exam_from(src: ExamSourceView) -> Result<ExamView, LoadError> {
    if src.name is None {
        Err(LoadError::MissingField(Field::Name))
    } else if src.questions is None {
        Err(LoadError::MissingField(Field::Questions))
    } else {
        match questions_from(src.questions->0) {
            Err(e) => Err(e),
            Ok(qs) => Ok(ExamView { name: src.name->0, questions: distinct(qs) }),
        }
    }
}

/// The exam that comes of reading a source, or why none does.
pub open spec fn loaded(outcome: SourceOutcomeView) -> Result<ExamView, LoadError> {
    match outcome {
        SourceOutcomeView::Unreadable => Err(LoadError::Unreadable),
        SourceOutcomeView::Malformed => Err(LoadError::Malformed),
        SourceOutcomeView::Parsed(src) => exam_from(src),
    }
}

/// The questions that sources make are as many as the sources, and each
/// obeys the rules of the data model.
pub proof fn lemma_questions_from(srcs: Seq<QuestionSourceView>)
    ensures
        questions_from(srcs) matches Ok(qs) ==> {
            &&& qs.len() == srcs.len()
            &&& forall|i: int|
                0 <= i < qs.len() ==> question_from(srcs[i]) == Ok::<QuestionView, LoadError>(
                    #[trigger] qs[i],
                ) && qs[i].wf()
        },
    decreases srcs.len(),
{
    if srcs.len() > 0 {
        lemma_questions_from(srcs.drop_last());
        let src = srcs.last();
        if question_from(src) is Ok && type_named(src.kind->0) is Some {
            lemma_assemble(
                type_named(src.kind->0)->0,
                src.prompt->0,
                src.choices->0,
                src.answer->0,
                src.explanation->0,
                src.refs->0,
            );
        }
    }
}

/// Whatever loads is an exam in which no question occurs twice and each
/// obeys the rules of the data model.
pub proof fn lemma_loaded_is_well_formed(outcome: SourceOutcomeView)
    ensures
        loaded(outcome) matches Ok(exam) ==> exam.wf(),
{
    if let SourceOutcomeView::Parsed(src) = outcome {
        if src.name is Some && src.questions is Some {
            let srcs = src.questions->0;
            lemma_questions_from(srcs);
            if let Ok(qs) = questions_from(srcs) {
                lemma_distinct(qs);
                let kept = distinct(qs);
                assert forall|i: int| 0 <= i < kept.len() implies (#[trigger] kept[i]).wf() by {
                    assert(kept.to_set().contains(kept[i]));
                }
            }
        }
    }
}

/// An error among the first sources is the error of them all.
proof fn lemma_first_error_stays(srcs: Seq<QuestionSourceView>, k: int)
    requires
        0 <= k <= srcs.len(),
        questions_from(srcs.take(k)) is Err,
    ensures
        questions_from(srcs) == questions_from(srcs.take(k)),
    decreases srcs.len() - k,
{
    if k == srcs.len() {
        assert(srcs.take(k) =~= srcs);
    } else {
        assert(srcs.take(k + 1).drop_last() =~= srcs.take(k));
        lemma_first_error_stays(srcs, k + 1);
    }
}

/// Reads the tag that names the type of a question.
pub fn parse_type(tag: &str) -> (kind: Option<QuestionType>)
    ensures
        kind == type_named(tag@),
{
    if same_text(tag, "SingleChoice") {
        Some(QuestionType::SingleChoice)
    } else if same_text(tag, "MultiSelect") {
        Some(QuestionType::MultiSelect)
    } else if same_text(tag, "FreeEntry") {
        Some(QuestionType::FreeEntry)
    } else {
        None
    }
}

/// Makes a question from the fields of a document.
pub fn load_question(src: QuestionSource) -> (made: Result<Question, LoadError>)
    ensures
        viewed(made) == question_from(src@),
        made matches Ok(q) ==> q@.wf(),
{
    let QuestionSource { kind, prompt, choices, answer, explanation, refs } = src;
    let tag = match kind {
        Some(tag) => tag,
        None => {
            return Err(LoadError::MissingField(Field::Type));
        },
    };
    let prompt = match prompt {
        Some(prompt) => prompt,
        None => {
            return Err(LoadError::MissingField(Field::Prompt));
        },
    };
    let choices = match choices {
        Some(choices) => choices,
        None => {
            return Err(LoadError::MissingField(Field::Choices));
        },
    };
    let answer = match answer {
        Some(answer) => answer,
        None => {
            return Err(LoadError::MissingField(Field::Answer));
        },
    };
    let explanation = match explanation {
        Some(explanation) => explanation,
        None => {
            return Err(LoadError::MissingField(Field::Explanation));
        },
    };
    let refs = match refs {
        Some(refs) => refs,
        None => {
            return Err(LoadError::MissingField(Field::Refs));
        },
    };
    match parse_type(tag.as_str()) {
        Some(kind) => Question::new(kind, prompt, choices, answer, explanation, refs),
        None => Err(LoadError::UnrecognizedType),
    }
}

/// Makes an exam from what came of reading its source.
pub fn load_exam(outcome: SourceOutcome) -> (made: Result<Exam, LoadError>)
    ensures
        viewed(made) == loaded(outcome@),
        made matches Ok(exam) ==> exam@.wf(),
{
    let ghost goal = loaded(outcome@);
    let src = match outcome {
        SourceOutcome::Unreadable => {
            return Err(LoadError::Unreadable);
        },
        SourceOutcome::Malformed => {
            return Err(LoadError::Malformed);
        },
        SourceOutcome::Parsed(src) => src,
    };
    let ExamSource { name, questions } = src;
    let name = match name {
        Some(name) => name,
        None => {
            return Err(LoadError::MissingField(Field::Name));
        },
    };
    let sources = match questions {
        Some(sources) => sources,
        None => {
            return Err(LoadError::MissingField(Field::Questions));
        },
    };
    let ghost given = source_views(sources@);
    let ghost title = name@;
    let mut made: Vec<Question> = Vec::new();
    assert(views(made@) =~= Seq::<QuestionView>::empty());
    for source in it: sources
        invariant
            it.seq() == sources@,
            given == source_views(sources@),
            goal == loaded(outcome@),
            goal == exam_from(ExamSourceView { name: Some(title), questions: Some(given) }),
            questions_from(given.take(it.index())) == Ok::<Seq<QuestionView>, LoadError>(
                views(made@),
            ),
    {
        proof {
            let n = it.index();
            assert(given.take(n + 1).drop_last() =~= given.take(n));
        }
        let ghost before = views(made@);
        match load_question(source) {
            Ok(q) => {
                made.push(q);
                assert(views(made@) =~= before.push(q@));
            },
            Err(e) => {
                proof {
                    lemma_first_error_stays(given, it.index() + 1);
                }
                return Err(e);
            },
        }
    }
    assert(given.take(given.len() as int) =~= given);
    Ok(Exam::new(name, made))
}

} // verus!
