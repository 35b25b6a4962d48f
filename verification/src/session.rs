//! The quiz session: a state machine that decides, for each thing the user
//! does, what state comes next and what is to be done.

use crate::exam::{Exam, ExamView};
use crate::grader::{
    grade, is_correct, verdict_of, Response, ResponseView, Verdict, VerdictView,
};
use crate::input::{asks_for_hint, count_of, parse_count, wants_replay, yes_or_no, InputError};
use crate::order::{ints, is_permutation, lemma_shuffled_permutation, shuffle, shuffled};
use crate::question::Question;
use crate::reading::{read_response, reading_of, Reading, ReadingView};
use vstd::prelude::*;

verus! {

/// Where a session stands. The number is the position of the question at
/// hand in the order of presentation.
#[derive(Clone, Copy, PartialEq, Eq, Structural, Debug)]
pub enum SessionState {
    /// The number of questions has not been chosen yet.
    AwaitingCount,
    /// The question is about to be shown.
    PresentingQuestion(usize),
    /// The question has been shown and waits for an answer.
    AwaitingResponse(usize),
    /// The answer has been graded and the verdict is about to be shown.
    Graded(usize),
    /// All questions have been answered.
    SessionComplete,
}

/// How many of the questions asked were answered correctly.
#[derive(Clone, Copy, PartialEq, Eq, Structural, Debug)]
pub struct Score {
    pub correct: usize,
    pub total: usize,
}

/// What happened outside the session.
#[derive(Debug)]
pub enum Event {
    /// The user typed a line.
    Line(String),
    /// The user gave an answer in some other way than by a line.
    Answer(Response),
    /// What was to be shown has been shown.
    Done,
}

/// What an event is, as plain mathematical data.
pub enum EventView {
    Line(Seq<char>),
    Answer(ResponseView),
    Done,
}

impl View for Event {
    type V = EventView;

    open spec fn view(&self) -> EventView {
        match self {
            Event::Line(l) => EventView::Line(l@),
            Event::Answer(r) => EventView::Answer(r@),
            Event::Done => EventView::Done,
        }
    }
}

/// What is to be done next. A question is named by its index in the exam.
#[derive(Debug)]
pub enum Action {
    /// Ask how many questions to go through, and hand back the line.
    AskCount,
    /// Show the question and its options, and report when done.
    Present { question: usize },
    /// Ask for the answer to the question, and hand back the line.
    AskResponse { question: usize },
    /// Show the hints of the question, ask again, and hand back the line.
    RevealHints { question: usize },
    /// Report the error, ask again, and hand back the line.
    Reject(InputError),
    /// Show the verdict with the question's answers, explanation and
    /// references, and report when done.
    Report { question: usize, verdict: Verdict },
    /// Ask whether to go through the exam again, and hand back the line.
    AskReplay,
    /// Show the score. The session is over.
    Finish(Score),
    /// The event does not belong to the state; nothing has changed.
    Unexpected,
}

/// What an action is, as plain mathematical data.
pub enum ActionView {
    AskCount,
    Present { question: int },
    AskResponse { question: int },
    RevealHints { question: int },
    Reject(InputError),
    Report { question: int, verdict: VerdictView },
    AskReplay,
    Finish(Score),
    Unexpected,
}

impl View for Action {
    type V = ActionView;

    open spec fn view(&self) -> ActionView {
        match self {
            Action::AskCount => ActionView::AskCount,
            Action::Present { question } => ActionView::Present { question: *question as int },
            Action::AskResponse { question } => ActionView::AskResponse {
                question: *question as int,
            },
            Action::RevealHints { question } => ActionView::RevealHints {
                question: *question as int,
            },
            Action::Reject(e) => ActionView::Reject(*e),
            Action::Report { question, verdict } => ActionView::Report {
                question: *question as int,
                verdict: verdict@,
            },
            Action::AskReplay => ActionView::AskReplay,
            Action::Finish(score) => ActionView::Finish(*score),
            Action::Unexpected => ActionView::Unexpected,
        }
    }
}

/// What a session is, as plain mathematical data.
pub struct SessionView {
    /// The exam that the questions come from.
    pub exam: ExamView,
    /// Where the session stands.
    pub state: SessionState,
    /// The questions to present, by their index in the exam, in the order
    /// of presentation.
    pub order: Seq<int>,
    /// The number of correct answers so far.
    pub correct: nat,
    /// The state of the generator that the next order is drawn from.
    pub seed: u64,
}

impl SessionView {
    /// The session presents questions of its exam, none of them twice, and
    /// has counted no more correct answers than it has graded.
    pub open spec fn wf(self) -> bool {
        &&& self.exam.wf()
        &&& self.order.len() <= self.exam.questions.len()
        &&& self.order.len() <= usize::MAX
        &&& forall|i: int|
            0 <= i < self.order.len() ==> 0 <= #[trigger] self.order[i] < self.exam.questions.len()
        &&& self.order.no_duplicates()
        &&& match self.state {
            SessionState::AwaitingCount => self.order.len() == 0 && self.correct == 0,
            SessionState::PresentingQuestion(i) => i < self.order.len() && self.correct <= i,
            SessionState::AwaitingResponse(i) => i < self.order.len() && self.correct <= i,
            SessionState::Graded(i) => i < self.order.len() && self.correct <= i + 1,
            SessionState::SessionComplete => self.correct <= self.order.len(),
        }
    }

    /// The number of questions that the session presents.
    pub open spec fn total(self) -> nat {
        self.order.len()
    }

    /// The score so far.
    pub open spec fn score(self) -> Score {
        Score { correct: self.correct as usize, total: self.order.len() as usize }
    }

    /// The question at hand, by its index in the exam; none before the
    /// questions have started and after they have ended.
    pub open spec fn current(self) -> Option<int> {
        match self.state {
            SessionState::PresentingQuestion(i) => Some(self.order[i as int]),
            SessionState::AwaitingResponse(i) => Some(self.order[i as int]),
            SessionState::Graded(i) => Some(self.order[i as int]),
            _ => None,
        }
    }

    /// The same session in another state.
    pub open spec fn at(self, state: SessionState) -> SessionView {
        SessionView { state, ..self }
    }
}

/// A session on `exam` for which the number of questions is yet to be
/// chosen.
pub open spec fn fresh(exam: ExamView, seed: u64) -> SessionView {
    SessionView {
        exam,
        state: SessionState::AwaitingCount,
        order: Seq::empty(),
        correct: 0,
        seed,
    }
}

/// The session once `count` questions have been asked for: it presents the
/// first `count` questions of an order drawn from its seed, or all of them
/// where the exam has fewer.
pub open spec fn started(s: SessionView, count: nat) -> SessionView {
    let n = s.exam.questions.len();
    let total = if count < n {
        count
    } else {
        n
    };
    let drawn = shuffled(n, s.seed);
    SessionView {
        exam: s.exam,
        state: if total == 0 {
            SessionState::SessionComplete
        } else {
            SessionState::PresentingQuestion(0)
        },
        order: drawn.0.take(total as int),
        correct: 0,
        seed: drawn.1,
    }
}

/// What a session that has just started is to do first.
pub open spec fn opening(s: SessionView) -> ActionView {
    if s.order.len() == 0 {
        ActionView::AskReplay
    } else {
        ActionView::Present { question: s.order[0] }
    }
}

/// What follows on the answer `r` to the question at position `i`: the
/// answer is graded, a correct one is counted, and the outcome is to be
/// shown. Any answer ends the question.
pub open spec fn graded(s: SessionView, i: usize, r: ResponseView) -> (SessionView, ActionView) {
    let question = s.order[i as int];
    let verdict = verdict_of(s.exam.questions[question], r);
    let gained: nat = if verdict is Correct {
        1
    } else {
        0
    };
    (
        SessionView { state: SessionState::Graded(i), correct: s.correct + gained, ..s },
        ActionView::Report { question, verdict },
    )
}

/// The state that follows on an event, and what is to be done.
///
/// A count that parses starts the questions; a shown question waits for its
/// answer; a line at a question is read and, where it is an answer, graded
/// and counted; a shown verdict leads to the next question or to the end;
/// at the end a yes starts over and anything else gives the score. A line
/// that cannot be read, or that asks for hints, leaves the session as it
/// is. So does an event that does not belong to the state.
pub open spec fn step_of(s: SessionView, e: EventView) -> (SessionView, ActionView) {
    match (s.state, e) {
        (SessionState::AwaitingCount, EventView::Line(line)) => match count_of(line) {
            Some(count) => (started(s, count as nat), opening(started(s, count as nat))),
            None => (s, ActionView::Reject(InputError::UnparsableCount)),
        },
        (SessionState::PresentingQuestion(i), EventView::Done) => (
            s.at(SessionState::AwaitingResponse(i)),
            ActionView::AskResponse { question: s.order[i as int] },
        ),
        (SessionState::AwaitingResponse(i), EventView::Line(line)) => {
            let question = s.order[i as int];
            let q = s.exam.questions[question];
            match reading_of(q, line) {
                Err(e) => (s, ActionView::Reject(e)),
                Ok(ReadingView::HintRequest) => (s, ActionView::RevealHints { question }),
                Ok(ReadingView::Answer(r)) => graded(s, i, r),
            }
        },
        (SessionState::AwaitingResponse(i), EventView::Answer(r)) => graded(s, i, r),
        (SessionState::Graded(i), EventView::Done) => if i + 1 < s.order.len() {
            (
                s.at(SessionState::PresentingQuestion((i + 1) as usize)),
                ActionView::Present { question: s.order[i + 1] },
            )
        } else {
            (s.at(SessionState::SessionComplete), ActionView::AskReplay)
        },
        (SessionState::SessionComplete, EventView::Line(line)) => if yes_or_no(line) == Some(
            true,
        ) {
            (fresh(s.exam, s.seed), ActionView::AskCount)
        } else {
            (s, ActionView::Finish(s.score()))
        },
        _ => (s, ActionView::Unexpected),
    }
}

/// A session that starts presents as many questions as were asked for, but
/// never more than the exam has, and none of them twice.
pub proof fn lemma_started(s: SessionView, count: nat)
    requires
        s.exam.wf(),
        count <= usize::MAX,
    ensures
        started(s, count).wf(),
        started(s, count).total() == if count < s.exam.questions.len() {
            count
        } else {
            s.exam.questions.len()
        },
{
    lemma_shuffled_permutation(s.exam.questions.len(), s.seed);
}

/// Whatever happens, a well-formed session stays well-formed: it goes on
/// presenting questions of its exam, none of them twice, and its count of
/// correct answers never exceeds the number of answers graded.
pub proof fn lemma_step_keeps_well_formed(s: SessionView, e: EventView)
    requires
        s.wf(),
    ensures
        step_of(s, e).0.wf(),
{
    match (s.state, e) {
        (SessionState::AwaitingCount, EventView::Line(line)) => {
            if let Some(count) = count_of(line) {
                lemma_started(s, count as nat);
            }
        },
        _ => {},
    }
}

/// Asking for the hints is no answer: the session stays exactly as it was,
/// so the answer that follows is graded as if the hints had never been
/// asked for.
pub proof fn lemma_hint_request_changes_nothing(
    s: SessionView,
    i: usize,
    hint: Seq<char>,
    e: EventView,
)
    requires
        s.wf(),
        s.state == SessionState::AwaitingResponse(i),
        s.exam.questions[s.order[i as int]].kind is FreeEntry,
        asks_for_hint(hint),
    ensures
        step_of(s, EventView::Line(hint)).0 == s,
        step_of(step_of(s, EventView::Line(hint)).0, e) == step_of(s, e),
{
}

/// The session after the questions at hand have been shown and answered
/// one after the other: each is shown, receives its answer, and has its
/// outcome shown.
pub open spec fn after_answers(s: SessionView, answers: Seq<ResponseView>) -> SessionView
    decreases answers.len(),
{
    if answers.len() == 0 {
        s
    } else {
        let before = after_answers(s, answers.drop_last());
        let shown = step_of(before, EventView::Done).0;
        let answered = step_of(shown, EventView::Answer(answers.last())).0;
        step_of(answered, EventView::Done).0
    }
}

/// How many of the answers are correct, where the answer at position `k` is
/// given to the question that the session presents at position `k`.
pub open spec fn correct_among(s: SessionView, answers: Seq<ResponseView>) -> nat
    decreases answers.len(),
{
    if answers.len() == 0 {
        0
    } else {
        let question = s.exam.questions[s.order[answers.len() - 1]];
        let gained: nat = if is_correct(question, answers.last()) {
            1
        } else {
            0
        };
        correct_among(s, answers.drop_last()) + gained
    }
}

/// A session goes through its questions in order and counts the correct
/// answers: after as many answers as it has questions it is complete, not
/// before, and its score is the number of correct answers out of the
/// number of questions.
pub proof fn lemma_round(s: SessionView, answers: Seq<ResponseView>)
    requires
        s.wf(),
        s.state == SessionState::PresentingQuestion(0),
        s.correct == 0,
        answers.len() <= s.total(),
    ensures
        after_answers(s, answers).wf(),
        after_answers(s, answers).exam == s.exam,
        after_answers(s, answers).order == s.order,
        after_answers(s, answers).correct == correct_among(s, answers),
        after_answers(s, answers).state == if answers.len() < s.total() {
            SessionState::PresentingQuestion(answers.len() as usize)
        } else {
            SessionState::SessionComplete
        },
    decreases answers.len(),
{
    if answers.len() > 0 {
        lemma_round(s, answers.drop_last());
    }
}

/// The questions of an exam in the order of presentation that `seed` stands
/// for: every question once, in an order that differs from seed to seed. A
/// session presents the first of them, as many as were asked for.
pub fn question_order<'a>(exam: &'a Exam, seed: u64) -> (order: Vec<&'a Question>)
    ensures
        order@.len() == exam@.questions.len(),
        forall|i: int|
            0 <= i < order@.len() ==> (#[trigger] order@[i])@ == exam@.questions[shuffled(
                exam@.questions.len(),
                seed,
            ).0[i]],
{
    let (indices, _) = shuffle(exam.len(), seed);
    let ghost drawn = shuffled(exam@.questions.len(), seed).0;
    let mut order: Vec<&'a Question> = Vec::new();
    let mut i: usize = 0;
    while i < indices.len()
        invariant
            i <= indices.len(),
            order@.len() == i,
            ints(indices@) == drawn,
            is_permutation(drawn, exam@.questions.len()),
            forall|k: int| 0 <= k < i ==> (#[trigger] order@[k])@ == exam@.questions[drawn[k]],
        decreases indices.len() - i,
    {
        assert(drawn[i as int] == indices@[i as int]);
        order.push(exam.at(indices[i]));
        i += 1;
    }
    order
}

/// One run through questions of an exam, from the choice of their number
/// to the score. It borrows the exam and never changes it.
#[derive(Debug)]
pub struct QuizSession<'a> {
    exam: &'a Exam,
    state: SessionState,
    order: Vec<usize>,
    correct: usize,
    seed: u64,
}

impl<'a> View for QuizSession<'a> {
    type V = SessionView;

    closed spec fn view(&self) -> SessionView {
        SessionView {
            exam: self.exam@,
            state: self.state,
            order: ints(self.order@),
            correct: self.correct as nat,
            seed: self.seed,
        }
    }
}

impl<'a> QuizSession<'a> {
    /// Every session is well-formed.
    #[verifier::type_invariant]
    pub open spec fn inv(&self) -> bool {
        self@.wf()
    }

    /// A session on `exam` that waits for the number of questions. The
    /// order of presentation will be drawn from `seed`.
    pub fn new(exam: &'a Exam, seed: u64) -> (session: Self)
        ensures
            session@ == fresh(exam@, seed),
            session@.wf(),
    {
        proof {
            use_type_invariant(exam);
        }
        let order: Vec<usize> = Vec::new();
        assert(ints(order@) =~= Seq::<int>::empty());
        QuizSession { exam, state: SessionState::AwaitingCount, order, correct: 0, seed }
    }

    /// Starts the questions of a session that waits for their number.
    fn start(self, count: usize) -> (session: Self)
        requires
            self@.state is AwaitingCount,
        ensures
            session@ == started(self@, count as nat),
            session@.wf(),
    {
        proof {
            use_type_invariant(&self);
            use_type_invariant(self.exam);
            lemma_started(self@, count as nat);
        }
        let n = self.exam.len();
        let total = if count < n {
            count
        } else {
            n
        };
        let (mut order, seed) = shuffle(n, self.seed);
        let ghost drawn = ints(order@);
        order.truncate(total);
        assert(ints(order@) =~= drawn.take(total as int));
        let state = if total == 0 {
            SessionState::SessionComplete
        } else {
            SessionState::PresentingQuestion(0)
        };
        QuizSession { exam: self.exam, state, order, correct: 0, seed }
    }

    /// Begins a session that presents `requested_count` questions of `exam`
    /// in an order drawn from `seed`, or all of them where the exam has
    /// fewer. A count of zero is refused.
    pub fn begin(exam: &'a Exam, requested_count: usize, seed: u64) -> (begun: Result<
        Self,
        InputError,
    >)
        ensures
            match begun {
                Ok(session) => {
                    &&& requested_count > 0
                    &&& session@ == started(fresh(exam@, seed), requested_count as nat)
                    &&& session@.total() == if requested_count < exam@.questions.len() {
                        requested_count as nat
                    } else {
                        exam@.questions.len()
                    }
                    &&& session@.wf()
                },
                Err(e) => requested_count == 0 && e == InputError::UnparsableCount,
            },
    {
        if requested_count == 0 {
            Err(InputError::UnparsableCount)
        } else {
            proof {
                use_type_invariant(exam);
                lemma_started(fresh(exam@, seed), requested_count as nat);
            }
            Ok(Self::new(exam, seed).start(requested_count))
        }
    }

    /// Where the session stands.
    pub fn state(&self) -> (state: SessionState)
        ensures
            state == self@.state,
    {
        self.state
    }

    /// The exam that the questions come from.
    pub fn exam(&self) -> (exam: &'a Exam)
        ensures
            exam@ == self@.exam,
    {
        self.exam
    }

    /// The question at hand, by its index in the exam.
    pub fn current(&self) -> (question: Option<usize>)
        ensures
            question is Some <==> self@.current() is Some,
            question matches Some(index) ==> self@.current() == Some(index as int),
    {
        proof {
            use_type_invariant(self);
        }
        match self.state {
            SessionState::PresentingQuestion(i) => Some(self.order[i]),
            SessionState::AwaitingResponse(i) => Some(self.order[i]),
            SessionState::Graded(i) => Some(self.order[i]),
            _ => None,
        }
    }

    /// The score so far.
    pub fn score(&self) -> (score: Score)
        ensures
            score == self@.score(),
    {
        proof {
            use_type_invariant(self);
        }
        Score { correct: self.correct, total: self.order.len() }
    }

    /// The final score, once all questions have been answered.
    pub fn finish(&self) -> (score: Option<Score>)
        ensures
            score == if self@.state is SessionComplete {
                Some(self@.score())
            } else {
                None
            },
    {
        match self.state {
            SessionState::SessionComplete => Some(self.score()),
            _ => None,
        }
    }

    /// Grades the answer to the question at position `i` and counts it.
    fn record(self, i: usize, response: &Response) -> (next: (Self, Action))
        requires
            self@.state == SessionState::AwaitingResponse(i),
        ensures
            (next.0@, next.1@) == graded(self@, i, response@),
            next.0@.wf(),
    {
        proof {
            use_type_invariant(&self);
            use_type_invariant(self.exam);
        }
        let question = self.order[i];
        assert(self@.order[i as int] == question);
        let verdict = grade(self.exam.at(question), response);
        let correct = match verdict {
            Verdict::Correct => self.correct + 1,
            _ => self.correct,
        };
        (
            QuizSession { state: SessionState::Graded(i), correct, ..self },
            Action::Report { question, verdict },
        )
    }

    /// Takes the session one step on: the state that follows on `event`,
    /// and what is to be done next.
    pub fn step(self, event: Event) -> (next: (Self, Action))
        ensures
            (next.0@, next.1@) == step_of(self@, event@),
            next.0@.wf(),
    {
        proof {
            use_type_invariant(&self);
            use_type_invariant(self.exam);
        }
        match (self.state, event) {
            (SessionState::AwaitingCount, Event::Line(line)) => match parse_count(line.as_str()) {
                Ok(count) => {
                    let session = self.start(count);
                    let action = if session.order.len() == 0 {
                        Action::AskReplay
                    } else {
                        Action::Present { question: session.order[0] }
                    };
                    (session, action)
                },
                Err(e) => (self, Action::Reject(e)),
            },
            (SessionState::PresentingQuestion(i), Event::Done) => {
                let question = self.order[i];
                (
                    QuizSession { state: SessionState::AwaitingResponse(i), ..self },
                    Action::AskResponse { question },
                )
            },
            (SessionState::AwaitingResponse(i), Event::Line(line)) => {
                let question = self.order[i];
                assert(self@.order[i as int] == question);
                match read_response(self.exam.at(question), line.as_str()) {
                    Err(e) => (self, Action::Reject(e)),
                    Ok(Reading::HintRequest) => (self, Action::RevealHints { question }),
                    Ok(Reading::Answer(response)) => self.record(i, &response),
                }
            },
            (SessionState::AwaitingResponse(i), Event::Answer(response)) => self.record(
                i,
                &response,
            ),
            (SessionState::Graded(i), Event::Done) => {
                if i + 1 < self.order.len() {
                    let question = self.order[i + 1];
                    (
                        QuizSession { state: SessionState::PresentingQuestion(i + 1), ..self },
                        Action::Present { question },
                    )
                } else {
                    (
                        QuizSession { state: SessionState::SessionComplete, ..self },
                        Action::AskReplay,
                    )
                }
            },
            (SessionState::SessionComplete, Event::Line(line)) => {
                if wants_replay(line.as_str()) {
                    (Self::new(self.exam, self.seed), Action::AskCount)
                } else {
                    let score = self.score();
                    (self, Action::Finish(score))
                }
            },
            _ => (self, Action::Unexpected),
        }
    }
}

} // verus!
