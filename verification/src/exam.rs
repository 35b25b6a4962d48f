//! A named collection of questions in which no question occurs twice.

use crate::question::{Question, QuestionView};
use crate::session::{fresh, QuizSession};
use vstd::prelude::*;

verus! {

/// The elements of `s` in the order of their first occurrence, each once.
pub open spec fn distinct<A>(s: Seq<A>) -> Seq<A>
    decreases s.len(),
{
    if s.len() == 0 {
        s
    } else {
        let rest = distinct(s.drop_last());
        if rest.contains(s.last()) {
            rest
        } else {
            rest.push(s.last())
        }
    }
}

/// `distinct` keeps every element, keeps none twice and adds none.
pub proof fn lemma_distinct<A>(s: Seq<A>)
    ensures
        distinct(s).no_duplicates(),
        distinct(s).to_set() == s.to_set(),
        distinct(s).len() <= s.len(),
    decreases s.len(),
{
    if s.len() > 0 {
        let front = s.drop_last();
        let rest = distinct(front);
        lemma_distinct(front);
        assert(s =~= front.push(s.last()));
        front.lemma_push_to_set_commute(s.last());
        if !rest.contains(s.last()) {
            rest.lemma_push_to_set_commute(s.last());
        }
    }
}

/// A sequence without repetitions is kept as it is.
pub proof fn lemma_distinct_keeps_distinct<A>(s: Seq<A>)
    requires
        s.no_duplicates(),
    ensures
        distinct(s) == s,
    decreases s.len(),
{
    if s.len() > 0 {
        lemma_distinct_keeps_distinct(s.drop_last());
    }
}

/// A second copy of an element changes nothing: where the element is there
/// already, one more of it is dropped.
pub proof fn lemma_copies_collapse<A>(s: Seq<A>, q: A)
    ensures
        s.contains(q) ==> distinct(s.push(q)) == distinct(s),
        distinct(s.push(q).push(q)) == distinct(s.push(q)),
        distinct(seq![q, q]) == seq![q],
{
    lemma_distinct(s);
    lemma_distinct(s.push(q));
    assert(s.push(q).drop_last() =~= s);
    assert(s.push(q).push(q).drop_last() =~= s.push(q));
    if s.contains(q) {
        assert(s.to_set().contains(q));
    }
    assert(distinct(s.push(q)).to_set().contains(q));
    let one = seq![q];
    assert(distinct(one.drop_last()) =~= Seq::<A>::empty());
    assert(distinct(one) =~= one);
    assert(seq![q, q].drop_last() =~= one);
}

/// What each question of a sequence is.
pub open spec fn views(s: Seq<Question>) -> Seq<QuestionView> {
    s.map_values(|q: Question| q@)
}

/// What an exam is, as plain mathematical data.
pub struct ExamView {
    pub name: Seq<char>,
    pub questions: Seq<QuestionView>,
}

impl ExamView {
    /// No question occurs twice, and each obeys the rules of the data model.
    pub open spec fn wf(self) -> bool {
        &&& self.questions.no_duplicates()
        &&& forall|i: int| 0 <= i < self.questions.len() ==> (#[trigger] self.questions[i]).wf()
    }
}

/// Whether a question that equals `q` in every field is among `kept`.
fn holds(kept: &Vec<Question>, q: &Question) -> (found: bool)
    ensures
        found == views(kept@).contains(q@),
{
    let mut i: usize = 0;
    while i < kept.len()
        invariant
            i <= kept.len(),
            forall|k: int| 0 <= k < i ==> views(kept@)[k] != q@,
        decreases kept.len() - i,
    {
        if q.eq(&kept[i]) {
            assert(views(kept@)[i as int] == q@);
            return true;
        }
        i += 1;
    }
    false
}

/// A named set of questions. It owns its questions and does not change once
/// it is made.
#[derive(Debug)]
pub struct Exam {
    name: String,
    questions: Vec<Question>,
}

impl View for Exam {
    type V = ExamView;

    closed spec fn view(&self) -> ExamView {
        ExamView { name: self.name@, questions: views(self.questions@) }
    }
}

impl Exam {
    /// Every exam holds each of its questions once.
    #[verifier::type_invariant]
    pub open spec fn inv(&self) -> bool {
        self@.wf()
    }

    /// Makes an exam of the given questions. A question that equals an
    /// earlier one in every field is dropped.
    pub fn new(name: String, questions: Vec<Question>) -> (exam: Exam)
        ensures
            exam@.name == name@,
            exam@.questions == distinct(views(questions@)),
            exam@.wf(),
    {
        let ghost given = views(questions@);
        let mut kept: Vec<Question> = Vec::new();
        for q in it: questions
            invariant
                it.seq() == questions@,
                given == views(questions@),
                views(kept@) == distinct(given.take(it.index())),
                forall|i: int| 0 <= i < kept@.len() ==> (#[trigger] views(kept@)[i]).wf(),
        {
            proof {
                use_type_invariant(&q);
                let n = it.index();
                assert(given.take(n + 1).drop_last() =~= given.take(n));
            }
            let ghost before = views(kept@);
            if !holds(&kept, &q) {
                kept.push(q);
                assert(views(kept@) =~= before.push(q@));
            }
        }
        proof {
            assert(given.take(given.len() as int) =~= given);
            lemma_distinct(given);
        }
        Exam { name, questions: kept }
    }

    /// The display label.
    pub fn name(&self) -> (name: &str)
        ensures
            name@ == self@.name,
    {
        self.name.as_str()
    }

    /// The number of questions.
    pub fn len(&self) -> (n: usize)
        ensures
            n == self@.questions.len(),
    {
        self.questions.len()
    }

    /// The question at an index that the exam has.
    pub(crate) fn at(&self, index: usize) -> (q: &Question)
        requires
            index < self@.questions.len(),
        ensures
            q@ == self@.questions[index as int],
    {
        &self.questions[index]
    }

    /// Opens a study session on the exam. The session waits for the number
    /// of questions; the order of presentation will be drawn from `seed`.
    pub fn study(&self, seed: u64) -> (session: QuizSession<'_>)
        ensures
            session@ == fresh(self@, seed),
            session@.wf(),
    {
        QuizSession::new(self, seed)
    }

    /// The question at `index`, if there is one.
    pub fn question(&self, index: usize) -> (found: Option<&Question>)
        ensures
            found is Some <==> index < self@.questions.len(),
            found matches Some(q) ==> q@ == self@.questions[index as int],
    {
        if index < self.questions.len() {
            Some(&self.questions[index])
        } else {
            None
        }
    }
}

} // verus!
