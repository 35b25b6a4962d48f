//! A single gradable question and the rules that its fields obey.

use crate::outcome::viewed;
use crate::text_set::{
    canonical, canonical_of, clone_texts, lemma_canonical_of, lemma_sorted_no_duplicates,
    lemma_sorted_unique, same_text, same_texts, strictly_sorted, texts,
};
use std::collections::hash_map::DefaultHasher;
use std::hash::Hasher;
use vstd::prelude::*;
use vstd::std_specs::cmp::PartialEqSpec;
use vstd::std_specs::hash::DefaultHasherAdditionalSpecFns;
use vstd::utf8::encode_utf8;

verus! {

/// How a question is answered and graded.
#[derive(Clone, Copy, PartialEq, Eq, Structural, Debug, Hash)]
pub enum QuestionType {
    /// One of the choices is picked; one of them is right.
    SingleChoice,
    /// Any number of the choices are picked; a set of them is right.
    MultiSelect,
    /// A text is typed in; the choices, if any, are hints.
    FreeEntry,
}

/// A field of an exam document.
#[derive(Clone, Copy, PartialEq, Eq, Structural, Debug, Hash)]
pub enum Field {
    Name,
    Questions,
    Type,
    Prompt,
    Choices,
    Answer,
    Explanation,
    Refs,
}

/// Why an exam could not be loaded.
#[derive(Clone, Copy, PartialEq, Eq, Structural, Debug, Hash)]
pub enum LoadError {
    /// The source could not be read.
    Unreadable,
    /// The source is not a well-formed document.
    Malformed,
    /// A required field is absent.
    MissingField(Field),
    /// The type of a question is none of the three known ones.
    UnrecognizedType,
    /// A field is present but its value breaks a rule of the data model.
    InvalidField(Field),
}

/// What a question is, as plain mathematical data.
pub struct QuestionView {
    pub kind: QuestionType,
    pub prompt: Seq<char>,
    pub choices: Seq<Seq<char>>,
    pub answer: Seq<Seq<char>>,
    pub explanation: Seq<char>,
    pub refs: Seq<Seq<char>>,
}

impl QuestionView {
    /// The rules of the data model: a prompt that is not empty, choices and
    /// answers held as canonical sets, at least one answer, and exactly one
    /// for a single-choice question.
    pub open spec fn wf(self) -> bool {
        &&& self.prompt.len() > 0
        &&& strictly_sorted(self.choices)
        &&& strictly_sorted(self.answer)
        &&& self.answer.len() > 0
        &&& (self.kind is SingleChoice ==> self.answer.len() == 1)
    }

    /// The choices that are offered for picking: all of them, but none for
    /// a free-entry question.
    pub open spec fn options(self) -> Seq<Seq<char>> {
        if self.kind is FreeEntry {
            Seq::empty()
        } else {
            self.choices
        }
    }

    /// The hints of a free-entry question: its choices that are not empty.
    /// Other questions have none.
    pub open spec fn hints(self) -> Seq<Seq<char>> {
        if self.kind is FreeEntry {
            self.choices.filter(|c: Seq<char>| c.len() > 0)
        } else {
            Seq::empty()
        }
    }
}

/// The question that the given parts make, or the rule that they break.
/// Choices and answers are sets: order and repetition in the input do not
/// matter.
pub open spec fn assemble(
    kind: QuestionType,
    prompt: Seq<char>,
    choices: Seq<Seq<char>>,
    answer: Seq<Seq<char>>,
    explanation: Seq<char>,
    refs: Seq<Seq<char>>,
) -> Result<QuestionView, LoadError> {
    if prompt.len() == 0 {
        Err(LoadError::InvalidField(Field::Prompt))
    } else if canonical_of(answer).len() == 0 || (kind is SingleChoice && canonical_of(
        answer,
    ).len() != 1) {
        Err(LoadError::InvalidField(Field::Answer))
    } else {
        Ok(
            QuestionView {
                kind,
                prompt,
                choices: canonical_of(choices),
                answer: canonical_of(answer),
                explanation,
                refs,
            },
        )
    }
}

/// Parts make a question exactly when the prompt is not empty, there is an
/// answer, and a single-choice question has one answer only. The question
/// made obeys the rules of the data model and has the given choices and
/// answers, as sets.
pub proof fn lemma_assemble(
    kind: QuestionType,
    prompt: Seq<char>,
    choices: Seq<Seq<char>>,
    answer: Seq<Seq<char>>,
    explanation: Seq<char>,
    refs: Seq<Seq<char>>,
)
    ensures
        assemble(kind, prompt, choices, answer, explanation, refs) is Ok <==> {
            &&& prompt.len() > 0
            &&& answer.len() > 0
            &&& (kind is SingleChoice ==> answer.to_set().len() == 1)
        },
        assemble(kind, prompt, choices, answer, explanation, refs) matches Ok(q) ==> {
            &&& q.wf()
            &&& q.choices.to_set() == choices.to_set()
            &&& q.answer.to_set() == answer.to_set()
        },
{
    lemma_canonical_of(choices);
    lemma_canonical_of(answer);
    let kept = canonical_of(answer);
    lemma_sorted_no_duplicates(kept);
    kept.unique_seq_to_set();
    if answer.len() > 0 {
        assert(answer.to_set().contains(answer[0]));
    }
    if kept.len() > 0 {
        assert(kept.to_set().contains(kept[0]));
    }
}

/// The byte that stands for a type of question in a digest.
pub open spec fn kind_tag(kind: QuestionType) -> u8 {
    match kind {
        QuestionType::SingleChoice => 1,
        QuestionType::MultiSelect => 2,
        QuestionType::FreeEntry => 3,
    }
}

/// What a list of texts feeds to the hasher: each text in its UTF-8
/// encoding, then a byte that no text holds, to mark the end of the list.
pub open spec fn list_input(list: Seq<Seq<char>>) -> Seq<Seq<u8>> {
    list.map_values(|t: Seq<char>| encode_utf8(t)).push(seq![0xffu8])
}

/// What a question feeds to the hasher: all of its fields, one after the
/// other.
pub open spec fn digest_input(q: QuestionView) -> Seq<Seq<u8>> {
    seq![seq![kind_tag(q.kind)], encode_utf8(q.prompt)] + list_input(q.choices) + list_input(
        q.answer,
    ) + seq![encode_utf8(q.explanation)] + list_input(q.refs)
}

/// The digest of a question: what the standard hasher makes of all of its
/// fields.
pub open spec fn digest_of(q: QuestionView) -> u64 {
    DefaultHasher::spec_finish(digest_input(q))
}

/// Feeds a list of texts to the hasher.
fn feed_list(hasher: &mut DefaultHasher, list: &Vec<String>)
    ensures
        final(hasher)@ == old(hasher)@ + list_input(texts(list@)),
{
    let ghost start = hasher@;
    let ghost encoded = texts(list@).map_values(|t: Seq<char>| encode_utf8(t));
    let mut i: usize = 0;
    while i < list.len()
        invariant
            i <= list.len(),
            encoded == texts(list@).map_values(|t: Seq<char>| encode_utf8(t)),
            hasher@ == start + encoded.take(i as int),
        decreases list.len() - i,
    {
        hasher.write(list[i].as_str().as_bytes());
        i += 1;
    }
    let mark: [u8; 1] = [0xff];
    hasher.write(mark.as_slice());
    assert(mark@ =~= seq![0xffu8]);
}

/// One gradable item of an exam. It does not change once it is made.
#[derive(Debug, Hash)]
pub struct Question {
    kind: QuestionType,
    prompt: String,
    choices: Vec<String>,
    answer: Vec<String>,
    explanation: String,
    refs: Vec<String>,
}

impl View for Question {
    type V = QuestionView;

    closed spec fn view(&self) -> QuestionView {
        QuestionView {
            kind: self.kind,
            prompt: self.prompt@,
            choices: texts(self.choices@),
            answer: texts(self.answer@),
            explanation: self.explanation@,
            refs: texts(self.refs@),
        }
    }
}

impl Clone for Question {
    fn clone(&self) -> (copy: Self)
        ensures
            copy@ == self@,
    {
        proof {
            use_type_invariant(self);
        }
        Question {
            kind: self.kind,
            prompt: self.prompt.clone(),
            choices: clone_texts(&self.choices),
            answer: clone_texts(&self.answer),
            explanation: self.explanation.clone(),
            refs: clone_texts(&self.refs),
        }
    }
}

impl PartialEq for Question {
    fn eq(&self, other: &Self) -> (same: bool) {
        self.kind == other.kind && same_text(self.prompt.as_str(), other.prompt.as_str())
            && same_texts(&self.choices, &other.choices) && same_texts(&self.answer, &other.answer)
            && same_text(self.explanation.as_str(), other.explanation.as_str()) && same_texts(
            &self.refs,
            &other.refs,
        )
    }
}

impl vstd::std_specs::cmp::PartialEqSpecImpl for Question {
    open spec fn obeys_eq_spec() -> bool {
        true
    }

    /// Two questions are equal when every field matches by value.
    open spec fn eq_spec(&self, other: &Self) -> bool {
        self@ == other@
    }
}

impl Eq for Question {

}

/// Equality of questions is reflexive, symmetric and transitive.
pub proof fn lemma_equality_is_equivalence(a: Question, b: Question, c: Question)
    ensures
        a.eq_spec(&a),
        a.eq_spec(&b) ==> b.eq_spec(&a),
        a.eq_spec(&b) && b.eq_spec(&c) ==> a.eq_spec(&c),
{
}

/// Two questions are equal exactly when every field matches by value, the
/// choices and the answers as sets.
pub proof fn lemma_equality_is_structural(a: QuestionView, b: QuestionView)
    requires
        a.wf(),
        b.wf(),
    ensures
        a == b <==> {
            &&& a.kind == b.kind
            &&& a.prompt == b.prompt
            &&& a.choices.to_set() == b.choices.to_set()
            &&& a.answer.to_set() == b.answer.to_set()
            &&& a.explanation == b.explanation
            &&& a.refs == b.refs
        },
{
    if a.choices.to_set() == b.choices.to_set() {
        lemma_sorted_unique(a.choices, b.choices);
    }
    if a.answer.to_set() == b.answer.to_set() {
        lemma_sorted_unique(a.answer, b.answer);
    }
}

/// Equal questions have the same digest.
pub proof fn lemma_equal_questions_hash_alike(a: Question, b: Question)
    requires
        a.eq_spec(&b),
    ensures
        digest_of(a@) == digest_of(b@),
{
}

impl Question {
    /// Every question obeys the rules of the data model.
    #[verifier::type_invariant]
    pub open spec fn inv(&self) -> bool {
        self@.wf()
    }

    /// Makes a question from its parts. Choices and answers become sets;
    /// the parts are refused where they break a rule of the data model.
    pub fn new(
        kind: QuestionType,
        prompt: String,
        choices: Vec<String>,
        answer: Vec<String>,
        explanation: String,
        refs: Vec<String>,
    ) -> (made: Result<Question, LoadError>)
        ensures
            viewed(made) == assemble(
                kind,
                prompt@,
                texts(choices@),
                texts(answer@),
                explanation@,
                texts(refs@),
            ),
            made matches Ok(q) ==> q@.wf(),
    {
        if prompt.as_str().is_empty() {
            return Err(LoadError::InvalidField(Field::Prompt));
        }
        let answer = canonical(answer);
        if answer.len() == 0 {
            return Err(LoadError::InvalidField(Field::Answer));
        }
        if matches!(kind, QuestionType::SingleChoice) && answer.len() != 1 {
            return Err(LoadError::InvalidField(Field::Answer));
        }
        let choices = canonical(choices);
        Ok(Question { kind, prompt, choices, answer, explanation, refs })
    }

    /// A digest of all fields of the question. Equal questions have equal
    /// digests.
    pub fn digest(&self) -> (digest: u64)
        ensures
            digest == digest_of(self@),
    {
        let tag: [u8; 1] = [
            match self.kind {
                QuestionType::SingleChoice => 1,
                QuestionType::MultiSelect => 2,
                QuestionType::FreeEntry => 3,
            },
        ];
        assert(tag@ =~= seq![kind_tag(self.kind)]);
        let mut hasher = DefaultHasher::new();
        hasher.write(tag.as_slice());
        hasher.write(self.prompt.as_str().as_bytes());
        feed_list(&mut hasher, &self.choices);
        feed_list(&mut hasher, &self.answer);
        hasher.write(self.explanation.as_str().as_bytes());
        feed_list(&mut hasher, &self.refs);
        assert(hasher@ =~= digest_input(self@));
        hasher.finish()
    }

    /// How the question is answered and graded.
    pub fn kind(&self) -> (kind: QuestionType)
        ensures
            kind == self@.kind,
    {
        self.kind
    }

    /// The text to display.
    pub fn prompt(&self) -> (prompt: &str)
        ensures
            prompt@ == self@.prompt,
    {
        self.prompt.as_str()
    }

    /// The options to pick from or, for a free-entry question, the hints.
    pub fn choices(&self) -> (choices: &Vec<String>)
        ensures
            texts(choices@) == self@.choices,
    {
        &self.choices
    }

    /// The correct answers.
    pub fn answer(&self) -> (answer: &Vec<String>)
        ensures
            texts(answer@) == self@.answer,
    {
        &self.answer
    }

    /// The explanation to show after grading; none where it is empty.
    pub fn explanation(&self) -> (shown: Option<&str>)
        ensures
            shown is None <==> self@.explanation.len() == 0,
            shown matches Some(text) ==> text@ == self@.explanation,
    {
        if self.explanation.as_str().is_empty() {
            None
        } else {
            Some(self.explanation.as_str())
        }
    }

    /// The choices that are offered for picking.
    pub fn options(&self) -> (options: Vec<String>)
        ensures
            texts(options@) == self@.options(),
    {
        if matches!(self.kind, QuestionType::FreeEntry) {
            Vec::new()
        } else {
            clone_texts(&self.choices)
        }
    }

    /// The hints that may be revealed before an answer is given.
    pub fn hints(&self) -> (hints: Vec<String>)
        ensures
            texts(hints@) == self@.hints(),
    {
        let mut hints: Vec<String> = Vec::new();
        if !matches!(self.kind, QuestionType::FreeEntry) {
            return hints;
        }
        let ghost all = texts(self.choices@);
        let ghost kept = |c: Seq<char>| c.len() > 0;
        proof {
            reveal(Seq::filter);
        }
        let mut i: usize = 0;
        while i < self.choices.len()
            invariant
                i <= self.choices.len(),
                all == texts(self.choices@),
                kept == |c: Seq<char>| c.len() > 0,
                texts(hints@) == all.take(i as int).filter(kept),
            decreases self.choices.len() - i,
        {
            proof {
                assert(all.take(i as int + 1) =~= all.take(i as int).push(all[i as int]));
                all.take(i as int).lemma_filter_push(all[i as int], kept);
            }
            if !self.choices[i].as_str().is_empty() {
                hints.push(self.choices[i].clone());
            }
            i += 1;
        }
        assert(all.take(all.len() as int) =~= all);
        hints
    }

    /// The references, which are always shown.
    pub fn refs(&self) -> (refs: &Vec<String>)
        ensures
            texts(refs@) == self@.refs,
    {
        &self.refs
    }
}

} // verus!
