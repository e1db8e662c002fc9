//! The judge protocol: typed questions about a payload and typed answers.
//!
//! This is the vocabulary shared by every judge. It mirrors the three question
//! kinds of TypeSafe AI's System One API without depending on its wire format.

use crate::double::Double;
use crate::event::EmptyId;
use crate::ordered;
use crate::ordered::{replicas, MapKey, OrderedMap, Replica};
use crate::probability::Probability;
use crate::text;
use crate::text::{place_text, Placement};
use vstd::prelude::*;

verus! {

/// Name of a question within a [`QuestionSet`].
///
/// Invariant: non-empty. Its view is the name text.
#[derive(Debug, PartialEq, Eq, PartialOrd, Ord, Hash)]
pub struct QuestionName {
    text: String,
}

impl QuestionName {
    #[verifier::type_invariant]
    spec fn non_empty(self) -> bool {
        self.text@.len() > 0
    }
}

impl View for QuestionName {
    type V = Seq<char>;

    closed spec fn view(&self) -> Seq<char> {
        self.text@
    }
}

impl QuestionName {
    /// Validates that `name` is non-empty.
    pub fn new(name: &str) -> (checked: Result<QuestionName, EmptyId>)
        ensures
            checked is Ok <==> name@.len() > 0,
            checked matches Ok(question) ==> question@ == name@,
    {
        if name.is_empty() {
            Err(EmptyId)
        } else {
            Ok(QuestionName { text: name.to_owned() })
        }
    }

    /// Names a question by a literal that is known to be non-empty.
    pub(crate) fn literal(name: &'static str) -> (question: QuestionName)
        requires
            name@.len() > 0,
        ensures
            question@ == name@,
    {
        QuestionName { text: name.to_owned() }
    }

    /// The name text.
    pub fn as_str(&self) -> (text: &str)
        ensures
            text@ == self@,
            text@.len() > 0,
    {
        proof {
            use_type_invariant(self);
        }
        self.text.as_str()
    }
}

impl Clone for QuestionName {
    fn clone(&self) -> (copy: QuestionName)
        ensures
            copy == *self,
    {
        proof {
            use_type_invariant(self);
        }
        QuestionName { text: self.text.clone() }
    }
}

impl Replica for QuestionName {
    fn replica(&self) -> (copy: QuestionName) {
        self.clone()
    }
}

impl MapKey for QuestionName {
    open spec fn before(a: Seq<char>, b: Seq<char>) -> bool {
        text::text_before(a, b)
    }

    proof fn irreflexive(a: Seq<char>) {
        text::lemma_text_before_irreflexive(a);
    }

    proof fn transitive(a: Seq<char>, b: Seq<char>, c: Seq<char>) {
        text::lemma_text_before_transitive(a, b, c);
    }

    proof fn connected(a: Seq<char>, b: Seq<char>) {
        text::lemma_text_before_connected(a, b);
    }

    fn place(&self, other: &Self) -> (placement: Placement) {
        place_text(self.as_str(), other.as_str())
    }
}

/// A typed question the judge answers about a payload.
#[derive(Debug, PartialEq, Eq)]
pub enum Question {
    /// A yes/no proposition. The answer is the probability that it holds.
    Noul {
        /// The proposition, phrased so that "yes" means it holds.
        instructions: String,
    },
    /// One option among several. The answer is a probability per option.
    Choice {
        /// What is being chosen.
        instructions: String,
        /// Option name to option description.
        criteria: OrderedMap<String, String>,
    },
    /// A rating on an ordered scale. The answer is a distribution over levels.
    Score {
        /// What is being rated.
        instructions: String,
        /// Level names from lowest to highest.
        levels: Vec<String>,
    },
}

/// What a [`Question`] stands for.
#[verifier::ext_equal]
pub enum QuestionView {
    /// A yes/no proposition.
    Noul { instructions: Seq<char> },
    /// One option among several.
    Choice { instructions: Seq<char>, criteria: Map<Seq<char>, Seq<char>> },
    /// A rating on an ordered scale.
    Score { instructions: Seq<char>, levels: Seq<Seq<char>> },
}

impl View for Question {
    type V = QuestionView;

    open spec fn view(&self) -> QuestionView {
        match *self {
            Question::Noul { instructions } => QuestionView::Noul { instructions: instructions@ },
            Question::Choice { instructions, criteria } => QuestionView::Choice {
                instructions: instructions@,
                criteria: criteria@,
            },
            Question::Score { instructions, levels } => QuestionView::Score {
                instructions: instructions@,
                levels: ordered::views(levels@),
            },
        }
    }
}

impl Clone for Question {
    fn clone(&self) -> (copy: Question)
        ensures
            copy@ == self@,
    {
        match self {
            Question::Noul { instructions } => Question::Noul { instructions: instructions.clone() },
            Question::Choice { instructions, criteria } => Question::Choice {
                instructions: instructions.clone(),
                criteria: criteria.clone(),
            },
            Question::Score { instructions, levels } => Question::Score {
                instructions: instructions.clone(),
                levels: replicas(levels.as_slice()),
            },
        }
    }
}

impl Replica for Question {
    fn replica(&self) -> (copy: Question) {
        self.clone()
    }
}

/// A set of named questions asked in one judge request.
///
/// Its view maps each name to its question.
#[derive(Debug, PartialEq, Eq)]
pub struct QuestionSet {
    questions: OrderedMap<QuestionName, Question>,
}

impl View for QuestionSet {
    type V = Map<Seq<char>, QuestionView>;

    closed spec fn view(&self) -> Map<Seq<char>, QuestionView> {
        self.questions@
    }
}

/// The questions of a set in name order.
pub open spec fn question_list(questions: Map<Seq<char>, QuestionView>) -> Seq<
    (Seq<char>, QuestionView),
> {
    ordered::sorted_entries::<QuestionName, QuestionView>(questions)
}

impl QuestionSet {
    /// An empty set.
    pub fn new() -> (set: QuestionSet)
        ensures
            set@ == Map::<Seq<char>, QuestionView>::empty(),
    {
        QuestionSet { questions: OrderedMap::new() }
    }

    /// The set made by adding `entries` in order.
    pub fn from_iter(entries: Vec<(QuestionName, Question)>) -> (set: QuestionSet)
        ensures
            set@ == ordered::collected(ordered::listing(entries@)),
    {
        QuestionSet { questions: OrderedMap::collect(entries) }
    }

    /// Adds or replaces a question.
    pub fn insert(&mut self, name: QuestionName, question: Question)
        ensures
            final(self)@ == old(self)@.insert(name@, question@),
    {
        self.questions.insert(name, question);
    }

    /// The questions in name order.
    pub fn iter(&self) -> (entries: Vec<(&QuestionName, &Question)>)
        ensures
            ordered::listable::<QuestionName, QuestionView>(self@),
            entries@.len() == question_list(self@).len(),
            forall|i: int|
                0 <= i < entries@.len() ==> (#[trigger] entries@[i]).0@ == question_list(self@)[i].0
                    && entries@[i].1@ == question_list(self@)[i].1,
    {
        self.questions.iter()
    }

    /// Number of questions.
    pub fn len(&self) -> (len: usize)
        ensures
            len == question_list(self@).len(),
    {
        self.questions.len()
    }

    /// Semantic predicate: no questions to ask.
    pub fn is_empty(&self) -> (empty: bool)
        ensures
            empty <==> self@ == Map::<Seq<char>, QuestionView>::empty(),
    {
        self.questions.is_empty()
    }
}

impl Default for QuestionSet {
    fn default() -> (set: QuestionSet)
        ensures
            set@ == Map::<Seq<char>, QuestionView>::empty(),
    {
        QuestionSet::new()
    }
}

impl Clone for QuestionSet {
    fn clone(&self) -> (copy: QuestionSet)
        ensures
            copy@ == self@,
    {
        QuestionSet { questions: self.questions.clone() }
    }
}

/// A judge's answer to one [`Question`].
#[derive(Debug, PartialEq)]
pub enum Answer {
    /// Answer to [`Question::Noul`].
    Noul {
        /// Probability that the proposition holds.
        probability: Probability,
    },
    /// Answer to [`Question::Choice`].
    Choice {
        /// The option with the highest probability.
        choice: String,
        /// Probability per option.
        probabilities: OrderedMap<String, Probability>,
        /// The judge's confidence in `choice`, when reported.
        confidence: Option<Probability>,
    },
    /// Answer to [`Question::Score`].
    Score {
        /// The most likely level, by name.
        level: String,
        /// Expected level index as a real number in `[0, levels - 1]`.
        score: Double,
        /// Probability per level name.
        distribution: OrderedMap<String, Probability>,
        /// The judge's confidence in `level`, when reported.
        confidence: Option<Probability>,
    },
}

/// What an [`Answer`] stands for; each number by the bits of its double.
#[verifier::ext_equal]
pub enum AnswerView {
    /// Answer to a yes/no proposition.
    Noul { probability: u64 },
    /// Answer to a choice.
    Choice {
        choice: Seq<char>,
        probabilities: Map<Seq<char>, u64>,
        confidence: Option<u64>,
    },
    /// Answer to a rating.
    Score {
        level: Seq<char>,
        score: u64,
        distribution: Map<Seq<char>, u64>,
        confidence: Option<u64>,
    },
}

/// The bits of an optional probability.
pub open spec fn bits_of(probability: Option<Probability>) -> Option<u64> {
    match probability {
        Some(probability) => Some(probability@),
        None => None,
    }
}

impl View for Answer {
    type V = AnswerView;

    open spec fn view(&self) -> AnswerView {
        match *self {
            Answer::Noul { probability } => AnswerView::Noul { probability: probability@ },
            Answer::Choice { choice, probabilities, confidence } => AnswerView::Choice {
                choice: choice@,
                probabilities: probabilities@,
                confidence: bits_of(confidence),
            },
            Answer::Score { level, score, distribution, confidence } => AnswerView::Score {
                level: level@,
                score: score@,
                distribution: distribution@,
                confidence: bits_of(confidence),
            },
        }
    }
}

impl Clone for Answer {
    fn clone(&self) -> (copy: Answer)
        ensures
            copy@ == self@,
    {
        match self {
            Answer::Noul { probability } => Answer::Noul { probability: *probability },
            Answer::Choice { choice, probabilities, confidence } => Answer::Choice {
                choice: choice.clone(),
                probabilities: probabilities.clone(),
                confidence: *confidence,
            },
            Answer::Score { level, score, distribution, confidence } => Answer::Score {
                level: level.clone(),
                score: *score,
                distribution: distribution.clone(),
                confidence: *confidence,
            },
        }
    }
}

impl Replica for Answer {
    fn replica(&self) -> (copy: Answer) {
        self.clone()
    }
}

/// Answers keyed by question name.
///
/// Its view maps each name to its answer.
#[derive(Debug, PartialEq)]
pub struct AnswerSet {
    answers: OrderedMap<QuestionName, Answer>,
}

impl View for AnswerSet {
    type V = Map<Seq<char>, AnswerView>;

    closed spec fn view(&self) -> Map<Seq<char>, AnswerView> {
        self.answers@
    }
}

impl AnswerSet {
    /// An empty set.
    pub fn new() -> (set: AnswerSet)
        ensures
            set@ == Map::<Seq<char>, AnswerView>::empty(),
    {
        AnswerSet { answers: OrderedMap::new() }
    }

    /// The set made by adding `entries` in order.
    pub fn from_iter(entries: Vec<(QuestionName, Answer)>) -> (set: AnswerSet)
        ensures
            set@ == ordered::collected(ordered::listing(entries@)),
    {
        AnswerSet { answers: OrderedMap::collect(entries) }
    }

    /// Adds or replaces an answer.
    pub fn insert(&mut self, name: QuestionName, answer: Answer)
        ensures
            final(self)@ == old(self)@.insert(name@, answer@),
    {
        self.answers.insert(name, answer);
    }

    /// Looks up an answer by name.
    pub fn get(&self, name: &QuestionName) -> (answer: Option<&Answer>)
        ensures
            answer is Some <==> self@.contains_key(name@),
            answer is Some ==> answer->0@ == self@[name@],
    {
        self.answers.get(name)
    }

    /// The answers in name order.
    pub fn iter(&self) -> (entries: Vec<(&QuestionName, &Answer)>)
        ensures
            entries@.len() == ordered::sorted_entries::<QuestionName, AnswerView>(self@).len(),
            forall|i: int|
                0 <= i < entries@.len() ==> (#[trigger] entries@[i]).0@ == ordered::sorted_entries::<
                    QuestionName,
                    AnswerView,
                >(self@)[i].0 && entries@[i].1@ == ordered::sorted_entries::<
                    QuestionName,
                    AnswerView,
                >(self@)[i].1,
    {
        self.answers.iter()
    }
}

impl Default for AnswerSet {
    fn default() -> (set: AnswerSet)
        ensures
            set@ == Map::<Seq<char>, AnswerView>::empty(),
    {
        AnswerSet::new()
    }
}

impl Clone for AnswerSet {
    fn clone(&self) -> (copy: AnswerSet)
        ensures
            copy@ == self@,
    {
        AnswerSet { answers: self.answers.clone() }
    }
}

/// Law: questions are listed in the order of their names, each once.
pub proof fn law_questions_are_listed_by_name(questions: Map<Seq<char>, QuestionView>)
    requires
        ordered::listable::<QuestionName, QuestionView>(questions),
    ensures
        forall|i: int, j: int|
            0 <= i < j < question_list(questions).len() ==> text::text_before(
                (#[trigger] question_list(questions)[i]).0,
                (#[trigger] question_list(questions)[j]).0,
            ),
        forall|i: int|
            0 <= i < question_list(questions).len() ==> questions.contains_key(
                (#[trigger] question_list(questions)[i]).0,
            ) && questions[question_list(questions)[i].0] == question_list(questions)[i].1,
        forall|name: Seq<char>| #[trigger]
            questions.contains_key(name) ==> exists|i: int|
                0 <= i < question_list(questions).len() && (#[trigger] question_list(
                    questions,
                )[i]).0 == name,
{
    ordered::law_listing_is_ascending_and_complete::<QuestionName, QuestionView>(questions);
    let listed = question_list(questions);
    assert forall|i: int, j: int| 0 <= i < j < listed.len() implies text::text_before(
        (#[trigger] listed[i]).0,
        (#[trigger] listed[j]).0,
    ) by {
        assert(QuestionName::before(listed[i].0, listed[j].0));
    }
}

/// Law: an optional probability is there where it is, with its own bits.
pub proof fn law_an_optional_probability_keeps_its_bits(probability: Probability)
    ensures
        bits_of(Some(probability)) == Some(probability@),
        bits_of(None) is None,
{
}

} // verus!
