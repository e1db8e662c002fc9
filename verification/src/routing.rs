//! Pure core: subscriptions become questions, answers become verdicts.
//!
//! Nothing here performs IO. Both functions are deterministic in their inputs,
//! which makes routing replayable from a recorded answer set.

use crate::double;
use crate::ordered;
use crate::ordered::{OrderedMap, Replica};
use crate::probability::Probability;
use crate::question;
use crate::question::{Answer, AnswerSet, Question, QuestionName, QuestionSet};
use crate::subscription;
use crate::subscription::{Disposition, Subscription, SubscriptionId};
use vstd::prelude::*;

verus! {

/// How subscriptions compete for an event.
#[derive(Debug, Clone, Copy, PartialEq, Eq, Structural)]
pub enum Policy {
    /// One yes/no question per subscription. Any number may match.
    FanOut,
    /// One choice question over all subscriptions. At most one is delivered:
    /// the option with the highest probability, if it clears its thresholds.
    Exclusive,
}

impl Default for Policy {
    fn default() -> (policy: Policy)
        ensures
            policy == Policy::FanOut,
    {
        Policy::FanOut
    }
}

/// Name of the single question asked under [`Policy::Exclusive`].
pub const EXCLUSIVE_QUESTION: &'static str = "route";

/// What a [`Verdict`] stands for; the probability by its bits.
#[verifier::ext_equal]
pub struct VerdictView {
    /// The subscription judged.
    pub subscription: Seq<char>,
    /// The judge's probability that the event matches.
    pub probability: u64,
    /// The policy's decision for that probability.
    pub disposition: Disposition,
}

/// The routing decision for one subscription and one event.
#[derive(Debug, PartialEq, Eq)]
pub struct Verdict {
    /// The subscription judged.
    pub subscription: SubscriptionId,
    /// The judge's probability that the event matches.
    pub probability: Probability,
    /// The policy's decision for that probability.
    pub disposition: Disposition,
}

impl View for Verdict {
    type V = VerdictView;

    open spec fn view(&self) -> VerdictView {
        VerdictView {
            subscription: self.subscription@,
            probability: self.probability@,
            disposition: self.disposition,
        }
    }
}

impl Clone for Verdict {
    fn clone(&self) -> (copy: Verdict)
        ensures
            copy == *self,
    {
        Verdict {
            subscription: self.subscription.clone(),
            probability: self.probability,
            disposition: self.disposition,
        }
    }
}

impl Replica for Verdict {
    fn replica(&self) -> (copy: Verdict) {
        self.clone()
    }
}

/// The kind of answer a policy asks for.
#[derive(Debug, Clone, Copy, PartialEq, Eq, Structural)]
pub enum AnswerKind {
    /// A yes/no probability.
    Noul,
    /// One option among several.
    Choice,
}

/// The name of a kind of answer.
pub open spec fn kind_name(kind: AnswerKind) -> Seq<char> {
    match kind {
        AnswerKind::Noul => "noul"@,
        AnswerKind::Choice => "choice"@,
    }
}

impl AnswerKind {
    /// The kind's name.
    pub fn name(&self) -> (name: &'static str)
        ensures
            name@ == kind_name(*self),
    {
        match self {
            AnswerKind::Noul => "noul",
            AnswerKind::Choice => "choice",
        }
    }
}

/// Why an answer set could not be turned into verdicts.
#[derive(Debug, PartialEq, Eq)]
pub enum RoutingError {
    /// The judge did not answer a question it was asked.
    MissingAnswer {
        /// The unanswered question.
        question: QuestionName,
    },
    /// The judge answered with the wrong kind of answer.
    WrongAnswerKind {
        /// The question.
        question: QuestionName,
        /// The kind the policy asked for.
        expected: AnswerKind,
    },
    /// An exclusive answer omitted one subscription's option.
    MissingOption {
        /// The subscription without a probability.
        subscription: SubscriptionId,
    },
}

/// What a [`RoutingError`] stands for.
#[verifier::ext_equal]
pub enum RoutingErrorView {
    /// The judge did not answer a question it was asked.
    MissingAnswer { question: Seq<char> },
    /// The judge answered with the wrong kind of answer.
    WrongAnswerKind { question: Seq<char>, expected: AnswerKind },
    /// An exclusive answer omitted one subscription's option.
    MissingOption { subscription: Seq<char> },
}

impl View for RoutingError {
    type V = RoutingErrorView;

    open spec fn view(&self) -> RoutingErrorView {
        match *self {
            RoutingError::MissingAnswer { question } => RoutingErrorView::MissingAnswer {
                question: question@,
            },
            RoutingError::WrongAnswerKind { question, expected } =>
            RoutingErrorView::WrongAnswerKind { question: question@, expected },
            RoutingError::MissingOption { subscription } => RoutingErrorView::MissingOption {
                subscription: subscription@,
            },
        }
    }
}

/// A routing error in words.
pub open spec fn routing_error_text(error: RoutingErrorView) -> Seq<char> {
    match error {
        RoutingErrorView::MissingAnswer { question } => "no answer to question "@ + question,
        RoutingErrorView::WrongAnswerKind { question, expected } => "answer to "@ + question
            + " is not a "@ + kind_name(expected) + " answer"@,
        RoutingErrorView::MissingOption { subscription } =>
        "exclusive answer has no probability for "@ + subscription,
    }
}

impl RoutingError {
    /// What went wrong, in words.
    pub fn message(&self) -> (text: String)
        ensures
            text@ == routing_error_text(self@),
    {
        match self {
            RoutingError::MissingAnswer { question } => {
                let mut text = "no answer to question ".to_owned();
                text.append(question.as_str());
                text
            },
            RoutingError::WrongAnswerKind { question, expected } => {
                let mut text = "answer to ".to_owned();
                text.append(question.as_str());
                text.append(" is not a ");
                text.append(expected.name());
                text.append(" answer");
                text
            },
            RoutingError::MissingOption { subscription } => {
                let mut text = "exclusive answer has no probability for ".to_owned();
                text.append(subscription.as_str());
                text
            },
        }
    }
}

impl Clone for RoutingError {
    fn clone(&self) -> (copy: RoutingError)
        ensures
            copy == *self,
    {
        match self {
            RoutingError::MissingAnswer { question } => RoutingError::MissingAnswer {
                question: question.clone(),
            },
            RoutingError::WrongAnswerKind { question, expected } => RoutingError::WrongAnswerKind {
                question: question.clone(),
                expected: *expected,
            },
            RoutingError::MissingOption { subscription } => RoutingError::MissingOption {
                subscription: subscription.clone(),
            },
        }
    }
}

/// Each subscription's id with its yes/no question.
pub open spec fn named_questions(subscriptions: Seq<subscription::SubscriptionView>) -> Seq<
    (Seq<char>, question::QuestionView),
> {
    Seq::new(
        subscriptions.len(),
        |i: int| (subscriptions[i].id, subscription::question_of(subscriptions[i])),
    )
}

/// Each subscription's id with its instructions.
pub open spec fn named_instructions(subscriptions: Seq<subscription::SubscriptionView>) -> Seq<
    (Seq<char>, Seq<char>),
> {
    Seq::new(
        subscriptions.len(),
        |i: int| (subscriptions[i].id, subscription::instructions_of(subscriptions[i])),
    )
}

/// The one question of [`Policy::Exclusive`].
pub open spec fn exclusive_question(
    subscriptions: Seq<subscription::SubscriptionView>,
) -> question::QuestionView {
    question::QuestionView::Choice {
        instructions: "Which subscription does the message belong to?"@,
        criteria: ordered::collected(named_instructions(subscriptions)),
    }
}

/// The questions that `policy` asks about `subscriptions`: under `FanOut` one
/// `Noul` per subscription, named by its id; under `Exclusive` one `Choice`
/// named [`EXCLUSIVE_QUESTION`] whose options are the subscription ids, or
/// nothing where there are no subscriptions.
pub open spec fn planned(
    policy: Policy,
    subscriptions: Seq<subscription::SubscriptionView>,
) -> Map<Seq<char>, question::QuestionView> {
    match policy {
        Policy::FanOut => ordered::collected(named_questions(subscriptions)),
        Policy::Exclusive => if subscriptions.len() == 0 {
            Map::empty()
        } else {
            Map::empty().insert(EXCLUSIVE_QUESTION@, exclusive_question(subscriptions))
        },
    }
}

/// The verdict on one subscription from its own yes/no answer.
pub open spec fn own_verdict(
    subscription: subscription::SubscriptionView,
    answers: Map<Seq<char>, question::AnswerView>,
) -> Result<VerdictView, RoutingErrorView> {
    if !answers.contains_key(subscription.id) {
        Err(RoutingErrorView::MissingAnswer { question: subscription.id })
    } else {
        match answers[subscription.id] {
            question::AnswerView::Noul { probability } => Ok(
                VerdictView {
                    subscription: subscription.id,
                    probability,
                    disposition: subscription::disposition(subscription.thresholds, probability),
                },
            ),
            _ => Err(
                RoutingErrorView::WrongAnswerKind {
                    question: subscription.id,
                    expected: AnswerKind::Noul,
                },
            ),
        }
    }
}

/// The verdicts under [`Policy::FanOut`], or the error of the first
/// subscription that has one.
pub open spec fn fan_out_verdicts(
    subscriptions: Seq<subscription::SubscriptionView>,
    answers: Map<Seq<char>, question::AnswerView>,
) -> Result<Seq<VerdictView>, RoutingErrorView>
    decreases subscriptions.len(),
{
    if subscriptions.len() == 0 {
        Ok(Seq::empty())
    } else {
        match fan_out_verdicts(subscriptions.drop_last(), answers) {
            Err(error) => Err(error),
            Ok(verdicts) => match own_verdict(subscriptions.last(), answers) {
                Err(error) => Err(error),
                Ok(verdict) => Ok(verdicts.push(verdict)),
            },
        }
    }
}

/// The probability of each subscription's option, or the error of the first
/// subscription that has none.
pub open spec fn option_probabilities(
    subscriptions: Seq<subscription::SubscriptionView>,
    probabilities: Map<Seq<char>, u64>,
) -> Result<Seq<u64>, RoutingErrorView>
    decreases subscriptions.len(),
{
    if subscriptions.len() == 0 {
        Ok(Seq::empty())
    } else {
        match option_probabilities(subscriptions.drop_last(), probabilities) {
            Err(error) => Err(error),
            Ok(found) => if probabilities.contains_key(subscriptions.last().id) {
                Ok(found.push(probabilities[subscriptions.last().id]))
            } else {
                Err(RoutingErrorView::MissingOption { subscription: subscriptions.last().id })
            },
        }
    }
}

/// Position `i` holds the greatest probability, and none before it does.
pub open spec fn is_winner(probabilities: Seq<u64>, i: int) -> bool {
    &&& 0 <= i < probabilities.len()
    &&& forall|j: int|
        0 <= j < probabilities.len() ==> double::units(#[trigger] probabilities[j])
            <= double::units(probabilities[i])
    &&& forall|j: int|
        0 <= j < i ==> double::units(#[trigger] probabilities[j]) < double::units(probabilities[i])
}

/// The verdict on subscription `i` where the options have these probabilities:
/// the winner goes through its thresholds, every other one is dropped.
pub open spec fn contested_verdict(
    subscription: subscription::SubscriptionView,
    probabilities: Seq<u64>,
    i: int,
) -> VerdictView {
    VerdictView {
        subscription: subscription.id,
        probability: probabilities[i],
        disposition: if is_winner(probabilities, i) {
            subscription::disposition(subscription.thresholds, probabilities[i])
        } else {
            Disposition::Drop
        },
    }
}

/// The verdicts under [`Policy::Exclusive`].
pub open spec fn exclusive_verdicts_of(
    subscriptions: Seq<subscription::SubscriptionView>,
    answers: Map<Seq<char>, question::AnswerView>,
) -> Result<Seq<VerdictView>, RoutingErrorView> {
    if subscriptions.len() == 0 {
        Ok(Seq::empty())
    } else if !answers.contains_key(EXCLUSIVE_QUESTION@) {
        Err(RoutingErrorView::MissingAnswer { question: EXCLUSIVE_QUESTION@ })
    } else {
        match answers[EXCLUSIVE_QUESTION@] {
            question::AnswerView::Choice { probabilities, .. } => match option_probabilities(
                subscriptions,
                probabilities,
            ) {
                Err(error) => Err(error),
                Ok(found) => Ok(
                    Seq::new(
                        subscriptions.len(),
                        |i: int| contested_verdict(subscriptions[i], found, i),
                    ),
                ),
            },
            _ => Err(
                RoutingErrorView::WrongAnswerKind {
                    question: EXCLUSIVE_QUESTION@,
                    expected: AnswerKind::Choice,
                },
            ),
        }
    }
}

/// The verdicts that `answers` give under `policy`, or why they give none.
pub open spec fn decided(
    policy: Policy,
    subscriptions: Seq<subscription::SubscriptionView>,
    answers: Map<Seq<char>, question::AnswerView>,
) -> Result<Seq<VerdictView>, RoutingErrorView> {
    match policy {
        Policy::FanOut => fan_out_verdicts(subscriptions, answers),
        Policy::Exclusive => exclusive_verdicts_of(subscriptions, answers),
    }
}

/// `outcome` holds the verdicts, or the error, that `expected` holds.
pub open spec fn agrees(
    outcome: Result<Vec<Verdict>, RoutingError>,
    expected: Result<Seq<VerdictView>, RoutingErrorView>,
) -> bool {
    match outcome {
        Ok(verdicts) => expected == Ok::<_, RoutingErrorView>(ordered::views(verdicts@)),
        Err(error) => expected == Err::<Seq<VerdictView>, _>(error@),
    }
}

/// Builds the question set for one judge request.
pub fn plan(policy: Policy, subscriptions: &[Subscription]) -> (questions: QuestionSet)
    ensures
        questions@ == planned(policy, ordered::views(subscriptions@)),
{
    let ghost subs = ordered::views(subscriptions@);
    match policy {
        Policy::FanOut => {
            let mut questions = QuestionSet::new();
            let mut i: usize = 0;
            assert(named_questions(subs.take(0)) =~= Seq::empty());
            while i < subscriptions.len()
                invariant
                    i <= subscriptions@.len(),
                    subs == ordered::views(subscriptions@),
                    questions@ == ordered::collected(named_questions(subs.take(i as int))),
                decreases subscriptions@.len() - i,
            {
                let sub = &subscriptions[i];
                questions.insert(sub.id().question_name().clone(), sub.question());
                proof {
                    let next = named_questions(subs.take(i + 1));
                    assert(next.drop_last() =~= named_questions(subs.take(i as int)));
                    assert(next.last() == (sub@.id, subscription::question_of(sub@)));
                }
                i = i + 1;
            }
            assert(subs.take(i as int) =~= subs);
            questions
        },
        Policy::Exclusive => {
            let mut criteria: OrderedMap<String, String> = OrderedMap::new();
            let mut i: usize = 0;
            assert(named_instructions(subs.take(0)) =~= Seq::empty());
            while i < subscriptions.len()
                invariant
                    i <= subscriptions@.len(),
                    subs == ordered::views(subscriptions@),
                    criteria@ == ordered::collected(named_instructions(subs.take(i as int))),
                decreases subscriptions@.len() - i,
            {
                let sub = &subscriptions[i];
                criteria.insert(sub.id().as_str().to_owned(), sub.instructions());
                proof {
                    let next = named_instructions(subs.take(i + 1));
                    assert(next.drop_last() =~= named_instructions(subs.take(i as int)));
                    assert(next.last() == (sub@.id, subscription::instructions_of(sub@)));
                }
                i = i + 1;
            }
            assert(subs.take(i as int) =~= subs);
            let mut questions = QuestionSet::new();
            if subscriptions.len() > 0 {
                questions.insert(
                    exclusive_name(),
                    Question::Choice {
                        instructions: "Which subscription does the message belong to?".to_owned(),
                        criteria,
                    },
                );
            }
            questions
        },
    }
}

/// Turns answers into one verdict per subscription.
pub fn decide(policy: Policy, subscriptions: &[Subscription], answers: &AnswerSet) -> (outcome:
    Result<Vec<Verdict>, RoutingError>)
    ensures
        agrees(outcome, decided(policy, ordered::views(subscriptions@), answers@)),
{
    match policy {
        Policy::FanOut => {
            let ghost subs = ordered::views(subscriptions@);
            let mut verdicts: Vec<Verdict> = Vec::new();
            let mut i: usize = 0;
            assert(ordered::views(verdicts@) =~= Seq::empty());
            while i < subscriptions.len()
                invariant
                    policy == Policy::FanOut,
                    i <= subscriptions@.len(),
                    subs == ordered::views(subscriptions@),
                    fan_out_verdicts(subs.take(i as int), answers@) == Ok::<_, RoutingErrorView>(
                        ordered::views(verdicts@),
                    ),
                decreases subscriptions@.len() - i,
            {
                let ghost seen = ordered::views(verdicts@);
                assert(subs.take(i + 1).drop_last() =~= subs.take(i as int));
                assert(subs.take(i + 1).last() == subscriptions@[i as int]@);
                match fan_out_verdict(&subscriptions[i], answers) {
                    Ok(verdict) => {
                        verdicts.push(verdict);
                        assert(ordered::views(verdicts@) =~= seen.push(verdict@));
                    },
                    Err(error) => {
                        proof {
                            lemma_first_error(subs, answers@, i + 1);
                        }
                        return Err(error);
                    },
                }
                i = i + 1;
            }
            assert(subs.take(i as int) =~= subs);
            Ok(verdicts)
        },
        Policy::Exclusive => exclusive_verdicts(subscriptions, answers),
    }
}

proof fn lemma_first_error(
    subscriptions: Seq<subscription::SubscriptionView>,
    answers: Map<Seq<char>, question::AnswerView>,
    n: int,
)
    requires
        0 <= n <= subscriptions.len(),
        fan_out_verdicts(subscriptions.take(n), answers) is Err,
    ensures
        fan_out_verdicts(subscriptions, answers) == fan_out_verdicts(
            subscriptions.take(n),
            answers,
        ),
    decreases subscriptions.len() - n,
{
    if n < subscriptions.len() {
        assert(subscriptions.take(n + 1).drop_last() =~= subscriptions.take(n));
        lemma_first_error(subscriptions, answers, n + 1);
    } else {
        assert(subscriptions.take(n) =~= subscriptions);
    }
}

proof fn lemma_first_missing_option(
    subscriptions: Seq<subscription::SubscriptionView>,
    probabilities: Map<Seq<char>, u64>,
    n: int,
)
    requires
        0 <= n <= subscriptions.len(),
        option_probabilities(subscriptions.take(n), probabilities) is Err,
    ensures
        option_probabilities(subscriptions, probabilities) == option_probabilities(
            subscriptions.take(n),
            probabilities,
        ),
    decreases subscriptions.len() - n,
{
    if n < subscriptions.len() {
        assert(subscriptions.take(n + 1).drop_last() =~= subscriptions.take(n));
        lemma_first_missing_option(subscriptions, probabilities, n + 1);
    } else {
        assert(subscriptions.take(n) =~= subscriptions);
    }
}

fn fan_out_verdict(sub: &Subscription, answers: &AnswerSet) -> (outcome: Result<
    Verdict,
    RoutingError,
>)
    ensures
        match outcome {
            Ok(verdict) => own_verdict(sub@, answers@) == Ok::<_, RoutingErrorView>(verdict@),
            Err(error) => own_verdict(sub@, answers@) == Err::<VerdictView, _>(error@),
        },
{
    let question = sub.id().question_name();
    match answers.get(question) {
        Some(Answer::Noul { probability }) => Ok(
            verdict(sub, *probability, sub.thresholds().dispose(*probability)),
        ),
        Some(_) => Err(
            RoutingError::WrongAnswerKind {
                question: question.clone(),
                expected: AnswerKind::Noul,
            },
        ),
        None => Err(RoutingError::MissingAnswer { question: question.clone() }),
    }
}

/// The probability of each subscription's option, in subscription order.
fn scored(subscriptions: &[Subscription], probabilities: &OrderedMap<String, Probability>) -> (found:
    Result<Vec<Probability>, RoutingError>)
    ensures
        match found {
            Ok(scores) => option_probabilities(ordered::views(subscriptions@), probabilities@)
                == Ok::<_, RoutingErrorView>(ordered::views(scores@)),
            Err(error) => option_probabilities(ordered::views(subscriptions@), probabilities@)
                == Err::<Seq<u64>, _>(error@),
        },
{
    let ghost subs = ordered::views(subscriptions@);
    let mut scores: Vec<Probability> = Vec::new();
    let mut i: usize = 0;
    assert(ordered::views(scores@) =~= Seq::empty());
    while i < subscriptions.len()
        invariant
            i <= subscriptions@.len(),
            subs == ordered::views(subscriptions@),
            option_probabilities(subs.take(i as int), probabilities@) == Ok::<_, RoutingErrorView>(
                ordered::views(scores@),
            ),
        decreases subscriptions@.len() - i,
    {
        let ghost seen = ordered::views(scores@);
        let sub = &subscriptions[i];
        assert(subs.take(i + 1).drop_last() =~= subs.take(i as int));
        assert(subs.take(i + 1).last() == sub@);
        match probabilities.get(&sub.id().as_str().to_owned()) {
            Some(probability) => {
                scores.push(*probability);
                assert(ordered::views(scores@) =~= seen.push(probability@));
            },
            None => {
                proof {
                    lemma_first_missing_option(subs, probabilities@, i + 1);
                }
                return Err(RoutingError::MissingOption { subscription: sub.id().clone() });
            },
        }
        i = i + 1;
    }
    assert(subs.take(i as int) =~= subs);
    Ok(scores)
}

/// The position of the first greatest score.
fn winner(scores: &[Probability]) -> (best: usize)
    requires
        scores@.len() > 0,
    ensures
        is_winner(ordered::views(scores@), best as int),
{
    let ghost bits = ordered::views(scores@);
    let mut best: usize = 0;
    let mut i: usize = 1;
    while i < scores.len()
        invariant
            best < i <= scores@.len(),
            bits == ordered::views(scores@),
            forall|j: int|
                0 <= j < i ==> double::units(#[trigger] bits[j]) <= double::units(bits[best as int]),
            forall|j: int|
                0 <= j < best ==> double::units(#[trigger] bits[j]) < double::units(
                    bits[best as int],
                ),
        decreases scores@.len() - i,
    {
        if !scores[best].at_least(scores[i]) {
            best = i;
        }
        i = i + 1;
    }
    best
}

fn exclusive_verdicts(subscriptions: &[Subscription], answers: &AnswerSet) -> (outcome: Result<
    Vec<Verdict>,
    RoutingError,
>)
    ensures
        agrees(outcome, exclusive_verdicts_of(ordered::views(subscriptions@), answers@)),
{
    let ghost subs = ordered::views(subscriptions@);
    if subscriptions.len() == 0 {
        let none: Vec<Verdict> = Vec::new();
        assert(ordered::views(none@) =~= Seq::empty());
        return Ok(none);
    }
    let question = exclusive_name();
    let probabilities = match answers.get(&question) {
        Some(Answer::Choice { probabilities, .. }) => probabilities,
        Some(_) => {
            return Err(
                RoutingError::WrongAnswerKind { question, expected: AnswerKind::Choice },
            );
        },
        None => {
            return Err(RoutingError::MissingAnswer { question });
        },
    };
    let scores = match scored(subscriptions, probabilities) {
        Ok(scores) => scores,
        Err(error) => {
            return Err(error);
        },
    };
    let ghost bits = ordered::views(scores@);
    proof {
        lemma_option_count(subs, probabilities@);
    }
    // The winner is the first subscription, in registration order, whose
    // probability is maximal. Ties resolve to the earliest registration.
    let best = winner(scores.as_slice());
    let mut verdicts: Vec<Verdict> = Vec::new();
    let mut i: usize = 0;
    while i < subscriptions.len()
        invariant
            i <= subscriptions@.len(),
            subs == ordered::views(subscriptions@),
            bits == ordered::views(scores@),
            bits.len() == subs.len(),
            is_winner(bits, best as int),
            verdicts@.len() == i,
            forall|j: int|
                0 <= j < i ==> (#[trigger] verdicts@[j])@ == contested_verdict(subs[j], bits, j),
        decreases subscriptions@.len() - i,
    {
        let sub = &subscriptions[i];
        assert(is_winner(bits, i as int) <==> i == best) by {
            if is_winner(bits, i as int) && i != best {
                assert(double::units(bits[i as int]) <= double::units(bits[best as int]));
                assert(double::units(bits[best as int]) <= double::units(bits[i as int]));
            }
        }
        let disposition = if i == best {
            sub.thresholds().dispose(scores[i])
        } else {
            Disposition::Drop
        };
        verdicts.push(verdict(sub, scores[i], disposition));
        i = i + 1;
    }
    proof {
        let expected = Seq::new(subs.len(), |k: int| contested_verdict(subs[k], bits, k));
        assert(ordered::views(verdicts@) =~= expected);
    }
    Ok(verdicts)
}

proof fn lemma_option_count(
    subscriptions: Seq<subscription::SubscriptionView>,
    probabilities: Map<Seq<char>, u64>,
)
    ensures
        option_probabilities(subscriptions, probabilities) is Ok ==> {
            let found = option_probabilities(subscriptions, probabilities)->Ok_0;
            &&& found.len() == subscriptions.len()
            &&& forall|i: int|
                0 <= i < subscriptions.len() ==> probabilities.contains_key(
                    (#[trigger] subscriptions[i]).id,
                ) && found[i] == probabilities[subscriptions[i].id]
        },
    decreases subscriptions.len(),
{
    if subscriptions.len() > 0 && option_probabilities(subscriptions, probabilities) is Ok {
        let rest = subscriptions.drop_last();
        lemma_option_count(rest, probabilities);
        let found = option_probabilities(subscriptions, probabilities)->Ok_0;
        let prior = option_probabilities(rest, probabilities)->Ok_0;
        assert forall|i: int| 0 <= i < subscriptions.len() implies probabilities.contains_key(
            (#[trigger] subscriptions[i]).id,
        ) && found[i] == probabilities[subscriptions[i].id] by {
            if i < prior.len() {
                assert(found[i] == prior[i] && subscriptions[i] == rest[i]);
            }
        }
    }
}

fn verdict(sub: &Subscription, probability: Probability, disposition: Disposition) -> (verdict:
    Verdict)
    ensures
        verdict@ == (VerdictView {
            subscription: sub@.id,
            probability: probability@,
            disposition,
        }),
{
    Verdict { subscription: sub.id().clone(), probability, disposition }
}

/// The name of the exclusive question as a validated [`QuestionName`].
pub fn exclusive_name() -> (name: QuestionName)
    ensures
        name@ == EXCLUSIVE_QUESTION@,
{
    proof {
        reveal_strlit("route");
    }
    QuestionName::literal(EXCLUSIVE_QUESTION)
}

/// Two lists of subscriptions that differ in their thresholds only.
pub open spec fn same_but_thresholds(
    a: Seq<subscription::SubscriptionView>,
    b: Seq<subscription::SubscriptionView>,
) -> bool {
    &&& a.len() == b.len()
    &&& forall|i: int|
        0 <= i < a.len() ==> (#[trigger] a[i]).id == (#[trigger] b[i]).id && a[i].description
            == b[i].description && a[i].examples == b[i].examples && a[i].counter_examples
            == b[i].counter_examples
}

/// `answer` is of the kind that `question` asks for, and names every option.
pub open spec fn answer_fits(
    question: question::QuestionView,
    answer: question::AnswerView,
) -> bool {
    match (question, answer) {
        (question::QuestionView::Noul { .. }, question::AnswerView::Noul { .. }) => true,
        (
            question::QuestionView::Choice { criteria, .. },
            question::AnswerView::Choice { probabilities, .. },
        ) => criteria.dom().subset_of(probabilities.dom()),
        (question::QuestionView::Score { .. }, question::AnswerView::Score { .. }) => true,
        _ => false,
    }
}

/// Every question has an answer that fits it.
pub open spec fn answers_fit(
    questions: Map<Seq<char>, question::QuestionView>,
    answers: Map<Seq<char>, question::AnswerView>,
) -> bool {
    forall|name: Seq<char>| #[trigger]
        questions.contains_key(name) ==> answers.contains_key(name) && answer_fits(
            questions[name],
            answers[name],
        )
}

/// No two subscriptions share an id.
pub open spec fn distinct_ids(subscriptions: Seq<subscription::SubscriptionView>) -> bool {
    forall|i: int, j: int|
        0 <= i < j < subscriptions.len() ==> (#[trigger] subscriptions[i]).id != (
        #[trigger] subscriptions[j]).id
}

/// Law: verdicts come one per subscription, in order, and a verdict that
/// engages anyone is what the subscription's thresholds say of its probability.
pub proof fn law_one_verdict_per_subscription(
    policy: Policy,
    subscriptions: Seq<subscription::SubscriptionView>,
    answers: Map<Seq<char>, question::AnswerView>,
)
    ensures
        decided(policy, subscriptions, answers) is Ok ==> {
            let verdicts = decided(policy, subscriptions, answers)->Ok_0;
            &&& verdicts.len() == subscriptions.len()
            &&& forall|i: int|
                0 <= i < verdicts.len() ==> (#[trigger] verdicts[i]).subscription
                    == subscriptions[i].id && (verdicts[i].disposition != Disposition::Drop
                    ==> verdicts[i].disposition == subscription::disposition(
                    subscriptions[i].thresholds,
                    verdicts[i].probability,
                ))
        },
{
    match policy {
        Policy::FanOut => lemma_fan_out(subscriptions, answers),
        Policy::Exclusive => {},
    }
}

proof fn lemma_fan_out(
    subscriptions: Seq<subscription::SubscriptionView>,
    answers: Map<Seq<char>, question::AnswerView>,
)
    ensures
        fan_out_verdicts(subscriptions, answers) is Ok <==> forall|i: int|
            0 <= i < subscriptions.len() ==> own_verdict(#[trigger] subscriptions[i], answers) is Ok,
        fan_out_verdicts(subscriptions, answers) is Ok ==> {
            let verdicts = fan_out_verdicts(subscriptions, answers)->Ok_0;
            &&& verdicts.len() == subscriptions.len()
            &&& forall|i: int|
                0 <= i < verdicts.len() ==> own_verdict(subscriptions[i], answers) == Ok::<
                    _,
                    RoutingErrorView,
                >(#[trigger] verdicts[i])
        },
    decreases subscriptions.len(),
{
    if subscriptions.len() > 0 {
        let rest = subscriptions.drop_last();
        lemma_fan_out(rest, answers);
        if fan_out_verdicts(subscriptions, answers) is Ok {
            let verdicts = fan_out_verdicts(subscriptions, answers)->Ok_0;
            let prior = fan_out_verdicts(rest, answers)->Ok_0;
            assert forall|i: int| 0 <= i < verdicts.len() implies own_verdict(
                subscriptions[i],
                answers,
            ) == Ok::<_, RoutingErrorView>(#[trigger] verdicts[i]) by {
                if i < prior.len() {
                    assert(verdicts[i] == prior[i] && subscriptions[i] == rest[i]);
                }
            }
            assert forall|i: int| 0 <= i < subscriptions.len() implies own_verdict(
                #[trigger] subscriptions[i],
                answers,
            ) is Ok by {
                assert(own_verdict(subscriptions[i], answers) == Ok::<_, RoutingErrorView>(
                    verdicts[i],
                ));
            }
        } else if fan_out_verdicts(rest, answers) is Err {
            let i = choose|i: int|
                0 <= i < rest.len() && !(own_verdict(#[trigger] rest[i], answers) is Ok);
            assert(own_verdict(subscriptions[i], answers) is Err);
        } else {
            assert(own_verdict(subscriptions[subscriptions.len() - 1], answers) is Err);
        }
    }
}

/// Law: under `Exclusive` at most one subscription is engaged, and it is the
/// first of those with the greatest probability.
pub proof fn law_exclusive_engages_at_most_one(
    subscriptions: Seq<subscription::SubscriptionView>,
    answers: Map<Seq<char>, question::AnswerView>,
)
    ensures
        decided(Policy::Exclusive, subscriptions, answers) is Ok ==> {
            let verdicts = decided(Policy::Exclusive, subscriptions, answers)->Ok_0;
            forall|i: int, j: int|
                #![trigger verdicts[i], verdicts[j]]
                0 <= i < verdicts.len() && 0 <= j < verdicts.len() && i != j
                    && verdicts[i].disposition != Disposition::Drop ==> verdicts[j].disposition
                    == Disposition::Drop && double::units(verdicts[j].probability) <= double::units(
                    verdicts[i].probability,
                ) && (j < i ==> double::units(verdicts[j].probability) < double::units(
                    verdicts[i].probability,
                ))
        },
{
    if decided(Policy::Exclusive, subscriptions, answers) is Ok && subscriptions.len() > 0 {
        let verdicts = decided(Policy::Exclusive, subscriptions, answers)->Ok_0;
        let probabilities = answers[EXCLUSIVE_QUESTION@]->Choice_probabilities;
        lemma_option_count(subscriptions, probabilities);
        let found = option_probabilities(subscriptions, probabilities)->Ok_0;
        assert forall|i: int, j: int|
            #![trigger verdicts[i], verdicts[j]]
            0 <= i < verdicts.len() && 0 <= j < verdicts.len() && i != j && verdicts[i].disposition
                != Disposition::Drop implies verdicts[j].disposition == Disposition::Drop
            && double::units(verdicts[j].probability) <= double::units(verdicts[i].probability)
            && (j < i ==> double::units(verdicts[j].probability) < double::units(
            verdicts[i].probability,
        )) by {
            assert(is_winner(found, i));
            assert(double::units(found[j]) <= double::units(found[i]));
            if is_winner(found, j) {
                assert(double::units(found[i]) <= double::units(found[j]));
            }
        }
    }
}

/// Law: thresholds are policy, not model. Changing them changes neither the
/// questions nor whether the answers can be used nor any probability.
pub proof fn law_thresholds_need_no_new_judgment(
    policy: Policy,
    a: Seq<subscription::SubscriptionView>,
    b: Seq<subscription::SubscriptionView>,
    answers: Map<Seq<char>, question::AnswerView>,
)
    requires
        same_but_thresholds(a, b),
    ensures
        planned(policy, a) == planned(policy, b),
        match (decided(policy, a, answers), decided(policy, b, answers)) {
            (Ok(u), Ok(v)) => u.len() == v.len() && forall|i: int|
                0 <= i < u.len() ==> (#[trigger] u[i]).probability == (
                #[trigger] v[i]).probability,
            (Err(e), Err(f)) => e == f,
            _ => false,
        },
{
    assert(named_questions(a) =~= named_questions(b));
    assert(named_instructions(a) =~= named_instructions(b));
    match policy {
        Policy::FanOut => lemma_fan_out_same(a, b, answers),
        Policy::Exclusive => {
            if a.len() > 0 && answers.contains_key(EXCLUSIVE_QUESTION@) {
                if let question::AnswerView::Choice { probabilities, .. } =
                    answers[EXCLUSIVE_QUESTION@] {
                    lemma_options_same(a, b, probabilities);
                }
            }
        },
    }
}

proof fn lemma_fan_out_same(
    a: Seq<subscription::SubscriptionView>,
    b: Seq<subscription::SubscriptionView>,
    answers: Map<Seq<char>, question::AnswerView>,
)
    requires
        same_but_thresholds(a, b),
    ensures
        match (fan_out_verdicts(a, answers), fan_out_verdicts(b, answers)) {
            (Ok(u), Ok(v)) => u.len() == v.len() && forall|i: int|
                0 <= i < u.len() ==> (#[trigger] u[i]).probability == (
                #[trigger] v[i]).probability,
            (Err(e), Err(f)) => e == f,
            _ => false,
        },
    decreases a.len(),
{
    if a.len() > 0 {
        lemma_fan_out_same(a.drop_last(), b.drop_last(), answers);
        assert(a.last().id == b.last().id);
    }
}

proof fn lemma_options_same(
    a: Seq<subscription::SubscriptionView>,
    b: Seq<subscription::SubscriptionView>,
    probabilities: Map<Seq<char>, u64>,
)
    requires
        same_but_thresholds(a, b),
    ensures
        option_probabilities(a, probabilities) == option_probabilities(b, probabilities),
    decreases a.len(),
{
    if a.len() > 0 {
        lemma_options_same(a.drop_last(), b.drop_last(), probabilities);
        assert(a.last().id == b.last().id);
    }
}

/// Law: a judge that answers every planned question in kind is never refused.
pub proof fn law_fitting_answers_decide(
    policy: Policy,
    subscriptions: Seq<subscription::SubscriptionView>,
    answers: Map<Seq<char>, question::AnswerView>,
)
    requires
        answers_fit(planned(policy, subscriptions), answers),
    ensures
        decided(policy, subscriptions, answers) is Ok,
{
    match policy {
        Policy::FanOut => {
            let named = named_questions(subscriptions);
            ordered::lemma_collected(named);
            assert forall|i: int| 0 <= i < subscriptions.len() implies own_verdict(
                #[trigger] subscriptions[i],
                answers,
            ) is Ok by {
                assert(named[i].0 == subscriptions[i].id);
                assert(planned(policy, subscriptions).contains_key(subscriptions[i].id));
            }
            lemma_fan_out(subscriptions, answers);
        },
        Policy::Exclusive => {
            if subscriptions.len() > 0 {
                assert(planned(policy, subscriptions).contains_key(EXCLUSIVE_QUESTION@));
                let probabilities = answers[EXCLUSIVE_QUESTION@]->Choice_probabilities;
                let named = named_instructions(subscriptions);
                ordered::lemma_collected(named);
                assert forall|i: int| 0 <= i < subscriptions.len() implies
                    probabilities.contains_key((#[trigger] subscriptions[i]).id) by {
                    assert(named[i].0 == subscriptions[i].id);
                    assert(ordered::collected(named).contains_key(named[i].0));
                    assert(ordered::collected(named).dom().contains(named[i].0));
                }
                lemma_options_present(subscriptions, probabilities);
            }
        },
    }
}

proof fn lemma_options_present(
    subscriptions: Seq<subscription::SubscriptionView>,
    probabilities: Map<Seq<char>, u64>,
)
    requires
        forall|i: int|
            0 <= i < subscriptions.len() ==> probabilities.contains_key(
                (#[trigger] subscriptions[i]).id,
            ),
    ensures
        option_probabilities(subscriptions, probabilities) is Ok,
    decreases subscriptions.len(),
{
    if subscriptions.len() > 0 {
        let rest = subscriptions.drop_last();
        assert forall|i: int| 0 <= i < rest.len() implies probabilities.contains_key(
            (#[trigger] rest[i]).id,
        ) by {
            assert(rest[i] == subscriptions[i]);
        }
        lemma_options_present(rest, probabilities);
    }
}

/// Law: where no id repeats, the plan asks of each subscription what it
/// describes, and nothing else.
pub proof fn law_plan_covers_each_subscription(
    policy: Policy,
    subscriptions: Seq<subscription::SubscriptionView>,
)
    requires
        distinct_ids(subscriptions),
    ensures
        match policy {
            Policy::FanOut => {
                let plan = planned(policy, subscriptions);
                &&& forall|i: int|
                    0 <= i < subscriptions.len() ==> plan.contains_key(
                        (#[trigger] subscriptions[i]).id,
                    ) && plan[subscriptions[i].id] == subscription::question_of(subscriptions[i])
                &&& forall|name: Seq<char>| #[trigger]
                    plan.contains_key(name) ==> exists|i: int|
                        0 <= i < subscriptions.len() && (#[trigger] subscriptions[i]).id == name
            },
            Policy::Exclusive => subscriptions.len() > 0 ==> {
                let criteria = planned(policy, subscriptions)[EXCLUSIVE_QUESTION@]->Choice_criteria;
                &&& planned(policy, subscriptions).dom() == set![EXCLUSIVE_QUESTION@]
                &&& forall|i: int|
                    0 <= i < subscriptions.len() ==> criteria.contains_key(
                        (#[trigger] subscriptions[i]).id,
                    ) && criteria[subscriptions[i].id] == subscription::instructions_of(
                        subscriptions[i],
                    )
                &&& forall|name: Seq<char>| #[trigger]
                    criteria.contains_key(name) ==> exists|i: int|
                        0 <= i < subscriptions.len() && (#[trigger] subscriptions[i]).id == name
            },
        },
{
    let questions = named_questions(subscriptions);
    let instructions = named_instructions(subscriptions);
    assert(ordered::distinct_keys(questions));
    assert(ordered::distinct_keys(instructions));
    assert forall|i: int| 0 <= i < subscriptions.len() implies ordered::collected(
        questions,
    ).contains_key((#[trigger] subscriptions[i]).id) && ordered::collected(
        questions,
    )[subscriptions[i].id] == subscription::question_of(subscriptions[i])
        && ordered::collected(instructions).contains_key(subscriptions[i].id)
        && ordered::collected(instructions)[subscriptions[i].id] == subscription::instructions_of(
        subscriptions[i],
    ) by {
        ordered::lemma_collected_distinct(questions, i);
        ordered::lemma_collected_distinct(instructions, i);
    }
    ordered::lemma_collected(questions);
    ordered::lemma_collected(instructions);
    assert forall|name: Seq<char>| #[trigger]
        ordered::collected(questions).contains_key(name) implies exists|i: int|
        0 <= i < subscriptions.len() && (#[trigger] subscriptions[i]).id == name by {
        let i = choose|i: int|
            ordered::holds_at(questions, name, i) && ordered::collected(questions)[name] == (
            #[trigger] questions[i]).1;
        assert(subscriptions[i].id == name);
    }
    assert forall|name: Seq<char>| #[trigger]
        ordered::collected(instructions).contains_key(name) implies exists|i: int|
        0 <= i < subscriptions.len() && (#[trigger] subscriptions[i]).id == name by {
        let i = choose|i: int|
            ordered::holds_at(instructions, name, i) && ordered::collected(instructions)[name] == (
            #[trigger] instructions[i]).1;
        assert(subscriptions[i].id == name);
    }
    if policy == Policy::Exclusive && subscriptions.len() > 0 {
        assert(planned(policy, subscriptions).dom() =~= set![EXCLUSIVE_QUESTION@]);
    }
}

/// Law: under `FanOut` each subscription is judged by its own answer alone. The
/// answers decide exactly where every subscription has a yes/no answer under its
/// id; each verdict then holds that probability, and what the subscription's
/// thresholds say of it. Else the error is about the first subscription without
/// such an answer.
pub proof fn law_fan_out_judges_each_by_its_own_answer(
    subscriptions: Seq<subscription::SubscriptionView>,
    answers: Map<Seq<char>, question::AnswerView>,
)
    ensures
        match decided(Policy::FanOut, subscriptions, answers) {
            Ok(verdicts) => verdicts.len() == subscriptions.len() && forall|i: int|
                0 <= i < subscriptions.len() ==> {
                    let own = #[trigger] subscriptions[i];
                    &&& answers.contains_key(own.id)
                    &&& answers[own.id] is Noul
                    &&& verdicts[i].subscription == own.id
                    &&& verdicts[i].probability == answers[own.id]->Noul_probability
                    &&& verdicts[i].disposition == subscription::disposition(
                        own.thresholds,
                        answers[own.id]->Noul_probability,
                    )
                },
            Err(error) => exists|i: int|
                0 <= i < subscriptions.len() && {
                    let own = #[trigger] subscriptions[i];
                    &&& forall|j: int|
                        0 <= j < i ==> answers.contains_key((#[trigger] subscriptions[j]).id)
                            && answers[subscriptions[j].id] is Noul
                    &&& if answers.contains_key(own.id) {
                        !(answers[own.id] is Noul) && error == (RoutingErrorView::WrongAnswerKind {
                            question: own.id,
                            expected: AnswerKind::Noul,
                        })
                    } else {
                        error == (RoutingErrorView::MissingAnswer { question: own.id })
                    }
                },
        },
    decreases subscriptions.len(),
{
    lemma_fan_out(subscriptions, answers);
    match decided(Policy::FanOut, subscriptions, answers) {
        Ok(verdicts) => {
            assert forall|i: int| 0 <= i < subscriptions.len() implies own_verdict(
                #[trigger] subscriptions[i],
                answers,
            ) == Ok::<_, RoutingErrorView>(verdicts[i]) by {
                assert(own_verdict(subscriptions[i], answers) == Ok::<_, RoutingErrorView>(
                    verdicts[i],
                ));
            }
        },
        Err(error) => {
            let rest = subscriptions.drop_last();
            let last = subscriptions.len() - 1;
            law_fan_out_judges_each_by_its_own_answer(rest, answers);
            if fan_out_verdicts(rest, answers) is Err {
                let i = choose|i: int|
                    0 <= i < rest.len() && {
                        let own = #[trigger] rest[i];
                        &&& forall|j: int|
                            0 <= j < i ==> answers.contains_key((#[trigger] rest[j]).id)
                                && answers[rest[j].id] is Noul
                        &&& if answers.contains_key(own.id) {
                            !(answers[own.id] is Noul) && error == (
                            RoutingErrorView::WrongAnswerKind {
                                question: own.id,
                                expected: AnswerKind::Noul,
                            })
                        } else {
                            error == (RoutingErrorView::MissingAnswer { question: own.id })
                        }
                    };
                assert(subscriptions[i] == rest[i]);
                assert forall|j: int| 0 <= j < i implies answers.contains_key(
                    (#[trigger] subscriptions[j]).id,
                ) && answers[subscriptions[j].id] is Noul by {
                    assert(subscriptions[j] == rest[j]);
                }
            } else {
                assert(own_verdict(subscriptions[last], answers) is Err);
                assert forall|j: int| 0 <= j < last implies answers.contains_key(
                    (#[trigger] subscriptions[j]).id,
                ) && answers[subscriptions[j].id] is Noul by {
                    assert(subscriptions[j] == rest[j]);
                }
            }
        },
    }
}

/// Law: under `Exclusive` every subscription is told its own option's
/// probability.
pub proof fn law_exclusive_tells_each_its_own_probability(
    subscriptions: Seq<subscription::SubscriptionView>,
    answers: Map<Seq<char>, question::AnswerView>,
    verdicts: Seq<VerdictView>,
    i: int,
)
    requires
        decided(Policy::Exclusive, subscriptions, answers) == Ok::<_, RoutingErrorView>(verdicts),
        0 <= i < subscriptions.len(),
    ensures
        answers.contains_key("route"@),
        answers["route"@] is Choice,
        answers["route"@]->Choice_probabilities.contains_key(subscriptions[i].id),
        verdicts.len() == subscriptions.len(),
        verdicts[i].subscription == subscriptions[i].id,
        verdicts[i].probability == answers["route"@]->Choice_probabilities[subscriptions[i].id],
{
    lemma_option_count(subscriptions, answers["route"@]->Choice_probabilities);
}

/// Law: under `Exclusive` the likeliest subscription, the first of equals, is
/// disposed of as its thresholds say, however many subscriptions there are.
pub proof fn law_exclusive_disposes_of_the_likeliest(
    subscriptions: Seq<subscription::SubscriptionView>,
    answers: Map<Seq<char>, question::AnswerView>,
    verdicts: Seq<VerdictView>,
    best: int,
)
    requires
        decided(Policy::Exclusive, subscriptions, answers) == Ok::<_, RoutingErrorView>(verdicts),
        0 <= best < subscriptions.len(),
        forall|j: int|
            0 <= j < verdicts.len() ==> double::units((#[trigger] verdicts[j]).probability)
                <= double::units(verdicts[best].probability),
        forall|j: int|
            0 <= j < best ==> double::units((#[trigger] verdicts[j]).probability) < double::units(
                verdicts[best].probability,
            ),
    ensures
        verdicts[best].disposition == subscription::disposition(
            subscriptions[best].thresholds,
            verdicts[best].probability,
        ),
{
    let odds = answers["route"@]->Choice_probabilities;
    lemma_option_count(subscriptions, odds);
    let found = option_probabilities(subscriptions, odds)->Ok_0;
    assert forall|j: int| 0 <= j < found.len() implies double::units(#[trigger] found[j])
        <= double::units(found[best]) by {
        assert(verdicts[j].probability == found[j]);
    }
    assert forall|j: int| 0 <= j < best implies double::units(#[trigger] found[j]) < double::units(
        found[best],
    ) by {
        assert(verdicts[j].probability == found[j]);
    }
    assert(is_winner(found, best));
}

/// Law: under `Exclusive` a subscription is dropped where another is likelier,
/// or is as likely and was registered before it.
pub proof fn law_exclusive_drops_the_less_likely(
    subscriptions: Seq<subscription::SubscriptionView>,
    answers: Map<Seq<char>, question::AnswerView>,
    verdicts: Seq<VerdictView>,
    i: int,
    rival: int,
)
    requires
        decided(Policy::Exclusive, subscriptions, answers) == Ok::<_, RoutingErrorView>(verdicts),
        0 <= i < subscriptions.len(),
        0 <= rival < subscriptions.len(),
        double::units(verdicts[i].probability) < double::units(verdicts[rival].probability) || (
        rival < i && double::units(verdicts[i].probability) == double::units(
            verdicts[rival].probability,
        )),
    ensures
        verdicts[i].disposition is Drop,
{
    let odds = answers["route"@]->Choice_probabilities;
    lemma_option_count(subscriptions, odds);
    let found = option_probabilities(subscriptions, odds)->Ok_0;
    assert(verdicts[i].probability == found[i] && verdicts[rival].probability == found[rival]);
    assert(!is_winner(found, i));
}

/// Law: under `Exclusive` the answers decide exactly where the one question has
/// a choice for an answer that gives every subscription a probability. Else the
/// error says what is missing: the answer, its kind, or the option of the first
/// subscription without one.
pub proof fn law_exclusive_needs_a_choice_with_every_option(
    subscriptions: Seq<subscription::SubscriptionView>,
    answers: Map<Seq<char>, question::AnswerView>,
)
    requires
        subscriptions.len() > 0,
    ensures
        decided(Policy::Exclusive, subscriptions, answers) is Ok <==> answers.contains_key("route"@)
            && answers["route"@] is Choice && forall|i: int|
            0 <= i < subscriptions.len()
                ==> answers["route"@]->Choice_probabilities.contains_key(
                (#[trigger] subscriptions[i]).id,
            ),
        decided(Policy::Exclusive, subscriptions, answers) matches Err(error) ==> match error {
            RoutingErrorView::MissingAnswer { question } => question == "route"@
                && !answers.contains_key("route"@),
            RoutingErrorView::WrongAnswerKind { question, expected } => question == "route"@
                && expected is Choice && answers.contains_key("route"@)
                && !(answers["route"@] is Choice),
            RoutingErrorView::MissingOption { subscription } => answers.contains_key("route"@)
                && answers["route"@] is Choice && exists|i: int|
                0 <= i < subscriptions.len() && (#[trigger] subscriptions[i]).id == subscription
                    && !answers["route"@]->Choice_probabilities.contains_key(subscription)
                    && forall|j: int|
                    0 <= j < i ==> answers["route"@]->Choice_probabilities.contains_key(
                        (#[trigger] subscriptions[j]).id,
                    ),
        },
{
    let odds = answers["route"@]->Choice_probabilities;
    if answers.contains_key("route"@) && answers["route"@] is Choice {
        lemma_option_count(subscriptions, odds);
        if option_probabilities(subscriptions, odds) is Err {
            lemma_missing_option(subscriptions, odds);
        }
    }
}

proof fn lemma_missing_option(
    subscriptions: Seq<subscription::SubscriptionView>,
    probabilities: Map<Seq<char>, u64>,
)
    requires
        option_probabilities(subscriptions, probabilities) is Err,
    ensures
        exists|i: int|
            0 <= i < subscriptions.len() && !probabilities.contains_key(
                (#[trigger] subscriptions[i]).id,
            ) && option_probabilities(subscriptions, probabilities)->Err_0 == (
            RoutingErrorView::MissingOption { subscription: subscriptions[i].id }) && forall|j: int|
                0 <= j < i ==> probabilities.contains_key((#[trigger] subscriptions[j]).id),
    decreases subscriptions.len(),
{
    if subscriptions.len() > 0 {
        let rest = subscriptions.drop_last();
        let last = subscriptions.len() - 1;
        if option_probabilities(rest, probabilities) is Err {
            lemma_missing_option(rest, probabilities);
            let i = choose|i: int|
                0 <= i < rest.len() && !probabilities.contains_key((#[trigger] rest[i]).id)
                    && option_probabilities(rest, probabilities)->Err_0 == (
                RoutingErrorView::MissingOption { subscription: rest[i].id }) && forall|j: int|
                    0 <= j < i ==> probabilities.contains_key((#[trigger] rest[j]).id);
            assert(subscriptions[i] == rest[i]);
            assert forall|j: int| 0 <= j < i implies probabilities.contains_key(
                (#[trigger] subscriptions[j]).id,
            ) by {
                assert(subscriptions[j] == rest[j]);
            }
        } else {
            lemma_option_count(rest, probabilities);
            assert(!probabilities.contains_key(subscriptions[last].id));
            assert forall|j: int| 0 <= j < last implies probabilities.contains_key(
                (#[trigger] subscriptions[j]).id,
            ) by {
                assert(subscriptions[j] == rest[j]);
            }
        }
    }
}

/// Law: the questions carry each subscription's own instructions. Under
/// `FanOut` there is one yes/no question per id; under `Exclusive` the one
/// question is a choice, with one option per id. Where an id is used twice the
/// last subscription that has it counts. Without subscriptions nothing is asked,
/// and nothing is left to decide.
pub proof fn law_questions_carry_each_subscription(
    subscriptions: Seq<subscription::SubscriptionView>,
    answers: Map<Seq<char>, question::AnswerView>,
    i: int,
)
    requires
        0 <= i < subscriptions.len() ==> forall|j: int|
            i < j < subscriptions.len() ==> (#[trigger] subscriptions[j]).id != subscriptions[i].id,
    ensures
        0 <= i < subscriptions.len() ==> {
            let own = subscriptions[i];
            let asked = planned(Policy::FanOut, subscriptions);
            let choice = planned(Policy::Exclusive, subscriptions)["route"@];
            &&& asked.contains_key(own.id)
            &&& asked[own.id] == (question::QuestionView::Noul {
                instructions: subscription::instructions_of(own),
            })
            &&& planned(Policy::Exclusive, subscriptions).contains_key("route"@)
            &&& choice is Choice
            &&& choice->Choice_instructions == "Which subscription does the message belong to?"@
            &&& choice->criteria.contains_key(own.id)
            &&& choice->criteria[own.id] == subscription::instructions_of(own)
        },
        forall|name: Seq<char>| #[trigger]
            planned(Policy::FanOut, subscriptions).contains_key(name) ==> exists|k: int|
                0 <= k < subscriptions.len() && (#[trigger] subscriptions[k]).id == name,
        forall|name: Seq<char>| #[trigger]
            planned(Policy::Exclusive, subscriptions).contains_key(name) ==> name == "route"@
                && subscriptions.len() > 0,
        subscriptions.len() > 0 ==> forall|name: Seq<char>| #[trigger]
            planned(
                Policy::Exclusive,
                subscriptions,
            )["route"@]->criteria.contains_key(name) ==> exists|k: int|
                0 <= k < subscriptions.len() && (#[trigger] subscriptions[k]).id == name,
        subscriptions.len() == 0 ==> decided(Policy::FanOut, subscriptions, answers) == Ok::<
            _,
            RoutingErrorView,
        >(Seq::<VerdictView>::empty()),
        subscriptions.len() == 0 ==> decided(Policy::Exclusive, subscriptions, answers) == Ok::<
            _,
            RoutingErrorView,
        >(Seq::<VerdictView>::empty()),
{
    let questions = named_questions(subscriptions);
    let instructions = named_instructions(subscriptions);
    if 0 <= i < subscriptions.len() {
        assert forall|j: int| i < j < questions.len() implies (#[trigger] questions[j]).0
            != questions[i].0 by {
            assert(subscriptions[j].id != subscriptions[i].id);
        }
        assert forall|j: int| i < j < instructions.len() implies (#[trigger] instructions[j]).0
            != instructions[i].0 by {
            assert(subscriptions[j].id != subscriptions[i].id);
        }
        ordered::law_the_last_entry_of_a_key_holds(questions, i);
        ordered::law_the_last_entry_of_a_key_holds(instructions, i);
    }
    ordered::lemma_collected(questions);
    ordered::lemma_collected(instructions);
    assert forall|name: Seq<char>| #[trigger]
        ordered::collected(questions).contains_key(name) implies exists|k: int|
        0 <= k < subscriptions.len() && (#[trigger] subscriptions[k]).id == name by {
        let k = choose|k: int|
            ordered::holds_at(questions, name, k) && ordered::collected(questions)[name] == (
            #[trigger] questions[k]).1;
        assert(subscriptions[k].id == name);
    }
    assert forall|name: Seq<char>| #[trigger]
        ordered::collected(instructions).contains_key(name) implies exists|k: int|
        0 <= k < subscriptions.len() && (#[trigger] subscriptions[k]).id == name by {
        let k = choose|k: int|
            ordered::holds_at(instructions, name, k) && ordered::collected(instructions)[name] == (
            #[trigger] instructions[k]).1;
        assert(subscriptions[k].id == name);
    }
}

/// Law: what deciding gives back is the verdicts, one for one, or the error, and
/// never one for the other.
pub proof fn law_deciding_gives_what_the_answers_say(
    outcome: Result<Vec<Verdict>, RoutingError>,
    policy: Policy,
    subscriptions: Seq<subscription::SubscriptionView>,
    answers: Map<Seq<char>, question::AnswerView>,
)
    requires
        agrees(outcome, decided(policy, subscriptions, answers)),
    ensures
        outcome is Ok <==> decided(policy, subscriptions, answers) is Ok,
        outcome matches Ok(verdicts) ==> verdicts@.len() == subscriptions.len() && forall|i: int|
            0 <= i < verdicts@.len() ==> (#[trigger] verdicts@[i])@ == decided(
                policy,
                subscriptions,
                answers,
            )->Ok_0[i],
        outcome matches Err(error) ==> error@ == decided(policy, subscriptions, answers)->Err_0,
{
    law_one_verdict_per_subscription(policy, subscriptions, answers);
    if let Ok(verdicts) = outcome {
        assert forall|i: int| 0 <= i < verdicts@.len() implies (#[trigger] verdicts@[i])@
            == decided(policy, subscriptions, answers)->Ok_0[i] by {
            assert(ordered::views(verdicts@)[i] == verdicts@[i]@);
        }
    }
}

/// Law: a routing error says in words which question or subscription it is
/// about, and what was expected of it.
pub proof fn law_routing_errors_name_their_subject(error: RoutingErrorView)
    ensures
        routing_error_text(error) == match error {
            RoutingErrorView::MissingAnswer { question } => "no answer to question "@ + question,
            RoutingErrorView::WrongAnswerKind { question, expected: AnswerKind::Noul } =>
            "answer to "@ + question + " is not a "@ + "noul"@ + " answer"@,
            RoutingErrorView::WrongAnswerKind { question, expected: AnswerKind::Choice } =>
            "answer to "@ + question + " is not a "@ + "choice"@ + " answer"@,
            RoutingErrorView::MissingOption { subscription } =>
            "exclusive answer has no probability for "@ + subscription,
        },
{
}

} // verus!
