//! Subscriptions: what a consumer wants, and the policy that decides delivery.

use crate::double;
use crate::event::EmptyId;
use crate::ordered;
use crate::ordered::{replicas, Replica};
use crate::probability::Probability;
use crate::question;
use crate::question::{Question, QuestionName};
use vstd::prelude::*;

verus! {

/// Identity of a subscription. Doubles as the judge question name.
///
/// Invariant: non-empty, carried by the inner [`QuestionName`]. Its view is
/// the identifier text.
#[derive(Debug, PartialEq, Eq, PartialOrd, Ord, Hash)]
pub struct SubscriptionId {
    name: QuestionName,
}

impl View for SubscriptionId {
    type V = Seq<char>;

    closed spec fn view(&self) -> Seq<char> {
        self.name@
    }
}

impl SubscriptionId {
    /// Validates that `id` is non-empty.
    pub fn new(id: &str) -> (checked: Result<SubscriptionId, EmptyId>)
        ensures
            checked is Ok <==> id@.len() > 0,
            checked matches Ok(subscription) ==> subscription@ == id@,
    {
        match QuestionName::new(id) {
            Ok(name) => Ok(SubscriptionId { name }),
            Err(empty) => Err(empty),
        }
    }

    /// The identifier text.
    pub fn as_str(&self) -> (text: &str)
        ensures
            text@ == self@,
            text@.len() > 0,
    {
        self.name.as_str()
    }

    /// The question name that carries this subscription's judgment.
    pub fn question_name(&self) -> (name: &QuestionName)
        ensures
            name@ == self@,
    {
        &self.name
    }
}

impl Clone for SubscriptionId {
    fn clone(&self) -> (copy: SubscriptionId)
        ensures
            copy == *self,
    {
        SubscriptionId { name: self.name.clone() }
    }
}

/// What the bus does with an event for one subscription.
///
/// Ordered from least to most engaged: `Drop < Review < Deliver`.
#[derive(Debug, Clone, Copy, PartialEq, Eq, PartialOrd, Ord, Hash, Structural)]
pub enum Disposition {
    /// Below both thresholds. Recorded, not delivered.
    Drop,
    /// Between the review and deliver thresholds. Sent to the review
    /// egress.
    Review,
    /// At or above the deliver threshold. Sent to the consumer.
    Deliver,
}

impl Disposition {
    /// How engaged the disposition is, from least to most.
    pub open spec fn engagement(self) -> int {
        match self {
            Disposition::Drop => 0,
            Disposition::Review => 1,
            Disposition::Deliver => 2,
        }
    }
}

/// What [`Thresholds`] stand for: the two probabilities by their bits.
pub struct ThresholdsView {
    /// The deliver threshold.
    pub deliver: u64,
    /// The review threshold.
    pub review: u64,
}

/// Delivery policy. Thresholds are policy, not model: changing them never
/// requires a new judgment.
///
/// Invariant: `review <= deliver`.
#[derive(Debug, Clone, Copy, PartialEq, Eq)]
pub struct Thresholds {
    deliver: Probability,
    review: Probability,
}

impl Thresholds {
    #[verifier::type_invariant]
    spec fn review_within_deliver(self) -> bool {
        self.review.amount() <= self.deliver.amount()
    }
}

impl View for Thresholds {
    type V = ThresholdsView;

    closed spec fn view(&self) -> ThresholdsView {
        ThresholdsView { deliver: self.deliver@, review: self.review@ }
    }
}

/// The disposition that `thresholds` give to the probability with these bits.
pub open spec fn disposition(thresholds: ThresholdsView, probability: u64) -> Disposition {
    if double::units(probability) >= double::units(thresholds.deliver) {
        Disposition::Deliver
    } else if double::units(probability) >= double::units(thresholds.review) {
        Disposition::Review
    } else {
        Disposition::Drop
    }
}

/// The review threshold exceeded the deliver threshold.
#[derive(Debug, Clone, Copy, PartialEq, Eq)]
pub struct ThresholdError {
    /// The deliver threshold.
    pub deliver: Probability,
    /// The review threshold.
    pub review: Probability,
}

/// Thresholds shown as `review` and `deliver` that are the wrong way round, in
/// words.
pub open spec fn threshold_error_text(review: Seq<char>, deliver: Seq<char>) -> Seq<char> {
    "review threshold "@ + review + " exceeds deliver threshold "@ + deliver
}

impl ThresholdError {
    /// What went wrong, in words, for thresholds shown as `review` and
    /// `deliver`.
    pub fn message(&self, review: &str, deliver: &str) -> (text: String)
        ensures
            text@ == threshold_error_text(review@, deliver@),
    {
        let mut text = "review threshold ".to_owned();
        text.append(review);
        text.append(" exceeds deliver threshold ");
        text.append(deliver);
        text
    }
}

impl Thresholds {
    /// Validates `review <= deliver`.
    pub fn new(deliver: Probability, review: Probability) -> (checked: Result<
        Thresholds,
        ThresholdError,
    >)
        ensures
            checked is Ok <==> review.amount() <= deliver.amount(),
            checked matches Ok(thresholds) ==> thresholds@ == (ThresholdsView {
                deliver: deliver@,
                review: review@,
            }),
            checked matches Err(error) ==> error == (ThresholdError { deliver, review }),
    {
        if deliver.at_least(review) {
            Ok(Thresholds { deliver, review })
        } else {
            Err(ThresholdError { deliver, review })
        }
    }

    /// A policy with no review band: deliver at or above `deliver`, else drop.
    pub fn deliver_only(deliver: Probability) -> (thresholds: Thresholds)
        ensures
            thresholds@ == (ThresholdsView { deliver: deliver@, review: deliver@ }),
    {
        Thresholds { deliver, review: deliver }
    }

    /// The deliver threshold.
    pub fn deliver(self) -> (deliver: Probability)
        ensures
            deliver@ == self@.deliver,
    {
        self.deliver
    }

    /// The review threshold, which does not exceed the deliver threshold.
    pub fn review(self) -> (review: Probability)
        ensures
            review@ == self@.review,
            review.amount() <= double::units(self@.deliver),
    {
        proof {
            use_type_invariant(&self);
        }
        self.review
    }

    /// Maps a probability to a disposition.
    pub fn dispose(self, probability: Probability) -> (decided: Disposition)
        ensures
            decided == disposition(self@, probability@),
    {
        if probability.at_least(self.deliver) {
            Disposition::Deliver
        } else if probability.at_least(self.review) {
            Disposition::Review
        } else {
            Disposition::Drop
        }
    }
}

/// Law (monotone): a probability that is no smaller gets a disposition that is
/// no less engaged.
pub proof fn law_dispose_is_monotone(thresholds: ThresholdsView, p: u64, q: u64)
    requires
        double::units(p) <= double::units(q),
    ensures
        disposition(thresholds, p).engagement() <= disposition(thresholds, q).engagement(),
{
}

/// Law: without a review band nothing is sent to review.
pub proof fn law_deliver_only_has_no_review_band(thresholds: ThresholdsView, p: u64)
    requires
        thresholds.review == thresholds.deliver,
    ensures
        disposition(thresholds, p) != Disposition::Review,
{
}

/// What a [`Subscription`] stands for.
#[verifier::ext_equal]
pub struct SubscriptionView {
    /// The identity.
    pub id: Seq<char>,
    /// The plain-language description.
    pub description: Seq<char>,
    /// Payloads that should match.
    pub examples: Seq<Seq<char>>,
    /// Payloads that should not match.
    pub counter_examples: Seq<Seq<char>>,
    /// The delivery policy.
    pub thresholds: ThresholdsView,
}

/// A plain-language subscription.
#[derive(Debug, PartialEq, Eq)]
pub struct Subscription {
    id: SubscriptionId,
    description: String,
    examples: Vec<String>,
    counter_examples: Vec<String>,
    thresholds: Thresholds,
}

impl View for Subscription {
    type V = SubscriptionView;

    closed spec fn view(&self) -> SubscriptionView {
        SubscriptionView {
            id: self.id@,
            description: self.description@,
            examples: ordered::views(self.examples@),
            counter_examples: ordered::views(self.counter_examples@),
            thresholds: self.thresholds@,
        }
    }
}

/// One line for each of `items`.
pub open spec fn bullets(items: Seq<Seq<char>>) -> Seq<char>
    decreases items.len(),
{
    if items.len() == 0 {
        Seq::empty()
    } else {
        bullets(items.drop_last()) + "\n- "@ + items.last()
    }
}

/// `items` under `heading`, or nothing at all where there are none.
pub open spec fn headed_list(heading: Seq<char>, items: Seq<Seq<char>>) -> Seq<char> {
    if items.len() == 0 {
        Seq::empty()
    } else {
        "\n"@ + heading + ":"@ + bullets(items)
    }
}

/// The instructions of the yes/no question that judges a subscription.
pub open spec fn instructions_of(subscription: SubscriptionView) -> Seq<char> {
    "The message matches: "@ + subscription.description + headed_list(
        "Examples that match"@,
        subscription.examples,
    ) + headed_list("Examples that do NOT match"@, subscription.counter_examples)
}

/// The yes/no question that judges a subscription.
pub open spec fn question_of(subscription: SubscriptionView) -> question::QuestionView {
    question::QuestionView::Noul { instructions: instructions_of(subscription) }
}

/// Adds a copy of each of `more` to the end of `texts`.
fn extend(texts: Vec<String>, more: &[&str]) -> (extended: Vec<String>)
    ensures
        ordered::views(extended@) == ordered::views(texts@) + ordered::views(more@),
{
    let ghost given = texts@;
    let mut extended = texts;
    let mut i: usize = 0;
    while i < more.len()
        invariant
            i <= more@.len(),
            extended@.len() == given.len() + i,
            forall|j: int| 0 <= j < given.len() ==> extended@[j] == given[j],
            forall|j: int| 0 <= j < i ==> (#[trigger] extended@[given.len() + j])@ == more@[j]@,
        decreases more@.len() - i,
    {
        extended.push(more[i].to_owned());
        i = i + 1;
    }
    proof {
        let joined = ordered::views(given) + ordered::views(more@);
        assert forall|j: int| 0 <= j < joined.len() implies joined[j] == ordered::views(
            extended@,
        )[j] by {
            if j >= given.len() {
                assert(extended@[given.len() + (j - given.len())]@ == more@[j - given.len()]@);
            }
        }
        assert(ordered::views(extended@) =~= joined);
    }
    extended
}

/// Appends `items` under `heading`, if there are any.
fn push_list(text: &mut String, heading: &str, items: &[String])
    ensures
        final(text)@ == old(text)@ + headed_list(heading@, ordered::views(items@)),
{
    if items.len() == 0 {
        assert(text@ + Seq::<char>::empty() =~= text@);
        return;
    }
    let ghost before = text@;
    let ghost lines = ordered::views(items@);
    text.append("\n");
    text.append(heading);
    text.append(":");
    let mut i: usize = 0;
    assert(lines.take(0) =~= Seq::<Seq<char>>::empty());
    assert(text@ =~= before + ("\n"@ + heading@ + ":"@ + bullets(lines.take(0))));
    while i < items.len()
        invariant
            i <= items@.len(),
            lines == ordered::views(items@),
            text@ == before + ("\n"@ + heading@ + ":"@ + bullets(lines.take(i as int))),
        decreases items@.len() - i,
    {
        text.append("\n- ");
        text.append(items[i].as_str());
        i = i + 1;
        proof {
            let shown = lines.take(i as int);
            assert(shown.drop_last() =~= lines.take(i - 1));
            assert(text@ =~= before + ("\n"@ + heading@ + ":"@ + bullets(shown)));
        }
    }
    assert(lines.take(i as int) =~= lines);
}

impl Subscription {
    /// Creates a subscription with no examples.
    pub fn new(id: SubscriptionId, description: &str, thresholds: Thresholds) -> (subscription:
        Subscription)
        ensures
            subscription@ == (SubscriptionView {
                id: id@,
                description: description@,
                examples: Seq::empty(),
                counter_examples: Seq::empty(),
                thresholds: thresholds@,
            }),
    {
        let subscription = Subscription {
            id,
            description: description.to_owned(),
            examples: Vec::new(),
            counter_examples: Vec::new(),
            thresholds,
        };
        assert(subscription@.examples =~= Seq::<Seq<char>>::empty());
        assert(subscription@.counter_examples =~= Seq::<Seq<char>>::empty());
        subscription
    }

    /// Adds payloads that should match.
    pub fn with_examples(self, examples: &[&str]) -> (subscription: Subscription)
        ensures
            subscription@ == (SubscriptionView {
                examples: self@.examples + ordered::views(examples@),
                ..self@
            }),
    {
        Subscription {
            id: self.id,
            description: self.description,
            examples: extend(self.examples, examples),
            counter_examples: self.counter_examples,
            thresholds: self.thresholds,
        }
    }

    /// Adds payloads that should not match.
    pub fn with_counter_examples(self, examples: &[&str]) -> (subscription: Subscription)
        ensures
            subscription@ == (SubscriptionView {
                counter_examples: self@.counter_examples + ordered::views(examples@),
                ..self@
            }),
    {
        Subscription {
            id: self.id,
            description: self.description,
            examples: self.examples,
            counter_examples: extend(self.counter_examples, examples),
            thresholds: self.thresholds,
        }
    }

    /// The identity.
    pub fn id(&self) -> (id: &SubscriptionId)
        ensures
            id@ == self@.id,
    {
        &self.id
    }

    /// The plain-language description.
    pub fn description(&self) -> (description: &str)
        ensures
            description@ == self@.description,
    {
        self.description.as_str()
    }

    /// Payloads that should match.
    pub fn examples(&self) -> (examples: &[String])
        ensures
            ordered::views(examples@) == self@.examples,
    {
        self.examples.as_slice()
    }

    /// Payloads that should not match.
    pub fn counter_examples(&self) -> (examples: &[String])
        ensures
            ordered::views(examples@) == self@.counter_examples,
    {
        self.counter_examples.as_slice()
    }

    /// The delivery policy.
    pub fn thresholds(&self) -> (thresholds: Thresholds)
        ensures
            thresholds@ == self@.thresholds,
    {
        self.thresholds
    }

    /// Renders the subscription as the instructions of a yes/no question.
    ///
    /// Pure: same subscription, same text.
    pub fn instructions(&self) -> (text: String)
        ensures
            text@ == instructions_of(self@),
    {
        let mut text = "The message matches: ".to_owned();
        text.append(self.description.as_str());
        push_list(&mut text, "Examples that match", self.examples.as_slice());
        push_list(&mut text, "Examples that do NOT match", self.counter_examples.as_slice());
        text
    }

    /// The yes/no question that judges this subscription in isolation.
    pub fn question(&self) -> (question: Question)
        ensures
            question@ == question_of(self@),
    {
        Question::Noul { instructions: self.instructions() }
    }
}

impl Clone for Subscription {
    fn clone(&self) -> (copy: Subscription)
        ensures
            copy@ == self@,
    {
        Subscription {
            id: self.id.clone(),
            description: self.description.clone(),
            examples: replicas(self.examples.as_slice()),
            counter_examples: replicas(self.counter_examples.as_slice()),
            thresholds: self.thresholds,
        }
    }
}

impl Replica for Subscription {
    fn replica(&self) -> (copy: Subscription) {
        self.clone()
    }
}

/// Law: the thresholds cut the probabilities into three bands. A probability
/// that reaches the deliver threshold is delivered, one that reaches only the
/// review threshold is reviewed, and one that reaches neither is dropped.
pub proof fn law_thresholds_cut_three_bands(thresholds: ThresholdsView, probability: u64)
    requires
        double::units(thresholds.review) <= double::units(thresholds.deliver),
    ensures
        disposition(thresholds, probability) is Deliver <==> double::units(thresholds.deliver)
            <= double::units(probability),
        disposition(thresholds, probability) is Review <==> double::units(thresholds.review)
            <= double::units(probability) < double::units(thresholds.deliver),
        disposition(thresholds, probability) is Drop <==> double::units(probability)
            < double::units(thresholds.review),
{
}

/// One line for each of `items`, with a dash before it.
pub open spec fn dashed(items: Seq<Seq<char>>) -> Seq<char> {
    items.map_values(|item: Seq<char>| "\n- "@ + item).flatten()
}

proof fn lemma_dashed(items: Seq<Seq<char>>)
    ensures
        bullets(items) == dashed(items),
        items.len() > 0 ==> dashed(items) == dashed(items.drop_last()) + ("\n- "@ + items.last()),
    decreases items.len(),
{
    let line = |item: Seq<char>| "\n- "@ + item;
    let listed = items.map_values(line);
    if items.len() == 0 {
        assert(listed =~= Seq::<Seq<char>>::empty());
        assert(dashed(items) =~= Seq::<char>::empty());
    } else {
        lemma_dashed(items.drop_last());
        assert(listed.drop_last() =~= items.drop_last().map_values(line));
        assert(listed =~= listed.drop_last().push(listed.last()));
        listed.drop_last().lemma_flatten_push(listed.last());
        assert(bullets(items) =~= dashed(items.drop_last()) + ("\n- "@ + items.last()));
    }
}

/// Law: the instructions say what matches, then list the examples under their
/// own heading, then the counter-examples under theirs, each on a line of its
/// own. A list without items is left out with its heading, whether or not the
/// other list has any. So where there are counter-examples, the text ends with
/// them, and nothing else stands under their heading.
pub proof fn law_instructions_list_both_kinds_of_examples(subscription: SubscriptionView)
    ensures
        ({
            let opening = "The message matches: "@ + subscription.description;
            let matching = "\nExamples that match:"@ + dashed(subscription.examples);
            let differing = "\nExamples that do NOT match:"@ + dashed(
                subscription.counter_examples,
            );
            let text = instructions_of(subscription);
            &&& subscription.examples.len() == 0 && subscription.counter_examples.len() == 0
                ==> text == opening
            &&& subscription.examples.len() > 0 && subscription.counter_examples.len() == 0
                ==> text == opening + matching
            &&& subscription.examples.len() == 0 && subscription.counter_examples.len() > 0
                ==> text == opening + differing
            &&& subscription.examples.len() > 0 && subscription.counter_examples.len() > 0
                ==> text == opening + matching + differing
        }),
{
    let opening = "The message matches: "@ + subscription.description;
    let matching = "\nExamples that match:"@ + dashed(subscription.examples);
    let differing = "\nExamples that do NOT match:"@ + dashed(subscription.counter_examples);
    lemma_dashed(subscription.examples);
    lemma_dashed(subscription.counter_examples);
    reveal_strlit("\n");
    reveal_strlit(":");
    reveal_strlit("Examples that match");
    reveal_strlit("Examples that do NOT match");
    reveal_strlit("\nExamples that match:");
    reveal_strlit("\nExamples that do NOT match:");
    assert("\n"@ + "Examples that match"@ + ":"@ =~= "\nExamples that match:"@);
    assert("\n"@ + "Examples that do NOT match"@ + ":"@ =~= "\nExamples that do NOT match:"@);
    let text = instructions_of(subscription);
    if subscription.examples.len() == 0 && subscription.counter_examples.len() == 0 {
        assert(text =~= opening);
    } else if subscription.counter_examples.len() == 0 {
        assert(text =~= opening + matching);
    } else if subscription.examples.len() == 0 {
        assert(text =~= opening + differing);
    } else {
        assert(text =~= opening + matching + differing);
    }
}

/// Law: a counter-example that is added comes last, on a line of its own; the
/// first one brings its heading with it. So does an example, as long as there
/// are no counter-examples.
pub proof fn law_an_added_example_is_the_last_line(
    subscription: SubscriptionView,
    added: Seq<char>,
)
    ensures
        instructions_of(
            SubscriptionView {
                counter_examples: subscription.counter_examples.push(added),
                ..subscription
            },
        ) == instructions_of(subscription) + (if subscription.counter_examples.len() == 0 {
            "\nExamples that do NOT match:"@
        } else {
            Seq::empty()
        }) + "\n- "@ + added,
        subscription.counter_examples.len() == 0 ==> instructions_of(
            SubscriptionView { examples: subscription.examples.push(added), ..subscription },
        ) == instructions_of(subscription) + (if subscription.examples.len() == 0 {
            "\nExamples that match:"@
        } else {
            Seq::empty()
        }) + "\n- "@ + added,
{
    let countered = SubscriptionView {
        counter_examples: subscription.counter_examples.push(added),
        ..subscription
    };
    let shown = SubscriptionView { examples: subscription.examples.push(added), ..subscription };
    law_instructions_list_both_kinds_of_examples(subscription);
    law_instructions_list_both_kinds_of_examples(countered);
    law_instructions_list_both_kinds_of_examples(shown);
    lemma_dashed(countered.counter_examples);
    lemma_dashed(shown.examples);
    lemma_dashed(Seq::empty());
    assert(countered.counter_examples.drop_last() =~= subscription.counter_examples);
    assert(shown.examples.drop_last() =~= subscription.examples);
    if subscription.counter_examples.len() == 0 {
        assert(subscription.counter_examples =~= Seq::empty());
    }
    if subscription.examples.len() == 0 {
        assert(subscription.examples =~= Seq::empty());
    }
    assert(instructions_of(countered) =~= instructions_of(subscription) + (
    if subscription.counter_examples.len() == 0 {
        "\nExamples that do NOT match:"@
    } else {
        Seq::empty()
    }) + "\n- "@ + added);
    if subscription.counter_examples.len() == 0 {
        assert(instructions_of(shown) =~= instructions_of(subscription) + (
        if subscription.examples.len() == 0 {
            "\nExamples that match:"@
        } else {
            Seq::empty()
        }) + "\n- "@ + added);
    }
}

/// Law: a threshold error says in words which threshold exceeds which.
pub proof fn law_a_threshold_error_shows_both(review: Seq<char>, deliver: Seq<char>)
    ensures
        threshold_error_text(review, deliver) == "review threshold "@ + review
            + " exceeds deliver threshold "@ + deliver,
{
}

} // verus!
