//! Jev's wire format and its conversion to the crate vocabulary.
//!
//! A field outside a probability's range surfaces as
//! [`JudgeError::MalformedAnswer`] naming the question rather than a silent
//! misroute.

use crate::double;
use crate::double::Double;
use crate::event::Payload;
use crate::judge;
use crate::judge::JudgeError;
use crate::lifecycle;
use crate::ordered;
use crate::ordered::{replicas, MapKey, OrderedMap};
use crate::probability;
use crate::probability::Probability;
use crate::question;
use crate::question::{Answer, AnswerSet, Question, QuestionName, QuestionSet};
use crate::text;
use vstd::prelude::*;

verus! {

/// What a [`Request`] stands for.
#[verifier::ext_equal]
pub struct RequestView {
    /// The model alias.
    pub model: Seq<char>,
    /// What is asked about.
    pub state: Seq<char>,
    /// The questions by name.
    pub questions: Map<Seq<char>, question::QuestionView>,
}

/// A System One request body.
#[derive(Debug)]
pub struct Request {
    /// The model alias.
    pub model: String,
    /// What is asked about.
    pub state: String,
    /// The questions by name.
    pub questions: OrderedMap<String, WireQuestion>,
}

/// One question as it appears on the wire. It stands for the question that it
/// asks.
#[derive(Debug)]
#[allow(inconsistent_fields)]
pub enum WireQuestion {
    /// A yes/no proposition.
    Noul {
        /// The proposition.
        instructions: String,
    },
    /// One option among several.
    Choice {
        /// What is being chosen.
        instructions: String,
        /// Option name to option description.
        criteria: OrderedMap<String, String>,
    },
    /// A rating on an ordered scale.
    Score {
        /// What is being rated.
        instructions: String,
        /// The ordered level names, which Jev takes under `criteria`.
        criteria: Vec<String>,
    },
}

impl View for WireQuestion {
    type V = question::QuestionView;

    open spec fn view(&self) -> question::QuestionView {
        match *self {
            WireQuestion::Noul { instructions } => question::QuestionView::Noul {
                instructions: instructions@,
            },
            WireQuestion::Choice { instructions, criteria } => question::QuestionView::Choice {
                instructions: instructions@,
                criteria: criteria@,
            },
            WireQuestion::Score { instructions, criteria } => question::QuestionView::Score {
                instructions: instructions@,
                levels: ordered::views(criteria@),
            },
        }
    }
}

impl View for Request {
    type V = RequestView;

    open spec fn view(&self) -> RequestView {
        RequestView {
            model: self.model@,
            state: self.state@,
            questions: self.questions@,
        }
    }
}

/// What a [`Number`] stands for.
#[verifier::ext_equal]
pub struct NumberView {
    /// The bits of the number.
    pub value: u64,
    /// How the number is shown.
    pub shown: Seq<char>,
}

/// A number on the wire, with the text that shows it in messages.
#[derive(Debug, PartialEq)]
pub struct Number {
    /// The number.
    pub value: Double,
    /// How it is shown.
    pub shown: String,
}

impl View for Number {
    type V = NumberView;

    open spec fn view(&self) -> NumberView {
        NumberView { value: self.value@, shown: self.shown@ }
    }
}

/// What a [`Response`] stands for.
#[verifier::ext_equal]
pub struct ResponseView {
    /// Answers keyed by question name.
    pub answers: Map<Seq<char>, WireAnswerView>,
}

/// A System One response body. It stands for the answers that it holds.
#[derive(Debug)]
pub struct Response {
    /// The concrete model version that answered, when reported.
    pub model: Option<String>,
    /// Answers keyed by question name.
    pub answers: OrderedMap<String, WireAnswer>,
}

/// One answer as it appears on the wire.
#[derive(Debug)]
pub enum WireAnswer {
    /// Yes/no probability.
    Noul {
        /// The probability that the proposition holds.
        noul: Number,
    },
    /// One option among several.
    Choice {
        /// The chosen option.
        choice: String,
        /// Probability per option.
        probabilities: OrderedMap<String, Number>,
        /// Confidence in the choice.
        confidence: Option<Number>,
    },
    /// A rating on an ordered scale.
    Score {
        /// Expected level index as a real number.
        score: Double,
        /// Confidence in the most likely level.
        confidence: Option<Number>,
        /// Level index (as a decimal string) to level name.
        legend: OrderedMap<String, String>,
        /// Probability per level index (as a decimal string).
        probabilities: OrderedMap<String, Number>,
    },
}

/// What a [`WireAnswer`] stands for.
#[verifier::ext_equal]
pub enum WireAnswerView {
    /// Yes/no probability.
    Noul { noul: NumberView },
    /// One option among several.
    Choice {
        choice: Seq<char>,
        probabilities: Map<Seq<char>, NumberView>,
        confidence: Option<NumberView>,
    },
    /// A rating on an ordered scale.
    Score {
        score: u64,
        confidence: Option<NumberView>,
        legend: Map<Seq<char>, Seq<char>>,
        probabilities: Map<Seq<char>, NumberView>,
    },
}

/// An optional number by its view.
pub open spec fn number_view(number: Option<Number>) -> Option<NumberView> {
    match number {
        Some(number) => Some(number@),
        None => None,
    }
}

impl View for WireAnswer {
    type V = WireAnswerView;

    open spec fn view(&self) -> WireAnswerView {
        match *self {
            WireAnswer::Noul { noul } => WireAnswerView::Noul { noul: noul@ },
            WireAnswer::Choice { choice, probabilities, confidence } => WireAnswerView::Choice {
                choice: choice@,
                probabilities: probabilities@,
                confidence: number_view(confidence),
            },
            WireAnswer::Score { score, confidence, legend, probabilities } =>
            WireAnswerView::Score {
                score: score@,
                confidence: number_view(confidence),
                legend: legend@,
                probabilities: probabilities@,
            },
        }
    }
}

impl View for Response {
    type V = ResponseView;

    open spec fn view(&self) -> ResponseView {
        ResponseView { answers: self.answers@ }
    }
}

/// Encodes a request. Pure.
pub fn encode(model: &str, payload: &Payload, questions: &QuestionSet) -> (request: Request)
    ensures
        request@ == (RequestView { model: model@, state: payload@, questions: questions@ }),
{
    let ghost list = question::question_list(questions@);
    let entries = questions.iter();
    let mut encoded: OrderedMap<String, WireQuestion> = OrderedMap::new();
    let mut i: usize = 0;
    assert(ordered::dictionary(list.take(0)) =~= Map::<Seq<char>, question::QuestionView>::empty());
    while i < entries.len()
        invariant
            i <= entries@.len(),
            entries@.len() == list.len(),
            ordered::ascending::<QuestionName, question::QuestionView>(list),
            forall|j: int|
                0 <= j < entries@.len() ==> (#[trigger] entries@[j]).0@ == list[j].0
                    && entries@[j].1@ == list[j].1,
            encoded@ == ordered::dictionary(list.take(i as int)),
        decreases entries@.len() - i,
    {
        let (name, question) = entries[i];
        encoded.insert(name.as_str().to_owned(), encode_question(question));
        proof {
            ordered::lemma_listing_grows::<QuestionName, question::QuestionView>(list, i as int);
        }
        i = i + 1;
    }
    assert(list.take(i as int) =~= list);
    Request { model: model.to_owned(), state: payload.as_str().to_owned(), questions: encoded }
}

fn encode_question(question: &Question) -> (encoded: WireQuestion)
    ensures
        encoded@ == question@,
{
    match question {
        Question::Noul { instructions } => WireQuestion::Noul { instructions: instructions.clone() },
        Question::Choice { instructions, criteria } => WireQuestion::Choice {
            instructions: instructions.clone(),
            criteria: criteria.clone(),
        },
        Question::Score { instructions, levels } => WireQuestion::Score {
            instructions: instructions.clone(),
            criteria: replicas(levels.as_slice()),
        },
    }
}

/// The bits of a number that is a probability, or what is wrong with it.
pub open spec fn decoded_number(number: NumberView) -> Result<u64, Seq<char>> {
    if double::in_unit_interval(number.value) {
        Ok(probability::held_bits(number.value))
    } else {
        Err(probability::probability_error_text(number.shown))
    }
}

/// The bits of an optional number that is a probability, or what is wrong with
/// it.
pub open spec fn decoded_confidence(number: Option<NumberView>) -> Result<
    Option<u64>,
    Seq<char>,
> {
    match number {
        None => Ok(None),
        Some(number) => match decoded_number(number) {
            Ok(bits) => Ok(Some(bits)),
            Err(detail) => Err(detail),
        },
    }
}

/// The probabilities of `entries`, or what is wrong with the first that is none.
pub open spec fn decoded_numbers(entries: Seq<(Seq<char>, NumberView)>) -> Result<
    Map<Seq<char>, u64>,
    Seq<char>,
>
    decreases entries.len(),
{
    if entries.len() == 0 {
        Ok(Map::empty())
    } else {
        match decoded_numbers(entries.drop_last()) {
            Err(detail) => Err(detail),
            Ok(numbers) => match decoded_number(entries.last().1) {
                Err(detail) => Err(detail),
                Ok(bits) => Ok(numbers.insert(entries.last().0, bits)),
            },
        }
    }
}

/// The probabilities of `entries` by level name, or what is wrong with the
/// first entry that the legend has no name for or that is no probability.
pub open spec fn decoded_levels(
    legend: Map<Seq<char>, Seq<char>>,
    entries: Seq<(Seq<char>, NumberView)>,
) -> Result<Map<Seq<char>, u64>, Seq<char>>
    decreases entries.len(),
{
    if entries.len() == 0 {
        Ok(Map::empty())
    } else {
        let (index, number) = entries.last();
        match decoded_levels(legend, entries.drop_last()) {
            Err(detail) => Err(detail),
            Ok(levels) => if !legend.contains_key(index) {
                Err("legend has no level for index "@ + index)
            } else {
                match decoded_number(number) {
                    Err(detail) => Err(detail),
                    Ok(bits) => Ok(levels.insert(legend[index], bits)),
                }
            },
        }
    }
}

/// `level` has the greatest probability, and is the first by name of those
/// that have it.
pub open spec fn is_most_likely(levels: Map<Seq<char>, u64>, level: Seq<char>) -> bool {
    &&& levels.contains_key(level)
    &&& forall|other: Seq<char>| #[trigger]
        levels.contains_key(other) && other != level ==> double::units(levels[other])
            < double::units(levels[level]) || (double::units(levels[other]) == double::units(
            levels[level],
        ) && text::text_before(level, other))
}

/// The most likely level.
pub open spec fn most_likely(levels: Map<Seq<char>, u64>) -> Seq<char> {
    choose|level: Seq<char>| is_most_likely(levels, level)
}

/// A malformed answer.
pub open spec fn malformed<T>(question: Seq<char>, detail: Seq<char>) -> Result<
    T,
    judge::JudgeErrorView,
> {
    Err(judge::JudgeErrorView::MalformedAnswer { question, detail })
}

/// The answer that a wire answer amounts to, or what is wrong with it.
pub open spec fn decoded_answer(question: Seq<char>, answer: WireAnswerView) -> Result<
    question::AnswerView,
    judge::JudgeErrorView,
> {
    match answer {
        WireAnswerView::Noul { noul } => match decoded_number(noul) {
            Err(detail) => malformed(question, detail),
            Ok(probability) => Ok(question::AnswerView::Noul { probability }),
        },
        WireAnswerView::Choice { choice, probabilities, confidence } => match decoded_numbers(
            ordered::sorted_entries::<String, NumberView>(probabilities),
        ) {
            Err(detail) => malformed(question, detail),
            Ok(probabilities) => match decoded_confidence(confidence) {
                Err(detail) => malformed(question, detail),
                Ok(confidence) => Ok(
                    question::AnswerView::Choice { choice, probabilities, confidence },
                ),
            },
        },
        WireAnswerView::Score { score, confidence, legend, probabilities } => match decoded_levels(
            legend,
            ordered::sorted_entries::<String, NumberView>(probabilities),
        ) {
            Err(detail) => malformed(question, detail),
            Ok(distribution) => if distribution == Map::<Seq<char>, u64>::empty() {
                malformed(question, "empty distribution"@)
            } else {
                match decoded_confidence(confidence) {
                    Err(detail) => malformed(question, detail),
                    Ok(confidence) => Ok(
                        question::AnswerView::Score {
                            level: most_likely(distribution),
                            score,
                            distribution,
                            confidence,
                        },
                    ),
                }
            },
        },
    }
}

/// The answers of `entries`, or what is wrong with the first that is malformed.
pub open spec fn decoded_entries(entries: Seq<(Seq<char>, WireAnswerView)>) -> Result<
    Map<Seq<char>, question::AnswerView>,
    judge::JudgeErrorView,
>
    decreases entries.len(),
{
    if entries.len() == 0 {
        Ok(Map::empty())
    } else {
        let (name, answer) = entries.last();
        match decoded_entries(entries.drop_last()) {
            Err(error) => Err(error),
            Ok(answers) => if name.len() == 0 {
                Err(judge::JudgeErrorView::MalformedReply { detail: "empty question name"@ })
            } else {
                match decoded_answer(name, answer) {
                    Err(error) => Err(error),
                    Ok(answer) => Ok(answers.insert(name, answer)),
                }
            },
        }
    }
}

/// The answers that a response amounts to, or what is wrong with the first, by
/// question name, that is malformed.
pub open spec fn decoded(response: ResponseView) -> Result<
    Map<Seq<char>, question::AnswerView>,
    judge::JudgeErrorView,
> {
    decoded_entries(ordered::sorted_entries::<String, WireAnswerView>(response.answers))
}

/// Validates a number, and words what is wrong with it.
fn decode_number(number: &Number) -> (decoded: Result<Probability, String>)
    ensures
        match decoded {
            Ok(probability) => decoded_number(number@) == Ok::<u64, Seq<char>>(probability@),
            Err(detail) => decoded_number(number@) == Err::<u64, Seq<char>>(detail@),
        },
{
    match Probability::new(number.value) {
        Ok(probability) => Ok(probability),
        Err(error) => Err(error.message(number.shown.as_str())),
    }
}

fn decode_confidence(number: &Option<Number>) -> (decoded: Result<Option<Probability>, String>)
    ensures
        match decoded {
            Ok(probability) => decoded_confidence(number_view(*number)) == Ok::<
                Option<u64>,
                Seq<char>,
            >(question::bits_of(probability)),
            Err(detail) => decoded_confidence(number_view(*number)) == Err::<
                Option<u64>,
                Seq<char>,
            >(detail@),
        },
{
    match number {
        None => Ok(None),
        Some(number) => match decode_number(number) {
            Ok(probability) => Ok(Some(probability)),
            Err(detail) => Err(detail),
        },
    }
}

fn decode_map(raw: &OrderedMap<String, Number>) -> (decoded: Result<
    OrderedMap<String, Probability>,
    String,
>)
    ensures
        match decoded {
            Ok(probabilities) => decoded_numbers(
                ordered::sorted_entries::<String, NumberView>(raw@),
            ) == Ok::<_, Seq<char>>(probabilities@),
            Err(detail) => decoded_numbers(ordered::sorted_entries::<String, NumberView>(raw@))
                == Err::<Map<Seq<char>, u64>, _>(detail@),
        },
{
    let ghost listed = ordered::sorted_entries::<String, NumberView>(raw@);
    let entries = raw.iter();
    let mut probabilities: OrderedMap<String, Probability> = OrderedMap::new();
    let mut i: usize = 0;
    while i < entries.len()
        invariant
            i <= entries@.len(),
            entries@.len() == listed.len(),
            listed == ordered::sorted_entries::<String, NumberView>(raw@),
            forall|j: int|
                0 <= j < entries@.len() ==> (#[trigger] entries@[j]).0@ == listed[j].0
                    && entries@[j].1@ == listed[j].1,
            decoded_numbers(listed.take(i as int)) == Ok::<_, Seq<char>>(probabilities@),
        decreases entries@.len() - i,
    {
        let (key, number) = entries[i];
        assert(listed.take(i + 1).drop_last() =~= listed.take(i as int));
        assert(listed.take(i + 1).last() == (key@, number@));
        match decode_number(number) {
            Ok(probability) => {
                probabilities.insert(key.clone(), probability);
            },
            Err(detail) => {
                proof {
                    lemma_first_bad_number(listed, i + 1);
                }
                return Err(detail);
            },
        }
        i = i + 1;
    }
    assert(listed.take(i as int) =~= listed);
    Ok(probabilities)
}

proof fn lemma_first_bad_number(entries: Seq<(Seq<char>, NumberView)>, n: int)
    requires
        0 <= n <= entries.len(),
        decoded_numbers(entries.take(n)) is Err,
    ensures
        decoded_numbers(entries) == decoded_numbers(entries.take(n)),
    decreases entries.len() - n,
{
    if n < entries.len() {
        assert(entries.take(n + 1).drop_last() =~= entries.take(n));
        lemma_first_bad_number(entries, n + 1);
    } else {
        assert(entries.take(n) =~= entries);
    }
}

/// Re-keys an index-keyed distribution by level name using the legend.
fn decode_score_distribution(
    legend: &OrderedMap<String, String>,
    raw: &OrderedMap<String, Number>,
) -> (decoded: Result<OrderedMap<String, Probability>, String>)
    ensures
        match decoded {
            Ok(levels) => decoded_levels(
                legend@,
                ordered::sorted_entries::<String, NumberView>(raw@),
            ) == Ok::<_, Seq<char>>(levels@),
            Err(detail) => decoded_levels(
                legend@,
                ordered::sorted_entries::<String, NumberView>(raw@),
            ) == Err::<Map<Seq<char>, u64>, _>(detail@),
        },
{
    let ghost listed = ordered::sorted_entries::<String, NumberView>(raw@);
    let entries = raw.iter();
    let mut levels: OrderedMap<String, Probability> = OrderedMap::new();
    let mut i: usize = 0;
    while i < entries.len()
        invariant
            i <= entries@.len(),
            entries@.len() == listed.len(),
            listed == ordered::sorted_entries::<String, NumberView>(raw@),
            forall|j: int|
                0 <= j < entries@.len() ==> (#[trigger] entries@[j]).0@ == listed[j].0
                    && entries@[j].1@ == listed[j].1,
            decoded_levels(legend@, listed.take(i as int)) == Ok::<_, Seq<char>>(levels@),
        decreases entries@.len() - i,
    {
        let (index, number) = entries[i];
        assert(listed.take(i + 1).drop_last() =~= listed.take(i as int));
        assert(listed.take(i + 1).last() == (index@, number@));
        let name = match legend.get(index) {
            Some(name) => name.clone(),
            None => {
                let mut detail = "legend has no level for index ".to_owned();
                detail.append(index.as_str());
                proof {
                    lemma_first_bad_level(legend@, listed, i + 1);
                }
                return Err(detail);
            },
        };
        match decode_number(number) {
            Ok(probability) => {
                levels.insert(name, probability);
            },
            Err(detail) => {
                proof {
                    lemma_first_bad_level(legend@, listed, i + 1);
                }
                return Err(detail);
            },
        }
        i = i + 1;
    }
    assert(listed.take(i as int) =~= listed);
    Ok(levels)
}

proof fn lemma_first_bad_level(
    legend: Map<Seq<char>, Seq<char>>,
    entries: Seq<(Seq<char>, NumberView)>,
    n: int,
)
    requires
        0 <= n <= entries.len(),
        decoded_levels(legend, entries.take(n)) is Err,
    ensures
        decoded_levels(legend, entries) == decoded_levels(legend, entries.take(n)),
    decreases entries.len() - n,
{
    if n < entries.len() {
        assert(entries.take(n + 1).drop_last() =~= entries.take(n));
        lemma_first_bad_level(legend, entries, n + 1);
    } else {
        assert(entries.take(n) =~= entries);
    }
}

/// The level with the highest probability; ties resolve to the first by name.
fn most_likely_level(distribution: &OrderedMap<String, Probability>) -> (level: Option<String>)
    ensures
        level is None <==> distribution@ == Map::<Seq<char>, u64>::empty(),
        level matches Some(level) ==> is_most_likely(distribution@, level@) && level@
            == most_likely(distribution@),
{
    if distribution.is_empty() {
        return None;
    }
    let ghost listed = ordered::sorted_entries::<String, u64>(distribution@);
    let entries = distribution.iter();
    let mut best: usize = 0;
    let mut i: usize = 1;
    while i < entries.len()
        invariant
            best < i <= entries@.len(),
            entries@.len() == listed.len(),
            forall|j: int|
                0 <= j < entries@.len() ==> (#[trigger] entries@[j]).0@ == listed[j].0
                    && entries@[j].1@ == listed[j].1,
            forall|j: int|
                0 <= j < i ==> double::units((#[trigger] listed[j]).1) <= double::units(
                    listed[best as int].1,
                ),
            forall|j: int|
                0 <= j < best ==> double::units((#[trigger] listed[j]).1) < double::units(
                    listed[best as int].1,
                ),
        decreases entries@.len() - i,
    {
        let probability: &Probability = entries[i].1;
        let leading: &Probability = entries[best].1;
        if !leading.at_least(*probability) {
            best = i;
        }
        i = i + 1;
    }
    let level = entries[best].0.clone();
    proof {
        lemma_first_place_wins(distribution@, listed, best as int);
    }
    Some(level)
}

proof fn lemma_first_place_wins(
    levels: Map<Seq<char>, u64>,
    listed: Seq<(Seq<char>, u64)>,
    best: int,
)
    requires
        ordered::ascending::<String, u64>(listed),
        ordered::dictionary(listed) == levels,
        0 <= best < listed.len(),
        forall|j: int|
            0 <= j < listed.len() ==> double::units((#[trigger] listed[j]).1) <= double::units(
                listed[best].1,
            ),
        forall|j: int|
            0 <= j < best ==> double::units((#[trigger] listed[j]).1) < double::units(
                listed[best].1,
            ),
    ensures
        is_most_likely(levels, listed[best].0),
        listed[best].0 == most_likely(levels),
{
    let level = listed[best].0;
    ordered::lemma_position_unique::<String, u64>(listed, best);
    assert forall|other: Seq<char>| #[trigger]
        levels.contains_key(other) && other != level implies double::units(levels[other])
        < double::units(levels[level]) || (double::units(levels[other]) == double::units(
        levels[level],
    ) && text::text_before(level, other)) by {
        let j = choose|j: int| ordered::holds_at(listed, other, j);
        ordered::lemma_position_unique::<String, u64>(listed, j);
        if j > best {
            assert(text::text_before(listed[best].0, listed[j].0));
        }
    }
    assert(is_most_likely(levels, level));
    let chosen = most_likely(levels);
    assert(is_most_likely(levels, chosen));
    if chosen != level {
        assert(levels.contains_key(chosen) && levels.contains_key(level));
        text::lemma_text_before_irreflexive(level);
        if text::text_before(level, chosen) && text::text_before(chosen, level) {
            text::lemma_text_before_transitive(level, chosen, level);
        }
    }
}

fn decode_answer(question: &QuestionName, answer: &WireAnswer) -> (decoded: Result<
    Answer,
    JudgeError,
>)
    ensures
        match decoded {
            Ok(decoded) => decoded_answer(question@, answer@) == Ok::<_, judge::JudgeErrorView>(
                decoded@,
            ),
            Err(error) => decoded_answer(question@, answer@) == Err::<question::AnswerView, _>(
                error@,
            ),
        },
{
    match answer {
        WireAnswer::Noul { noul } => match decode_number(noul) {
            Ok(probability) => Ok(Answer::Noul { probability }),
            Err(detail) => Err(malformed_answer(question, detail)),
        },
        WireAnswer::Choice { choice, probabilities, confidence } => {
            let probabilities = match decode_map(probabilities) {
                Ok(probabilities) => probabilities,
                Err(detail) => {
                    return Err(malformed_answer(question, detail));
                },
            };
            match decode_confidence(confidence) {
                Ok(confidence) => Ok(
                    Answer::Choice { choice: choice.clone(), probabilities, confidence },
                ),
                Err(detail) => Err(malformed_answer(question, detail)),
            }
        },
        WireAnswer::Score { score, confidence, legend, probabilities } => {
            let distribution = match decode_score_distribution(legend, probabilities) {
                Ok(distribution) => distribution,
                Err(detail) => {
                    return Err(malformed_answer(question, detail));
                },
            };
            let level = match most_likely_level(&distribution) {
                Some(level) => level,
                None => {
                    return Err(malformed_answer(question, "empty distribution".to_owned()));
                },
            };
            match decode_confidence(confidence) {
                Ok(confidence) => Ok(
                    Answer::Score { level, score: *score, distribution, confidence },
                ),
                Err(detail) => Err(malformed_answer(question, detail)),
            }
        },
    }
}

fn malformed_answer(question: &QuestionName, detail: String) -> (error: JudgeError)
    ensures
        error@ == (judge::JudgeErrorView::MalformedAnswer { question: question@, detail: detail@ }),
{
    JudgeError::MalformedAnswer { question: question.clone(), detail }
}

/// Decodes a response into the crate vocabulary, validating every probability.
pub fn decode(response: Response) -> (decoded_answers: Result<AnswerSet, JudgeError>)
    ensures
        lifecycle::result_view(decoded_answers) == decoded(response@),
{
    let ghost listed = ordered::sorted_entries::<String, WireAnswerView>(response.answers@);
    let entries = response.answers.iter();
    let mut answers = AnswerSet::new();
    let mut i: usize = 0;
    while i < entries.len()
        invariant
            i <= entries@.len(),
            entries@.len() == listed.len(),
            listed == ordered::sorted_entries::<String, WireAnswerView>(response@.answers),
            forall|j: int|
                0 <= j < entries@.len() ==> (#[trigger] entries@[j]).0@ == listed[j].0
                    && entries@[j].1@ == listed[j].1,
            decoded_entries(listed.take(i as int)) == Ok::<_, judge::JudgeErrorView>(answers@),
        decreases entries@.len() - i,
    {
        let (name, answer) = entries[i];
        assert(listed.take(i + 1).drop_last() =~= listed.take(i as int));
        assert(listed.take(i + 1).last() == (name@, answer@));
        let question = match QuestionName::new(name.as_str()) {
            Ok(question) => question,
            Err(_) => {
                proof {
                    lemma_first_bad_entry(listed, i + 1);
                }
                return Err(JudgeError::MalformedReply { detail: "empty question name".to_owned() });
            },
        };
        match decode_answer(&question, answer) {
            Ok(answer) => answers.insert(question, answer),
            Err(error) => {
                proof {
                    lemma_first_bad_entry(listed, i + 1);
                }
                return Err(error);
            },
        }
        i = i + 1;
    }
    assert(listed.take(i as int) =~= listed);
    Ok(answers)
}

proof fn lemma_first_bad_entry(entries: Seq<(Seq<char>, WireAnswerView)>, n: int)
    requires
        0 <= n <= entries.len(),
        decoded_entries(entries.take(n)) is Err,
    ensures
        decoded_entries(entries) == decoded_entries(entries.take(n)),
    decreases entries.len() - n,
{
    if n < entries.len() {
        assert(entries.take(n + 1).drop_last() =~= entries.take(n));
        lemma_first_bad_entry(entries, n + 1);
    } else {
        assert(entries.take(n) =~= entries);
    }
}

/// Law: every answer of a response is in the result, decoded on its own, and
/// nothing else is, or the error names a question of the response. Only a
/// nameless question fails without a name.
pub proof fn law_decode_keeps_every_answer(response: ResponseView)
    requires
        ordered::listable::<String, WireAnswerView>(response.answers),
    ensures
        match decoded(response) {
            Ok(answers) => answers.dom() == response.answers.dom() && forall|name: Seq<char>|
                #[trigger]
                answers.contains_key(name) ==> decoded_answer(name, response.answers[name]) == Ok::<
                    _,
                    judge::JudgeErrorView,
                >(answers[name]),
            Err(judge::JudgeErrorView::MalformedAnswer { question, .. }) =>
            response.answers.contains_key(question),
            Err(judge::JudgeErrorView::MalformedReply { .. }) => response.answers.contains_key(
                Seq::empty(),
            ),
            Err(_) => false,
        },
{
    let entries = ordered::sorted_entries::<String, WireAnswerView>(response.answers);
    assert forall|i: int, j: int| 0 <= i < j < entries.len() implies (#[trigger] entries[i]).0 != (
    #[trigger] entries[j]).0 by {
        String::irreflexive(entries[i].0);
    }
    lemma_entries_kept(entries);
    match decoded(response) {
        Ok(answers) => {
            assert forall|name: Seq<char>| #[trigger]
                answers.contains_key(name) == response.answers.contains_key(name) by {
                if answers.contains_key(name) {
                    let i = choose|i: int| ordered::holds_at(entries, name, i);
                    ordered::lemma_position_unique::<String, WireAnswerView>(entries, i);
                }
                if response.answers.contains_key(name) {
                    let i = choose|i: int| ordered::holds_at(entries, name, i);
                    assert(answers.contains_key(entries[i].0));
                }
            }
            assert(answers.dom() =~= response.answers.dom());
            assert forall|name: Seq<char>| #[trigger]
                answers.contains_key(name) implies decoded_answer(name, response.answers[name])
                == Ok::<_, judge::JudgeErrorView>(answers[name]) by {
                let i = choose|i: int| ordered::holds_at(entries, name, i);
                ordered::lemma_position_unique::<String, WireAnswerView>(entries, i);
            }
        },
        Err(_) => {
            let i = choose|i: int|
                0 <= i < entries.len() && #[trigger] blamed(entries[i], decoded(response)->Err_0);
            ordered::lemma_position_unique::<String, WireAnswerView>(entries, i);
            assert(entries[i].0.len() == 0 ==> entries[i].0 =~= Seq::<char>::empty());
        },
    }
}

/// The error is about this answer.
spec fn blamed(entry: (Seq<char>, WireAnswerView), error: judge::JudgeErrorView) -> bool {
    match error {
        judge::JudgeErrorView::MalformedAnswer { question, .. } => question == entry.0,
        judge::JudgeErrorView::MalformedReply { .. } => entry.0.len() == 0,
        _ => false,
    }
}

proof fn lemma_entries_kept(entries: Seq<(Seq<char>, WireAnswerView)>)
    ensures
        match decoded_entries(entries) {
            Ok(answers) => {
                &&& forall|i: int|
                    0 <= i < entries.len() ==> answers.contains_key((#[trigger] entries[i]).0)
                &&& forall|name: Seq<char>| #[trigger]
                    answers.contains_key(name) ==> exists|i: int|
                        ordered::holds_at(entries, name, i)
                &&& ordered::distinct_keys(entries) ==> forall|i: int|
                    0 <= i < entries.len() ==> decoded_answer(
                        (#[trigger] entries[i]).0,
                        entries[i].1,
                    ) == Ok::<_, judge::JudgeErrorView>(answers[entries[i].0])
            },
            Err(error) => exists|i: int|
                0 <= i < entries.len() && #[trigger] blamed(entries[i], error),
        },
    decreases entries.len(),
{
    if entries.len() > 0 {
        let rest = entries.drop_last();
        let last = entries.len() - 1;
        lemma_entries_kept(rest);
        match decoded_entries(rest) {
            Err(error) => {
                let i = choose|i: int| 0 <= i < rest.len() && #[trigger] blamed(rest[i], error);
                assert(blamed(entries[i], error));
            },
            Ok(before) => match decoded_entries(entries) {
                Err(error) => {
                    assert(blamed(entries[last], error));
                },
                Ok(answers) => {
                    assert forall|i: int| 0 <= i < entries.len() implies answers.contains_key(
                        (#[trigger] entries[i]).0,
                    ) by {
                        if i < last {
                            assert(rest[i] == entries[i]);
                        }
                    }
                    assert forall|name: Seq<char>| #[trigger]
                        answers.contains_key(name) implies exists|i: int|
                        ordered::holds_at(entries, name, i) by {
                        if name == entries[last].0 {
                            assert(ordered::holds_at(entries, name, last));
                        } else {
                            assert(before.contains_key(name));
                            let i = choose|i: int| ordered::holds_at(rest, name, i);
                            assert(ordered::holds_at(entries, name, i));
                        }
                    }
                    assert forall|i: int|
                        0 <= i < entries.len() && ordered::distinct_keys(
                            entries,
                        ) implies decoded_answer((#[trigger] entries[i]).0, entries[i].1) == Ok::<
                        _,
                        judge::JudgeErrorView,
                    >(answers[entries[i].0]) by {
                        assert(ordered::distinct_keys(rest));
                        if i < last {
                            assert(rest[i] == entries[i]);
                            assert(entries[i].0 != entries[last].0);
                        }
                    }
                },
            },
        }
    }
}

/// `number` stands for a probability somewhere in the answer.
pub open spec fn claims(answer: WireAnswerView, number: NumberView) -> bool {
    match answer {
        WireAnswerView::Noul { noul } => number == noul,
        WireAnswerView::Choice { probabilities, confidence, .. } => probabilities.contains_value(
            number,
        ) || confidence == Some(number),
        WireAnswerView::Score { probabilities, confidence, .. } => probabilities.contains_value(
            number,
        ) || confidence == Some(number),
    }
}

/// Every probability of the answer lies in `[0, 1]`.
pub open spec fn valid_answer(answer: question::AnswerView) -> bool {
    match answer {
        question::AnswerView::Noul { probability } => double::in_unit_interval(probability),
        question::AnswerView::Choice { probabilities, confidence, .. } => valid_numbers(
            probabilities,
        ) && (confidence matches Some(bits) ==> double::in_unit_interval(bits)),
        question::AnswerView::Score { distribution, confidence, .. } => valid_numbers(
            distribution,
        ) && (confidence matches Some(bits) ==> double::in_unit_interval(bits)),
    }
}

/// Every number lies in `[0, 1]`.
pub open spec fn valid_numbers(numbers: Map<Seq<char>, u64>) -> bool {
    forall|name: Seq<char>| #[trigger]
        numbers.contains_key(name) ==> double::in_unit_interval(numbers[name])
}

/// The probabilities of the answer have a listing in order, as those of every
/// [`WireAnswer`] do.
pub open spec fn listed_answer(answer: WireAnswerView) -> bool {
    match answer {
        WireAnswerView::Noul { .. } => true,
        WireAnswerView::Choice { probabilities, .. } => ordered::listable::<String, NumberView>(
            probabilities,
        ),
        WireAnswerView::Score { probabilities, .. } => ordered::listable::<String, NumberView>(
            probabilities,
        ),
    }
}

proof fn lemma_numbers_valid(entries: Seq<(Seq<char>, NumberView)>)
    ensures
        decoded_numbers(entries) matches Ok(numbers) ==> valid_numbers(numbers) && forall|i: int|
            0 <= i < entries.len() ==> double::in_unit_interval((#[trigger] entries[i]).1.value),
    decreases entries.len(),
{
    if entries.len() > 0 {
        let rest = entries.drop_last();
        lemma_numbers_valid(rest);
        assert forall|i: int|
            0 <= i < entries.len() && decoded_numbers(
                entries,
            ) is Ok implies double::in_unit_interval((#[trigger] entries[i]).1.value) by {
            if i < rest.len() {
                assert(rest[i] == entries[i]);
            }
        }
    }
}

proof fn lemma_levels_valid(
    legend: Map<Seq<char>, Seq<char>>,
    entries: Seq<(Seq<char>, NumberView)>,
)
    ensures
        decoded_levels(legend, entries) matches Ok(levels) ==> valid_numbers(levels) && forall|i: int|
            0 <= i < entries.len() ==> double::in_unit_interval((#[trigger] entries[i]).1.value),
    decreases entries.len(),
{
    if entries.len() > 0 {
        let rest = entries.drop_last();
        lemma_levels_valid(legend, rest);
        assert forall|i: int|
            0 <= i < entries.len() && decoded_levels(
                legend,
                entries,
            ) is Ok implies double::in_unit_interval((#[trigger] entries[i]).1.value) by {
            if i < rest.len() {
                assert(rest[i] == entries[i]);
            }
        }
    }
}

proof fn lemma_listed_value(numbers: Map<Seq<char>, NumberView>, number: NumberView) -> (i: int)
    requires
        ordered::listable::<String, NumberView>(numbers),
        numbers.contains_value(number),
    ensures
        0 <= i < ordered::sorted_entries::<String, NumberView>(numbers).len(),
        ordered::sorted_entries::<String, NumberView>(numbers)[i].1 == number,
{
    let listed = ordered::sorted_entries::<String, NumberView>(numbers);
    let name = choose|name: Seq<char>| #[trigger]
        numbers.dom().contains(name) && numbers[name] == number;
    assert(ordered::dictionary(listed).contains_key(name));
    let i = choose|i: int| ordered::holds_at(listed, name, i);
    ordered::lemma_position_unique::<String, NumberView>(listed, i);
    i
}

/// Law: every probability of a decoded answer lies in `[0, 1]`.
pub proof fn law_decoded_probabilities_are_valid(question: Seq<char>, answer: WireAnswerView)
    ensures
        decoded_answer(question, answer) matches Ok(decoded) ==> valid_answer(decoded),
{
    match answer {
        WireAnswerView::Noul { .. } => {},
        WireAnswerView::Choice { probabilities, .. } => {
            lemma_numbers_valid(ordered::sorted_entries::<String, NumberView>(probabilities));
        },
        WireAnswerView::Score { legend, probabilities, .. } => {
            lemma_levels_valid(
                legend,
                ordered::sorted_entries::<String, NumberView>(probabilities),
            );
        },
    }
}

/// Law: a number outside `[0, 1]` anywhere in an answer surfaces as an error
/// that names the question, rather than a silent misroute.
pub proof fn law_bad_probabilities_are_named(
    question: Seq<char>,
    answer: WireAnswerView,
    bad: NumberView,
)
    requires
        listed_answer(answer),
        claims(answer, bad),
        !double::in_unit_interval(bad.value),
    ensures
        decoded_answer(question, answer) matches Err(
            judge::JudgeErrorView::MalformedAnswer { question: named, .. },
        ) && named == question,
{
    match answer {
        WireAnswerView::Noul { .. } => {},
        WireAnswerView::Choice { probabilities, .. } => {
            let entries = ordered::sorted_entries::<String, NumberView>(probabilities);
            lemma_numbers_valid(entries);
            if probabilities.contains_value(bad) {
                let i = lemma_listed_value(probabilities, bad);
                assert(!double::in_unit_interval(entries[i].1.value));
            }
        },
        WireAnswerView::Score { legend, probabilities, .. } => {
            let entries = ordered::sorted_entries::<String, NumberView>(probabilities);
            lemma_levels_valid(legend, entries);
            if probabilities.contains_value(bad) {
                let i = lemma_listed_value(probabilities, bad);
                assert(!double::in_unit_interval(entries[i].1.value));
            }
        },
    }
}

/// Law: the most likely level of a decoded score is one of its levels, and no
/// level is more probable.
pub proof fn law_score_names_its_most_likely_level(question: Seq<char>, answer: WireAnswerView)
    ensures
        decoded_answer(question, answer) matches Ok(question::AnswerView::Score {
            level,
            distribution,
            ..
        }) ==> is_most_likely(distribution, level),
{
    if let WireAnswerView::Score { legend, probabilities, .. } = answer {
        let entries = ordered::sorted_entries::<String, NumberView>(probabilities);
        if let Ok(distribution) = decoded_levels(legend, entries) {
            if distribution != Map::<Seq<char>, u64>::empty() {
                lemma_levels_listable(legend, entries);
                lemma_some_most_likely(distribution);
            }
        }
    }
}

proof fn lemma_levels_listable(
    legend: Map<Seq<char>, Seq<char>>,
    entries: Seq<(Seq<char>, NumberView)>,
)
    ensures
        decoded_levels(legend, entries) matches Ok(levels) ==> ordered::listable::<String, u64>(
            levels,
        ),
    decreases entries.len(),
{
    if entries.len() == 0 {
        ordered::lemma_collected_listable::<String, u64>(Seq::empty());
    } else {
        lemma_levels_listable(legend, entries.drop_last());
        if let Ok(levels) = decoded_levels(legend, entries.drop_last()) {
            let (index, number) = entries.last();
            let bits = probability::held_bits(number.value);
            ordered::lemma_insert_listable::<String, u64>(levels, (legend[index], bits));
        }
    }
}

proof fn lemma_some_most_likely(levels: Map<Seq<char>, u64>)
    requires
        ordered::listable::<String, u64>(levels),
        levels != Map::<Seq<char>, u64>::empty(),
    ensures
        is_most_likely(levels, most_likely(levels)),
{
    let listed = ordered::sorted_entries::<String, u64>(levels);
    if listed.len() == 0 {
        assert(ordered::dictionary(listed) =~= Map::<Seq<char>, u64>::empty());
    }
    let best = lemma_best(listed, listed.len() as int);
    lemma_first_place_wins(levels, listed, best);
}

proof fn lemma_best(listed: Seq<(Seq<char>, u64)>, n: int) -> (best: int)
    requires
        0 < n <= listed.len(),
    ensures
        0 <= best < n,
        forall|j: int|
            0 <= j < n ==> double::units((#[trigger] listed[j]).1) <= double::units(
                listed[best].1,
            ),
        forall|j: int|
            0 <= j < best ==> double::units((#[trigger] listed[j]).1) < double::units(
                listed[best].1,
            ),
    decreases n,
{
    if n == 1 {
        0
    } else {
        let before = lemma_best(listed, n - 1);
        if double::units(listed[n - 1].1) > double::units(listed[before].1) {
            n - 1
        } else {
            before
        }
    }
}

/// `bits` are those of the number on the wire; either zero is read as `0.0`.
pub open spec fn reads_as(bits: u64, number: NumberView) -> bool {
    if number.value == 0x8000_0000_0000_0000 {
        bits == 0
    } else {
        bits == number.value
    }
}

/// `read` is there exactly where `number` is, and is that number.
pub open spec fn reads_as_optional(read: Option<u64>, number: Option<NumberView>) -> bool {
    match (read, number) {
        (Some(bits), Some(number)) => reads_as(bits, number),
        (None, None) => true,
        _ => false,
    }
}

/// The fault of a number that is no probability, in words.
pub open spec fn number_fault(number: NumberView) -> Seq<char> {
    number.shown + " is not a probability: expected a number in [0, 1]"@
}

proof fn lemma_numbers_read(entries: Seq<(Seq<char>, NumberView)>)
    ensures
        match decoded_numbers(entries) {
            Ok(numbers) => {
                &&& forall|i: int|
                    0 <= i < entries.len() ==> double::in_unit_interval(
                        (#[trigger] entries[i]).1.value,
                    )
                &&& forall|i: int|
                    0 <= i < entries.len() && ordered::distinct_keys(entries)
                        ==> numbers.contains_key((#[trigger] entries[i]).0) && reads_as(
                        numbers[entries[i].0],
                        entries[i].1,
                    )
                &&& forall|name: Seq<char>| #[trigger]
                    numbers.contains_key(name) ==> exists|i: int|
                        ordered::holds_at(entries, name, i)
            },
            Err(detail) => exists|i: int|
                0 <= i < entries.len() && !double::in_unit_interval(
                    (#[trigger] entries[i]).1.value,
                ) && detail == number_fault(entries[i].1) && forall|j: int|
                    0 <= j < i ==> double::in_unit_interval((#[trigger] entries[j]).1.value),
        },
    decreases entries.len(),
{
    if entries.len() > 0 {
        let rest = entries.drop_last();
        let last = entries.len() - 1;
        lemma_numbers_read(rest);
        assert forall|j: int| 0 <= j < last implies #[trigger] entries[j] == rest[j] by {}
        match decoded_numbers(rest) {
            Err(detail) => {
                let i = choose|i: int|
                    0 <= i < rest.len() && !double::in_unit_interval((#[trigger] rest[i]).1.value)
                        && detail == number_fault(rest[i].1) && forall|j: int|
                        0 <= j < i ==> double::in_unit_interval((#[trigger] rest[j]).1.value);
                assert(entries[i] == rest[i]);
                assert forall|j: int| 0 <= j < i implies double::in_unit_interval(
                    (#[trigger] entries[j]).1.value,
                ) by {
                    assert(entries[j] == rest[j]);
                }
            },
            Ok(before) => match decoded_numbers(entries) {
                Err(_) => {
                    assert(!double::in_unit_interval(entries[last].1.value));
                },
                Ok(numbers) => {
                    assert forall|i: int|
                        0 <= i < entries.len() && ordered::distinct_keys(
                            entries,
                        ) implies numbers.contains_key((#[trigger] entries[i]).0) && reads_as(
                        numbers[entries[i].0],
                        entries[i].1,
                    ) by {
                        assert(ordered::distinct_keys(rest));
                        if i < last {
                            assert(rest[i] == entries[i]);
                            assert(entries[i].0 != entries[last].0);
                        }
                    }
                    assert forall|name: Seq<char>| #[trigger]
                        numbers.contains_key(name) implies exists|i: int|
                        ordered::holds_at(entries, name, i) by {
                        if name == entries[last].0 {
                            assert(ordered::holds_at(entries, name, last));
                        } else {
                            assert(before.contains_key(name));
                            let i = choose|i: int| ordered::holds_at(rest, name, i);
                            assert(ordered::holds_at(entries, name, i));
                        }
                    }
                },
            },
        }
    }
}

/// The entry has a level and is a probability.
pub open spec fn rated(
    legend: Map<Seq<char>, Seq<char>>,
    entry: (Seq<char>, NumberView),
) -> bool {
    legend.contains_key(entry.0) && double::in_unit_interval(entry.1.value)
}

/// The fault of an entry that has no level or is no probability, in words.
pub open spec fn level_fault(
    legend: Map<Seq<char>, Seq<char>>,
    entry: (Seq<char>, NumberView),
) -> Seq<char> {
    if legend.contains_key(entry.0) {
        number_fault(entry.1)
    } else {
        "legend has no level for index "@ + entry.0
    }
}

proof fn lemma_levels_read(
    legend: Map<Seq<char>, Seq<char>>,
    entries: Seq<(Seq<char>, NumberView)>,
)
    ensures
        match decoded_levels(legend, entries) {
            Ok(levels) => {
                &&& forall|i: int| 0 <= i < entries.len() ==> rated(legend, #[trigger] entries[i])
                &&& forall|i: int|
                    0 <= i < entries.len() ==> levels.contains_key(
                        legend[(#[trigger] entries[i]).0],
                    )
                &&& forall|i: int|
                    0 <= i < entries.len() && (forall|j: int|
                        i < j < entries.len() ==> legend[(#[trigger] entries[j]).0]
                            != legend[entries[i].0]) ==> reads_as(
                        levels[legend[(#[trigger] entries[i]).0]],
                        entries[i].1,
                    )
                &&& forall|level: Seq<char>| #[trigger]
                    levels.contains_key(level) ==> exists|i: int|
                        0 <= i < entries.len() && legend[(#[trigger] entries[i]).0] == level
            },
            Err(detail) => exists|i: int|
                0 <= i < entries.len() && !rated(legend, #[trigger] entries[i]) && detail
                    == level_fault(legend, entries[i]) && forall|j: int|
                    0 <= j < i ==> rated(legend, #[trigger] entries[j]),
        },
    decreases entries.len(),
{
    if entries.len() > 0 {
        let rest = entries.drop_last();
        let last = entries.len() - 1;
        lemma_levels_read(legend, rest);
        assert forall|j: int| 0 <= j < last implies #[trigger] entries[j] == rest[j] by {}
        match decoded_levels(legend, rest) {
            Err(detail) => {
                let i = choose|i: int|
                    0 <= i < rest.len() && !rated(legend, #[trigger] rest[i]) && detail
                        == level_fault(legend, rest[i]) && forall|j: int|
                        0 <= j < i ==> rated(legend, #[trigger] rest[j]);
                assert(entries[i] == rest[i]);
                assert forall|j: int| 0 <= j < i implies rated(legend, #[trigger] entries[j]) by {
                    assert(entries[j] == rest[j]);
                }
            },
            Ok(before) => match decoded_levels(legend, entries) {
                Err(_) => {
                    assert(!rated(legend, entries[last]));
                },
                Ok(levels) => {
                    assert forall|i: int|
                        0 <= i < entries.len() && (forall|j: int|
                            i < j < entries.len() ==> legend[(#[trigger] entries[j]).0]
                                != legend[entries[i].0]) implies reads_as(
                        levels[legend[(#[trigger] entries[i]).0]],
                        entries[i].1,
                    ) by {
                        if i < last {
                            assert(rest[i] == entries[i]);
                            assert(legend[entries[last].0] != legend[entries[i].0]);
                            assert forall|j: int| i < j < rest.len() implies legend[(
                            #[trigger] rest[j]).0] != legend[rest[i].0] by {
                                assert(rest[j] == entries[j]);
                            }
                        }
                    }
                    assert forall|i: int| 0 <= i < entries.len() implies levels.contains_key(
                        legend[(#[trigger] entries[i]).0],
                    ) by {
                        if i < last {
                            assert(rest[i] == entries[i]);
                        }
                    }
                    assert forall|level: Seq<char>| #[trigger]
                        levels.contains_key(level) implies exists|i: int|
                        0 <= i < entries.len() && legend[(#[trigger] entries[i]).0] == level by {
                        if level == legend[entries[last].0] {
                        } else {
                            assert(before.contains_key(level));
                            let i = choose|i: int|
                                0 <= i < rest.len() && legend[(#[trigger] rest[i]).0] == level;
                            assert(entries[i] == rest[i]);
                        }
                    }
                },
            },
        }
    }
}

proof fn lemma_listed_once(numbers: Map<Seq<char>, NumberView>)
    requires
        ordered::listable::<String, NumberView>(numbers),
    ensures
        ordered::distinct_keys(ordered::sorted_entries::<String, NumberView>(numbers)),
{
    let entries = ordered::sorted_entries::<String, NumberView>(numbers);
    assert forall|i: int, j: int| 0 <= i < j < entries.len() implies (#[trigger] entries[i]).0 != (
    #[trigger] entries[j]).0 by {
        String::irreflexive(entries[i].0);
    }
}

/// Law: a yes/no answer is read as the number that it holds, and is refused in
/// its own words where that is no probability.
pub proof fn law_a_yes_no_answer_is_read_as_given(question: Seq<char>, noul: NumberView)
    ensures
        match decoded_answer(question, WireAnswerView::Noul { noul }) {
            Ok(decoded) => double::in_unit_interval(noul.value) && (
            decoded matches question::AnswerView::Noul { probability } && reads_as(
                probability,
                noul,
            )),
            Err(error) => !double::in_unit_interval(noul.value) && error == (
            judge::JudgeErrorView::MalformedAnswer { question, detail: number_fault(noul) }),
        },
{
}

/// Law: a choice is read option by option, however many there are. It has
/// exactly the options of the wire answer, each with the probability that the
/// wire answer gives it, and the same choice and confidence. It is refused
/// exactly where one of the numbers is no probability, in the words of the first
/// such option by name, or else of the confidence.
pub proof fn law_a_choice_is_read_option_by_option(
    question: Seq<char>,
    choice: Seq<char>,
    odds: Map<Seq<char>, NumberView>,
    confidence: Option<NumberView>,
)
    requires
        ordered::listable::<String, NumberView>(odds),
    ensures
        match decoded_answer(
            question,
            WireAnswerView::Choice { choice, probabilities: odds, confidence },
        ) {
            Ok(decoded) => {
                &&& decoded is Choice
                &&& decoded->choice == choice
                &&& decoded->Choice_probabilities.dom() == odds.dom()
                &&& forall|name: Seq<char>| #[trigger]
                    odds.contains_key(name) ==> double::in_unit_interval(odds[name].value)
                        && reads_as(decoded->Choice_probabilities[name], odds[name])
                &&& reads_as_optional(decoded->Choice_confidence, confidence)
                &&& confidence matches Some(number) ==> double::in_unit_interval(number.value)
            },
            Err(error) => error matches judge::JudgeErrorView::MalformedAnswer {
                question: named,
                detail,
            } && named == question && ((exists|name: Seq<char>|
                {
                    &&& #[trigger] odds.contains_key(name)
                    &&& !double::in_unit_interval(odds[name].value)
                    &&& detail == number_fault(odds[name])
                    &&& forall|other: Seq<char>| #[trigger]
                        odds.contains_key(other) && text::text_before(other, name)
                            ==> double::in_unit_interval(odds[other].value)
                }) || ((forall|name: Seq<char>| #[trigger]
                odds.contains_key(name) ==> double::in_unit_interval(odds[name].value)) && (
            confidence matches Some(number) && !double::in_unit_interval(number.value) && detail
                == number_fault(number)))),
        },
{
    let entries = ordered::sorted_entries::<String, NumberView>(odds);
    lemma_listed_once(odds);
    lemma_numbers_read(entries);
    ordered::law_listing_is_ascending_and_complete::<String, NumberView>(odds);
    match decoded_numbers(entries) {
        Ok(numbers) => {
            assert forall|name: Seq<char>| #[trigger]
                odds.contains_key(name) implies double::in_unit_interval(odds[name].value)
                && numbers.contains_key(name) && reads_as(numbers[name], odds[name]) by {
                let i = choose|i: int| 0 <= i < entries.len() && (#[trigger] entries[i]).0 == name;
                assert(odds[entries[i].0] == entries[i].1);
            }
            assert forall|name: Seq<char>| #[trigger]
                numbers.contains_key(name) implies odds.contains_key(name) by {
                let i = choose|i: int| ordered::holds_at(entries, name, i);
                assert(odds.contains_key(entries[i].0));
            }
            assert(numbers.dom() =~= odds.dom());
        },
        Err(detail) => {
            let i = choose|i: int|
                0 <= i < entries.len() && !double::in_unit_interval(
                    (#[trigger] entries[i]).1.value,
                ) && detail == number_fault(entries[i].1) && forall|j: int|
                    0 <= j < i ==> double::in_unit_interval((#[trigger] entries[j]).1.value);
            let name = entries[i].0;
            assert(odds.contains_key(name) && odds[name] == entries[i].1);
            assert forall|other: Seq<char>| #[trigger]
                odds.contains_key(other) && text::text_before(
                    other,
                    name,
                ) implies double::in_unit_interval(odds[other].value) by {
                let j = choose|j: int| 0 <= j < entries.len() && (#[trigger] entries[j]).0 == other;
                assert(odds[entries[j].0] == entries[j].1);
                lemma_earlier::<NumberView>(entries, j, i);
            }
        },
    }
}

proof fn lemma_earlier<B>(entries: Seq<(Seq<char>, B)>, j: int, i: int)
    requires
        ordered::ascending::<String, B>(entries),
        0 <= i < entries.len(),
        0 <= j < entries.len(),
        text::text_before(entries[j].0, entries[i].0),
    ensures
        j < i,
{
    String::irreflexive(entries[i].0);
    if i < j {
        assert(String::before(entries[i].0, entries[j].0));
        String::transitive(entries[i].0, entries[j].0, entries[i].0);
    }
}

/// No entry after `index`, in text order, is for the same level.
pub open spec fn last_of_its_level(
    legend: Map<Seq<char>, Seq<char>>,
    odds: Map<Seq<char>, NumberView>,
    index: Seq<char>,
) -> bool {
    forall|other: Seq<char>| #[trigger]
        odds.contains_key(other) && text::text_before(index, other) ==> legend[other]
            != legend[index]
}

/// Law: a score is read level by level, however many there are. Every index of
/// the wire answer has a level in the legend, and that level the probability
/// that the index gives it; of two indices for one level the later counts, in
/// text order. Nothing else is in the distribution. The score and the confidence
/// are the wire answer's, and the level is the likeliest, the first by name of
/// equals.
pub proof fn law_a_score_is_read_level_by_level(
    question: Seq<char>,
    score: u64,
    confidence: Option<NumberView>,
    legend: Map<Seq<char>, Seq<char>>,
    odds: Map<Seq<char>, NumberView>,
    decoded: question::AnswerView,
)
    requires
        ordered::listable::<String, NumberView>(odds),
        decoded_answer(
            question,
            WireAnswerView::Score { score, confidence, legend, probabilities: odds },
        ) == Ok::<_, judge::JudgeErrorView>(decoded),
    ensures
        decoded is Score,
        decoded->score == score,
        reads_as_optional(decoded->Score_confidence, confidence),
        forall|index: Seq<char>| #[trigger]
            odds.contains_key(index) ==> legend.contains_key(index)
                && decoded->distribution.contains_key(legend[index]) && (last_of_its_level(
                legend,
                odds,
                index,
            ) ==> reads_as(decoded->distribution[legend[index]], odds[index])),
        forall|level: Seq<char>| #[trigger]
            decoded->distribution.contains_key(level) ==> exists|index: Seq<char>| #[trigger]
                odds.contains_key(index) && legend[index] == level,
        decoded->distribution.contains_key(decoded->level),
        forall|level: Seq<char>| #[trigger]
            decoded->distribution.contains_key(level) ==> double::units(
                decoded->distribution[level],
            ) <= double::units(decoded->distribution[decoded->level]) && (double::units(
                decoded->distribution[level],
            ) == double::units(decoded->distribution[decoded->level]) ==> level == decoded->level
                || text::text_before(decoded->level, level)),
{
    let answer = WireAnswerView::Score { score, confidence, legend, probabilities: odds };
    let entries = ordered::sorted_entries::<String, NumberView>(odds);
    lemma_levels_read(legend, entries);
    ordered::law_listing_is_ascending_and_complete::<String, NumberView>(odds);
    law_score_names_its_most_likely_level(question, answer);
    let levels = decoded_levels(legend, entries)->Ok_0;
    assert forall|index: Seq<char>| #[trigger] odds.contains_key(index) implies legend.contains_key(
        index,
    ) && levels.contains_key(legend[index]) && (last_of_its_level(legend, odds, index) ==> reads_as(
        levels[legend[index]],
        odds[index],
    )) by {
        let i = choose|i: int| 0 <= i < entries.len() && (#[trigger] entries[i]).0 == index;
        assert(odds[entries[i].0] == entries[i].1);
        assert(rated(legend, entries[i]));
        if last_of_its_level(legend, odds, index) {
            assert forall|j: int| i < j < entries.len() implies legend[(#[trigger] entries[j]).0]
                != legend[entries[i].0] by {
                assert(String::before(entries[i].0, entries[j].0));
                assert(odds.contains_key(entries[j].0));
            }
        }
    }
    assert forall|level: Seq<char>| #[trigger] levels.contains_key(level) implies exists|
        index: Seq<char>,
    | #[trigger]
        odds.contains_key(index) && legend[index] == level by {
        let i = choose|i: int| 0 <= i < entries.len() && legend[(#[trigger] entries[i]).0] == level;
        assert(odds.contains_key(entries[i].0));
    }
}

/// Law: a score is refused exactly where an index has no level in the legend, a
/// number is no probability, or there is no index at all; in the words of the
/// first faulty index, in text order, or else of the confidence.
pub proof fn law_a_faulty_score_is_refused(
    question: Seq<char>,
    score: u64,
    confidence: Option<NumberView>,
    legend: Map<Seq<char>, Seq<char>>,
    odds: Map<Seq<char>, NumberView>,
)
    requires
        ordered::listable::<String, NumberView>(odds),
    ensures
        match decoded_answer(
            question,
            WireAnswerView::Score { score, confidence, legend, probabilities: odds },
        ) {
            Ok(_) => {
                &&& exists|index: Seq<char>| #[trigger] odds.contains_key(index)
                &&& forall|index: Seq<char>| #[trigger]
                    odds.contains_key(index) ==> rated(legend, (index, odds[index]))
                &&& confidence matches Some(number) ==> double::in_unit_interval(number.value)
            },
            Err(error) => error matches judge::JudgeErrorView::MalformedAnswer {
                question: named,
                detail,
            } && named == question && ((exists|index: Seq<char>|
                {
                    &&& #[trigger] odds.contains_key(index)
                    &&& !rated(legend, (index, odds[index]))
                    &&& detail == level_fault(legend, (index, odds[index]))
                    &&& forall|other: Seq<char>| #[trigger]
                        odds.contains_key(other) && text::text_before(other, index) ==> rated(
                            legend,
                            (other, odds[other]),
                        )
                }) || (odds == Map::<Seq<char>, NumberView>::empty() && detail
                == "empty distribution"@) || ((forall|index: Seq<char>| #[trigger]
                odds.contains_key(index) ==> rated(legend, (index, odds[index]))) && (
            confidence matches Some(number) && !double::in_unit_interval(number.value) && detail
                == number_fault(number)))),
        },
{
    let entries = ordered::sorted_entries::<String, NumberView>(odds);
    lemma_levels_read(legend, entries);
    ordered::law_listing_is_ascending_and_complete::<String, NumberView>(odds);
    match decoded_levels(legend, entries) {
        Ok(levels) => {
            assert forall|index: Seq<char>| #[trigger] odds.contains_key(index) implies rated(
                legend,
                (index, odds[index]),
            ) by {
                let i = choose|i: int| 0 <= i < entries.len() && (#[trigger] entries[i]).0 == index;
                assert(odds[entries[i].0] == entries[i].1);
                assert(rated(legend, entries[i]));
            }
            if levels == Map::<Seq<char>, u64>::empty() {
                assert forall|index: Seq<char>| !(#[trigger] odds.contains_key(index)) by {
                    if odds.contains_key(index) {
                        let i = choose|i: int|
                            0 <= i < entries.len() && (#[trigger] entries[i]).0 == index;
                        assert(levels.contains_key(legend[entries[i].0]));
                    }
                }
                assert(odds =~= Map::<Seq<char>, NumberView>::empty());
            } else {
                if entries.len() == 0 {
                    assert forall|level: Seq<char>| !(#[trigger] levels.contains_key(level)) by {}
                    assert(levels =~= Map::<Seq<char>, u64>::empty());
                }
                assert(odds.contains_key(entries[0].0));
            }
        },
        Err(detail) => {
            let i = choose|i: int|
                0 <= i < entries.len() && !rated(legend, #[trigger] entries[i]) && detail
                    == level_fault(legend, entries[i]) && forall|j: int|
                    0 <= j < i ==> rated(legend, #[trigger] entries[j]);
            let index = entries[i].0;
            assert(odds.contains_key(index) && odds[index] == entries[i].1);
            assert forall|other: Seq<char>| #[trigger]
                odds.contains_key(other) && text::text_before(other, index) implies rated(
                legend,
                (other, odds[other]),
            ) by {
                let j = choose|j: int| 0 <= j < entries.len() && (#[trigger] entries[j]).0 == other;
                assert(odds[entries[j].0] == entries[j].1);
                lemma_earlier::<NumberView>(entries, j, i);
                assert(rated(legend, entries[j]));
            }
        },
    }
}

/// The answer has a name and can be read.
pub open spec fn readable(name: Seq<char>, answer: WireAnswerView) -> bool {
    name.len() > 0 && decoded_answer(name, answer) is Ok
}

proof fn lemma_entries_read(entries: Seq<(Seq<char>, WireAnswerView)>)
    ensures
        match decoded_entries(entries) {
            Ok(_) => forall|i: int|
                0 <= i < entries.len() ==> readable((#[trigger] entries[i]).0, entries[i].1),
            Err(error) => exists|i: int|
                {
                    &&& 0 <= i < entries.len()
                    &&& !readable((#[trigger] entries[i]).0, entries[i].1)
                    &&& error == if entries[i].0.len() == 0 {
                        judge::JudgeErrorView::MalformedReply { detail: "empty question name"@ }
                    } else {
                        decoded_answer(entries[i].0, entries[i].1)->Err_0
                    }
                    &&& forall|j: int|
                        0 <= j < i ==> readable((#[trigger] entries[j]).0, entries[j].1)
                },
        },
    decreases entries.len(),
{
    if entries.len() > 0 {
        let rest = entries.drop_last();
        let last = entries.len() - 1;
        lemma_entries_read(rest);
        assert forall|j: int| 0 <= j < last implies #[trigger] entries[j] == rest[j] by {}
        match decoded_entries(rest) {
            Err(error) => {
                let i = choose|i: int|
                    {
                        &&& 0 <= i < rest.len()
                        &&& !readable((#[trigger] rest[i]).0, rest[i].1)
                        &&& error == if rest[i].0.len() == 0 {
                            judge::JudgeErrorView::MalformedReply {
                                detail: "empty question name"@,
                            }
                        } else {
                            decoded_answer(rest[i].0, rest[i].1)->Err_0
                        }
                        &&& forall|j: int|
                            0 <= j < i ==> readable((#[trigger] rest[j]).0, rest[j].1)
                    };
                assert(entries[i] == rest[i]);
                assert forall|j: int| 0 <= j < i implies readable(
                    (#[trigger] entries[j]).0,
                    entries[j].1,
                ) by {
                    assert(entries[j] == rest[j]);
                }
            },
            Ok(_) => {
                assert forall|j: int| 0 <= j < last implies readable(
                    (#[trigger] entries[j]).0,
                    entries[j].1,
                ) by {
                    assert(entries[j] == rest[j]);
                }
                assert(decoded_entries(entries) is Err ==> !readable(
                    entries[last].0,
                    entries[last].1,
                ));
            },
        }
    }
}

/// Law: a response is refused exactly where one of its answers has no name or
/// cannot be read, with the fault of the first such answer by name.
pub proof fn law_the_first_faulty_answer_is_reported(response: ResponseView)
    requires
        ordered::listable::<String, WireAnswerView>(response.answers),
    ensures
        match decoded(response) {
            Ok(_) => forall|name: Seq<char>| #[trigger]
                response.answers.contains_key(name) ==> readable(name, response.answers[name]),
            Err(error) => exists|name: Seq<char>|
                {
                    &&& #[trigger] response.answers.contains_key(name)
                    &&& !readable(name, response.answers[name])
                    &&& error == if name.len() == 0 {
                        judge::JudgeErrorView::MalformedReply { detail: "empty question name"@ }
                    } else {
                        decoded_answer(name, response.answers[name])->Err_0
                    }
                    &&& forall|other: Seq<char>| #[trigger]
                        response.answers.contains_key(other) && text::text_before(other, name)
                            ==> readable(other, response.answers[other])
                },
        },
{
    let entries = ordered::sorted_entries::<String, WireAnswerView>(response.answers);
    lemma_entries_read(entries);
    ordered::law_listing_is_ascending_and_complete::<String, WireAnswerView>(response.answers);
    match decoded(response) {
        Ok(_) => {
            assert forall|name: Seq<char>| #[trigger]
                response.answers.contains_key(name) implies readable(
                name,
                response.answers[name],
            ) by {
                let i = choose|i: int| 0 <= i < entries.len() && (#[trigger] entries[i]).0 == name;
                assert(response.answers[entries[i].0] == entries[i].1);
            }
        },
        Err(error) => {
            let i = choose|i: int|
                {
                    &&& 0 <= i < entries.len()
                    &&& !readable((#[trigger] entries[i]).0, entries[i].1)
                    &&& error == if entries[i].0.len() == 0 {
                        judge::JudgeErrorView::MalformedReply { detail: "empty question name"@ }
                    } else {
                        decoded_answer(entries[i].0, entries[i].1)->Err_0
                    }
                    &&& forall|j: int|
                        0 <= j < i ==> readable((#[trigger] entries[j]).0, entries[j].1)
                };
            let name = entries[i].0;
            assert(response.answers.contains_key(name) && response.answers[name] == entries[i].1);
            assert forall|other: Seq<char>| #[trigger]
                response.answers.contains_key(other) && text::text_before(
                    other,
                    name,
                ) implies readable(other, response.answers[other]) by {
                let j = choose|j: int| 0 <= j < entries.len() && (#[trigger] entries[j]).0 == other;
                assert(response.answers[entries[j].0] == entries[j].1);
                lemma_earlier::<WireAnswerView>(entries, j, i);
            }
        },
    }
}

/// Law: an optional number on the wire is there where it is, as it is.
pub proof fn law_an_optional_number_is_taken_as_it_is(number: Number)
    ensures
        number_view(Some(number)) == Some(number@),
        number_view(None) is None,
{
}

} // verus!
