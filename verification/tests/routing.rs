//! Plans, verdicts and routing errors.

use jevbus::routing::{decide, exclusive_name, plan, EXCLUSIVE_QUESTION};
use jevbus::{
    Answer, AnswerKind, AnswerSet, Disposition, Double, OrderedMap, Policy, Probability, Question,
    QuestionName, QuestionSet, RoutingError, Subscription, SubscriptionId, Thresholds,
};

fn p(v: f64) -> Probability {
    Probability::new(Double::from_bits(v.to_bits())).unwrap_or(Probability::zero())
}

fn sub(id: &str) -> Subscription {
    Subscription::new(
        SubscriptionId::new(id).unwrap(),
        &format!("about {id}"),
        Thresholds::new(p(0.7), p(0.4)).unwrap_or(Thresholds::deliver_only(p(0.7))),
    )
}

fn noul(id: &str, v: f64) -> (QuestionName, Answer) {
    (
        sub(id).id().question_name().clone(),
        Answer::Noul { probability: p(v) },
    )
}

fn choice(chosen: &str, options: &[(&str, f64)]) -> Answer {
    let mut probabilities = OrderedMap::new();
    for (name, v) in options {
        probabilities.insert((*name).to_owned(), p(*v));
    }
    Answer::Choice {
        choice: chosen.to_owned(),
        probabilities,
        confidence: None,
    }
}

fn dispositions(subs: &[Subscription], answers: &AnswerSet, policy: Policy) -> Vec<Disposition> {
    decide(policy, subs, answers)
        .unwrap()
        .iter()
        .map(|v| v.disposition)
        .collect()
}

#[test]
fn exclusive_question_literal_is_non_empty() {
    assert!(QuestionName::new(EXCLUSIVE_QUESTION).is_ok());
}

#[test]
fn exclusive_question_name_is_stable() {
    assert_eq!(exclusive_name().as_str(), "route");
}

#[test]
fn fan_out_plan_asks_one_noul_per_subscription_named_by_id() {
    let subs = [sub("a"), sub("b")];
    let set = plan(Policy::FanOut, &subs);
    assert_eq!(set.len(), 2);
    let names: Vec<&str> = set.iter().into_iter().map(|(n, _)| n.as_str()).collect();
    assert_eq!(names, ["a", "b"]);
    assert!(set
        .iter()
        .into_iter()
        .all(|(_, q)| matches!(q, Question::Noul { .. })));
}

#[test]
fn fan_out_decide_maps_each_probability_through_the_thresholds() {
    let subs = [sub("a"), sub("b"), sub("c")];
    let answers = AnswerSet::from_iter(vec![noul("a", 0.9), noul("b", 0.5), noul("c", 0.1)]);
    let verdicts = decide(Policy::FanOut, &subs, &answers).unwrap_or_default();
    let dispositions: Vec<Disposition> = verdicts.iter().map(|v| v.disposition).collect();
    assert_eq!(
        dispositions,
        [Disposition::Deliver, Disposition::Review, Disposition::Drop]
    );
}

#[test]
fn fan_out_decide_reports_missing_and_mistyped_answers() {
    let subs = [sub("a")];
    assert!(matches!(
        decide(Policy::FanOut, &subs, &AnswerSet::new()),
        Err(RoutingError::MissingAnswer { .. })
    ));
    let wrong = AnswerSet::from_iter(vec![(
        sub("a").id().question_name().clone(),
        Answer::Choice {
            choice: "x".into(),
            probabilities: OrderedMap::new(),
            confidence: None,
        },
    )]);
    assert!(matches!(
        decide(Policy::FanOut, &subs, &wrong),
        Err(RoutingError::WrongAnswerKind { .. })
    ));
}

#[test]
fn exclusive_plan_asks_one_choice_over_all_subscriptions() {
    let subs = [sub("a"), sub("b")];
    let set = plan(Policy::Exclusive, &subs);
    assert_eq!(set.len(), 1);
    let option_count = match set.iter().first() {
        Some((name, Question::Choice { criteria, .. }))
            if name.as_str() == EXCLUSIVE_QUESTION =>
        {
            criteria.len()
        }
        _ => 0,
    };
    assert_eq!(
        option_count, 2,
        "one choice question with one option per subscription"
    );
    assert!(plan(Policy::Exclusive, &[]).is_empty());
    assert!(plan(Policy::FanOut, &[]).is_empty());
}

#[test]
fn exclusive_decide_delivers_only_the_argmax_and_drops_the_rest() {
    let subs = [sub("a"), sub("b")];
    let answers = AnswerSet::from_iter(vec![(
        exclusive_name(),
        choice("b", &[("a", 0.3), ("b", 0.8)]),
    )]);
    let verdicts = decide(Policy::Exclusive, &subs, &answers).unwrap_or_default();
    let dispositions: Vec<Disposition> = verdicts.iter().map(|v| v.disposition).collect();
    assert_eq!(dispositions, [Disposition::Drop, Disposition::Deliver]);
}

#[test]
fn exclusive_decide_sends_a_low_confidence_winner_to_review_or_drop() {
    let subs = [sub("a"), sub("b")];
    let answers = AnswerSet::from_iter(vec![(
        exclusive_name(),
        choice("a", &[("a", 0.5), ("b", 0.2)]),
    )]);
    let verdicts = decide(Policy::Exclusive, &subs, &answers).unwrap_or_default();
    let dispositions: Vec<Disposition> = verdicts.iter().map(|v| v.disposition).collect();
    assert_eq!(dispositions, [Disposition::Review, Disposition::Drop]);
}

#[test]
fn exclusive_ties_go_to_the_earliest_registration() {
    let subs = [sub("z"), sub("a")];
    let answers = AnswerSet::from_iter(vec![(
        exclusive_name(),
        choice("a", &[("a", 0.8), ("z", 0.8)]),
    )]);
    assert_eq!(
        dispositions(&subs, &answers, Policy::Exclusive),
        [Disposition::Deliver, Disposition::Drop]
    );
    let all_zero = AnswerSet::from_iter(vec![(
        exclusive_name(),
        choice("a", &[("a", 0.0), ("z", -0.0)]),
    )]);
    assert_eq!(
        dispositions(&subs, &all_zero, Policy::Exclusive),
        [Disposition::Drop, Disposition::Drop]
    );
}

#[test]
fn exclusive_decide_reports_each_error() {
    let subs = [sub("a"), sub("b")];
    let missing = decide(Policy::Exclusive, &subs, &AnswerSet::new()).unwrap_err();
    assert_eq!(
        missing,
        RoutingError::MissingAnswer {
            question: exclusive_name()
        }
    );
    assert_eq!(missing.message(), "no answer to question route");
    let wrong = AnswerSet::from_iter(vec![(
        exclusive_name(),
        Answer::Noul {
            probability: p(0.5),
        },
    )]);
    let wrong = decide(Policy::Exclusive, &subs, &wrong).unwrap_err();
    assert_eq!(
        wrong,
        RoutingError::WrongAnswerKind {
            question: exclusive_name(),
            expected: AnswerKind::Choice
        }
    );
    assert_eq!(wrong.message(), "answer to route is not a choice answer");
    let partial = AnswerSet::from_iter(vec![(exclusive_name(), choice("a", &[("a", 0.5)]))]);
    let partial = decide(Policy::Exclusive, &subs, &partial).unwrap_err();
    assert_eq!(
        partial.message(),
        "exclusive answer has no probability for b"
    );
    assert_eq!(decide(Policy::Exclusive, &[], &AnswerSet::new()), Ok(vec![]));
}

#[test]
fn the_first_subscription_with_an_error_is_the_one_reported() {
    let subs = [sub("a"), sub("b"), sub("c")];
    let answers = AnswerSet::from_iter(vec![
        noul("a", 0.9),
        (QuestionName::new("b").unwrap(), choice("", &[])),
    ]);
    let error = decide(Policy::FanOut, &subs, &answers).unwrap_err();
    assert_eq!(error.message(), "answer to b is not a noul answer");
}

#[test]
fn verdicts_come_one_per_subscription_in_order() {
    let subs = [sub("b"), sub("a")];
    let answers = AnswerSet::from_iter(vec![noul("a", 0.9), noul("b", 0.5)]);
    let verdicts = decide(Policy::FanOut, &subs, &answers).unwrap();
    assert_eq!(verdicts.len(), 2);
    assert_eq!(verdicts[0].subscription.as_str(), "b");
    assert_eq!(verdicts[0].probability, p(0.5));
    assert_eq!(verdicts[1].subscription.as_str(), "a");
}

#[test]
fn thresholds_change_dispositions_but_neither_questions_nor_probabilities() {
    let strict = [Subscription::new(
        SubscriptionId::new("a").unwrap(),
        "about a",
        Thresholds::deliver_only(p(0.95)),
    )];
    let lax = [sub("a")];
    let answers = AnswerSet::from_iter(vec![noul("a", 0.9)]);
    assert_eq!(plan(Policy::FanOut, &strict), plan(Policy::FanOut, &lax));
    let (s, l) = (
        decide(Policy::FanOut, &strict, &answers).unwrap(),
        decide(Policy::FanOut, &lax, &answers).unwrap(),
    );
    assert_eq!(s[0].probability, l[0].probability);
    assert_eq!(s[0].disposition, Disposition::Drop);
    assert_eq!(l[0].disposition, Disposition::Deliver);
}

#[test]
fn question_sets_list_in_name_order_and_replace() {
    let question = |text: &str| Question::Noul {
        instructions: text.to_owned(),
    };
    let mut set = QuestionSet::from_iter(vec![
        (QuestionName::new("b").unwrap(), question("1")),
        (QuestionName::new("a").unwrap(), question("2")),
        (QuestionName::new("b").unwrap(), question("3")),
    ]);
    set.insert(QuestionName::new("B").unwrap(), question("4"));
    set.insert(QuestionName::new("é").unwrap(), question("5"));
    let listed: Vec<(&str, &Question)> = set
        .iter()
        .into_iter()
        .map(|(n, q)| (n.as_str(), q))
        .collect();
    assert_eq!(
        listed,
        [
            ("B", &question("4")),
            ("a", &question("2")),
            ("b", &question("3")),
            ("é", &question("5")),
        ]
    );
    assert_eq!(set.clone(), set);
}
