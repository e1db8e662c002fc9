//! An event stream in, deliveries out, ledger complete. Every effect is
//! performed on the spot by the driver below, so backoff costs nothing.

use std::cell::RefCell;
use std::collections::{BTreeMap, VecDeque};
use std::rc::Rc;

use jevbus::dispatch::Offer;
use jevbus::link::{acknowledged, published, Handover, LinkSlots};
use jevbus::run::{accept, Pull};
use jevbus::{
    AckError, Answer, AnswerSet, Attempt, Attempts, BreakerPolicy, Bus, BusConfig, DeadLetter,
    Delivery, Dispatch, Disposition, Double, Drive, Duration, Entry, Envelope, Event, EventId,
    EventState, JudgeError, JudgeFailure, LedgerError, MemoryLedger, NoAck, NonZeroU32,
    NonZeroUsize, OrderedMap, Outcome, Payload, Policy, Probability, Question, QuestionSet,
    RetryPolicy, Role, RoutingError, Run, RunError, Shared, SinkError, SourceError,
    SubscribeError, Subscription, SubscriptionId, Thresholds, Walk,
};

fn p(v: f64) -> Probability {
    Probability::new(Double::from_bits(v.to_bits())).unwrap()
}

type Reply = Option<Result<AnswerSet, JudgeError>>;
type Judge = Box<dyn FnMut(&Payload, &QuestionSet) -> Reply>;
type SinkFn = Box<dyn FnMut(Delivery) -> Result<(), SinkError>>;
type DeadFn = Box<dyn FnMut(DeadLetter) -> Result<(), SinkError>>;

/// The effects a run performs.
struct World {
    judge: Judge,
    sinks: BTreeMap<(usize, bool), SinkFn>,
    dead: DeadFn,
    fail_ack_for: Option<String>,
    /// The ledger refuses rows from this one on.
    ledger_breaks_at: Option<usize>,
    breaker_poisoned: bool,
    ledger: MemoryLedger,
    acks: Vec<String>,
    calls: usize,
    slept_ms: u64,
    delivered: Vec<(usize, bool, Delivery)>,
    letters: Vec<DeadLetter>,
}

impl World {
    fn new(judge: Judge) -> World {
        World {
            judge,
            sinks: BTreeMap::new(),
            dead: Box::new(|_| Ok(())),
            fail_ack_for: None,
            ledger_breaks_at: None,
            breaker_poisoned: false,
            ledger: MemoryLedger::new(),
            acks: vec![],
            calls: 0,
            slept_ms: 0,
            delivered: vec![],
            letters: vec![],
        }
    }

    fn write(&mut self, row: jevbus::Record) -> Result<(), LedgerError> {
        if let Some(limit) = self.ledger_breaks_at {
            if self.ledger.records().len() >= limit {
                return Err(LedgerError::Unavailable {
                    reason: "full".into(),
                });
            }
        }
        self.ledger.record(row);
        Ok(())
    }

    fn publish(&mut self, route: usize, role: Role, delivery: Delivery) -> Result<(), SinkError> {
        let review = role == Role::Review;
        match self.sinks.get_mut(&(route, review)) {
            Some(sink) => sink(delivery),
            None => {
                self.delivered.push((route, review, delivery));
                Ok(())
            }
        }
    }

    fn ack(&mut self, id: &str) -> Result<(), AckError> {
        if self.fail_ack_for.as_deref() == Some(id) {
            return Err(AckError::Rejected {
                reason: "late".into(),
            });
        }
        self.acks.push(id.to_owned());
        Ok(())
    }

    fn walk(
        &mut self,
        run: &Run,
        slot: &mut Shared,
        mut step: Walk,
    ) -> Result<jevbus::walk::JudgePhase, RunError> {
        let config = *run.bus().config();
        loop {
            step = match step {
                Walk::Record(record) => {
                    let written = self.write(record.row());
                    record.recorded(written)
                }
                Walk::Gate(gate) if self.breaker_poisoned => gate.poisoned(),
                Walk::Gate(gate) => gate.consult(slot),
                Walk::Sleep(sleep) => {
                    let span = sleep.span();
                    self.slept_ms += span.as_secs() * 1_000;
                    self.slept_ms += u64::from(span.subsec_nanos()) / 1_000_000;
                    sleep.slept()
                }
                Walk::Ask(ask) => {
                    self.calls += 1;
                    assert_eq!(ask.limit(&config), config.retry.timeout);
                    let reply = (self.judge)(ask.payload(), run.questions());
                    ask.answered(&config, reply)
                }
                Walk::Note(note) => note.note(&config, slot),
                Walk::Finished(phase) => return Ok(phase),
                Walk::Stopped(error) => return Err(error),
            };
        }
    }

    fn perform(&mut self, step: Dispatch, ack: &mut Option<NoAck>) -> Dispatch {
        match step {
            Dispatch::Publish(publish) => {
                let mut replies = vec![];
                for (route, offer) in publish.offers().iter().enumerate() {
                    replies.push(match offer {
                        Offer::Nothing(_) => Ok(()),
                        Offer::Send { role, delivery } => {
                            self.publish(route, *role, delivery.clone())
                        }
                    });
                }
                publish.published(replies)
            }
            Dispatch::Record(rows) => {
                let written = self.write(rows.row());
                rows.recorded(written)
            }
            Dispatch::Bury(bury) => {
                let letter = bury.letter();
                let reply = (self.dead)(letter.clone());
                self.letters.push(letter);
                bury.published(reply)
            }
            Dispatch::Acknowledge(handled) => {
                assert_eq!(ack.take(), Some(NoAck), "acknowledged once");
                let result = self.ack(handled.event().as_str());
                handled.acknowledged(result)
            }
            ended => ended,
        }
    }

    /// One event after another, through the judge and to where it goes.
    fn run(
        &mut self,
        bus: Bus,
        items: Vec<Result<Envelope<NoAck>, SourceError>>,
    ) -> Result<(), RunError> {
        let Some(run) = Run::start(bus) else {
            return Ok(());
        };
        let mut slot = Shared::new();
        let mut items = items.into_iter();
        let mut drive = Drive::start();
        loop {
            drive = match drive {
                Drive::Take => {
                    let next = items.next().map(|item| {
                        let (walk, ack) = accept(item)?;
                        Ok((self.walk(&run, &mut slot, walk)?, ack))
                    });
                    Drive::taken(run.bus(), next)
                }
                Drive::Dispatch { step, mut ack } => {
                    let step = self.perform(step, &mut ack);
                    Drive::reached(step, ack)
                }
                Drive::Ended(end) => return end,
            };
        }
    }

    fn run_events(&mut self, bus: Bus, events: Vec<Event>) -> Result<(), RunError> {
        self.run(
            bus,
            events
                .into_iter()
                .map(|event| Ok(Envelope::unacked(event)))
                .collect(),
        )
    }

    fn outcomes(&self) -> Vec<(String, Outcome)> {
        self.ledger
            .records()
            .iter()
            .filter_map(|r| match &r.entry {
                Entry::Routed {
                    subscription,
                    outcome,
                    ..
                } => Some((subscription.as_str().to_owned(), *outcome)),
                _ => None,
            })
            .collect()
    }

    /// What became of one event, the acknowledgement apart.
    fn states(&self, id: &str) -> Vec<String> {
        self.ledger
            .records()
            .iter()
            .filter(|r| r.event.as_str() == id)
            .filter_map(|r| match &r.entry {
                Entry::Lifecycle(EventState::Judging { attempt }) => {
                    Some(format!("judging{}", attempt.get()))
                }
                Entry::Lifecycle(EventState::Retrying { attempt, .. }) => {
                    Some(format!("retrying{}", attempt.get()))
                }
                Entry::Lifecycle(EventState::Judged { .. }) => Some("judged".into()),
                Entry::Lifecycle(EventState::Failed { attempts, .. }) => {
                    Some(format!("failed{}", attempts.get()))
                }
                Entry::Lifecycle(EventState::Settled) => Some("settled".into()),
                Entry::Routed { outcome, .. } => {
                    Some(format!("routed:{outcome:?}").to_lowercase())
                }
                Entry::DeadLettered { outcome } => {
                    Some(format!("dead:{outcome:?}").to_lowercase())
                }
                Entry::Composed { parts } => Some(format!("composed{}", parts.len())),
                Entry::Acknowledged { .. } => None,
            })
            .collect()
    }

    fn ack_results(&self) -> Vec<(String, bool)> {
        self.ledger
            .records()
            .into_iter()
            .filter_map(|r| match r.entry {
                Entry::Acknowledged { result } => {
                    Some((r.event.as_str().to_owned(), result.is_ok()))
                }
                _ => None,
            })
            .collect()
    }

    fn ids_at(&self, route: usize, review: bool) -> Vec<String> {
        self.delivered
            .iter()
            .filter(|(at, reviewed, _)| *at == route && *reviewed == review)
            .map(|(_, _, d)| d.event().id().as_str().to_owned())
            .collect()
    }
}

/// Answers from a table by payload text; absent entries are 0.
fn scripted() -> Judge {
    let table: BTreeMap<&str, BTreeMap<&str, f64>> = BTreeMap::from([
        ("e1", BTreeMap::from([("a", 0.9), ("b", 0.1)])),
        ("e22", BTreeMap::from([("a", 0.2), ("b", 0.95)])),
        ("e333", BTreeMap::from([("a", 0.5), ("b", 0.8)])),
    ]);
    Box::new(move |payload, questions| {
        let row = table.get(payload.as_str()).cloned().unwrap_or_default();
        let answers = questions
            .iter()
            .into_iter()
            .map(|(name, question)| {
                let answer = match question {
                    Question::Noul { .. } => Answer::Noul {
                        probability: p(*row.get(name.as_str()).unwrap_or(&0.0)),
                    },
                    Question::Choice { criteria, .. } => Answer::Choice {
                        choice: String::new(),
                        probabilities: OrderedMap::collect(
                            criteria
                                .iter()
                                .into_iter()
                                .map(|(k, _)| {
                                    (k.clone(), p(*row.get(k.as_str()).unwrap_or(&0.0)))
                                })
                                .collect(),
                        ),
                        confidence: None,
                    },
                    Question::Score { levels, .. } => Answer::Score {
                        level: levels.first().cloned().unwrap_or_default(),
                        score: Double::from_bits(0),
                        distribution: OrderedMap::new(),
                        confidence: None,
                    },
                };
                (name.clone(), answer)
            })
            .collect();
        Some(Ok(AnswerSet::from_iter(answers)))
    })
}

/// Answers every noul with 0.9.
fn certain_answers(questions: &QuestionSet) -> AnswerSet {
    AnswerSet::from_iter(
        questions
            .iter()
            .into_iter()
            .map(|(name, _)| {
                (
                    name.clone(),
                    Answer::Noul {
                        probability: p(0.9),
                    },
                )
            })
            .collect(),
    )
}

fn certain() -> Judge {
    Box::new(|_, questions| Some(Ok(certain_answers(questions))))
}

/// Answers nothing, permanently: a bad key is not fixed by retrying.
fn refusing(message: &'static str) -> Judge {
    Box::new(move |_, _| {
        Some(Err(JudgeError::Rejected {
            status: 401,
            message: message.into(),
        }))
    })
}

/// A judge whose behaviour per call is scripted up front.
enum Script {
    Answer,
    Transient,
    Permanent,
    Hang,
}

fn following(script: Vec<Script>) -> Judge {
    let mut script = VecDeque::from(script);
    Box::new(move |_, questions| match script.pop_front() {
        None | Some(Script::Answer) => Some(Ok(certain_answers(questions))),
        Some(Script::Transient) => Some(Err(JudgeError::Rejected {
            status: 503,
            message: "overloaded".into(),
        })),
        Some(Script::Permanent) => Some(Err(JudgeError::Rejected {
            status: 401,
            message: "bad key".into(),
        })),
        Some(Script::Hang) => None,
    })
}

fn sub(id: &str) -> Subscription {
    Subscription::new(
        SubscriptionId::new(id).unwrap(),
        &format!("about {id}"),
        Thresholds::new(p(0.7), p(0.4)).unwrap(),
    )
}

fn anything() -> Subscription {
    Subscription::new(
        SubscriptionId::new("a").unwrap(),
        "anything",
        Thresholds::deliver_only(p(0.5)),
    )
}

/// An event whose id is its text behind "id:".
fn event(text: &str) -> Event {
    Event::new(
        EventId::new(&format!("id:{text}")).unwrap(),
        Payload::new(text),
    )
}

fn named(id: &str) -> Event {
    Event::new(EventId::new(id).unwrap(), Payload::new(id))
}

fn policy(policy: Policy, concurrency: usize) -> BusConfig {
    BusConfig {
        policy,
        concurrency: NonZeroUsize::new(concurrency).unwrap(),
        channel_capacity: 4,
        ..BusConfig::default()
    }
}

fn config(max_attempts: u32, breaker_threshold: u32) -> BusConfig {
    BusConfig {
        policy: Policy::FanOut,
        concurrency: NonZeroUsize::new(2).unwrap(),
        channel_capacity: 4,
        retry: RetryPolicy {
            attempts: Attempts::Bounded(NonZeroU32::new(max_attempts).unwrap()),
            base_delay: Duration::from_millis(100),
            max_delay: Duration::from_secs(1),
            multiplier: 2,
            timeout: Duration::from_secs(1),
        },
        breaker: BreakerPolicy {
            failure_threshold: NonZeroU32::new(breaker_threshold).unwrap(),
            cooldown: Duration::from_secs(10),
            max_cooldown: Duration::from_secs(60),
        },
    }
}

fn bus_of(config: BusConfig, subscriptions: Vec<Subscription>) -> Bus {
    let mut bus = Bus::new(config);
    for subscription in subscriptions {
        bus.subscribe_to(subscription).unwrap();
    }
    bus
}

// Streams in, streams out.

#[test]
fn fan_out_routes_each_event_to_a_or_b_and_preserves_input_order() {
    let mut bus = Bus::new(policy(Policy::FanOut, 4));
    bus.subscribe_to(sub("a")).unwrap();
    bus.subscribe_with_review_to(sub("b")).unwrap();
    let mut world = World::new(scripted());
    world
        .run_events(bus, vec![event("e1"), event("e22"), event("e333")])
        .unwrap();
    assert_eq!(world.ids_at(0, false), ["id:e1"]);
    assert_eq!(world.ids_at(1, false), ["id:e22", "id:e333"]);
    assert!(world.ids_at(1, true).is_empty());
    assert!(world
        .delivered
        .iter()
        .filter(|(route, _, _)| *route == 0)
        .all(|(_, _, d)| d.verdict().disposition == Disposition::Deliver));
}

#[test]
fn ledger_records_every_subscription_for_every_event_including_drops_and_unreviewed() {
    let bus = bus_of(policy(Policy::FanOut, 1), vec![sub("a"), sub("b")]);
    let mut world = World::new(scripted());
    // b unsubscribes before the run starts
    world
        .sinks
        .insert((1, false), Box::new(|_| Err(SinkError::Closed)));
    world
        .run_events(bus, vec![event("e1"), event("e333")])
        .unwrap();
    assert_eq!(world.outcomes().len(), 4, "2 events x 2 subscriptions");
    assert_eq!(
        world.outcomes(),
        [
            ("a".to_owned(), Outcome::Delivered),
            ("b".to_owned(), Outcome::Dropped),
            ("a".to_owned(), Outcome::Unreviewed),
            ("b".to_owned(), Outcome::Unsubscribed),
        ]
    );
}

#[test]
fn exclusive_policy_delivers_to_exactly_one_of_a_or_b() {
    let bus = bus_of(policy(Policy::Exclusive, 2), vec![sub("a"), sub("b")]);
    let mut world = World::new(scripted());
    world
        .run_events(bus, vec![event("e1"), event("e22"), event("e333")])
        .unwrap();
    assert_eq!(world.ids_at(0, false).len(), 1);
    assert_eq!(world.ids_at(1, false).len(), 2);
    let deliveries = world
        .outcomes()
        .into_iter()
        .filter(|(_, outcome)| *outcome == Outcome::Delivered)
        .count();
    assert_eq!(deliveries, 3);
}

#[test]
fn judge_failure_is_recorded_per_event_and_does_not_stop_the_run() {
    let bus = bus_of(policy(Policy::FanOut, 1), vec![sub("a")]);
    let mut world = World::new(refusing("bad key"));
    world
        .run_events(bus, vec![event("e1"), event("e22")])
        .unwrap();
    assert!(world.delivered.is_empty());
    let failed = world
        .ledger
        .records()
        .iter()
        .filter(|r| matches!(r.entry, Entry::Lifecycle(EventState::Failed { .. })))
        .count();
    assert_eq!(failed, 2);
}

#[test]
fn no_subscriptions_means_no_judge_calls() {
    let mut world = World::new(scripted());
    world
        .run_events(Bus::new(BusConfig::default()), vec![event("e1")])
        .unwrap();
    assert_eq!(world.calls, 0);
    assert!(world.ledger.records().is_empty());
    assert!(world.acks.is_empty());
}

#[test]
fn one_judge_call_per_event_regardless_of_subscription_count() {
    let bus = bus_of(policy(Policy::FanOut, 3), vec![sub("a"), sub("b")]);
    let mut world = World::new(scripted());
    world
        .run_events(bus, vec![event("e1"), event("e22"), event("e333")])
        .unwrap();
    assert_eq!(world.calls, 3);
}

#[test]
fn a_composite_event_records_its_lineage_before_judgment() {
    let bus = bus_of(policy(Policy::FanOut, 1), vec![sub("a")]);
    let parts = [event("e1"), event("e22")];
    let merged = Event::merged(EventId::new("m").unwrap(), Payload::new("e1"), &parts);
    let mut world = World::new(scripted());
    world.run_events(bus, vec![merged]).unwrap();
    assert_eq!(world.ids_at(0, false).len(), 1);
    let first = world.ledger.records().into_iter().next().unwrap();
    assert_eq!(first.event.as_str(), "m");
    let lineage = match first.entry {
        Entry::Composed { parts } => parts
            .iter()
            .map(|p| p.as_str().to_owned())
            .collect::<Vec<_>>(),
        _ => Vec::new(),
    };
    assert_eq!(lineage, ["id:e1", "id:e22"]);
}

#[test]
fn review_band_events_go_to_the_review_sink() {
    let mut bus = Bus::new(policy(Policy::FanOut, 1));
    bus.subscribe_with_review_to(sub("a")).unwrap();
    let mut world = World::new(scripted());
    world.run_events(bus, vec![event("e333")]).unwrap();
    assert_eq!(world.ids_at(0, true), ["id:e333"]);
    assert_eq!(world.outcomes(), [("a".to_owned(), Outcome::Reviewed)]);
}

#[test]
fn answers_that_do_not_fit_the_question_dead_letter_the_event() {
    let mut bus = bus_of(policy(Policy::FanOut, 1), vec![sub("a")]);
    bus.dead_letters_to().unwrap();
    let mut world = World::new(Box::new(|_, _| Some(Ok(AnswerSet::new()))));
    world.run_events(bus, vec![named("e1")]).unwrap();
    assert_eq!(
        world.states("e1"),
        ["judging1", "judged", "failed1", "dead:delivered"]
    );
    assert!(matches!(
        world.letters[0].cause(),
        JudgeFailure::Routing(RoutingError::MissingAnswer { .. })
    ));
}

// Acknowledgements.

#[test]
fn a_source_is_acknowledged_in_order_after_each_event_settles() {
    let bus = bus_of(BusConfig::default(), vec![anything()]);
    let mut world = World::new(certain());
    world
        .run_events(bus, vec![named("e1"), named("e2"), named("e3")])
        .unwrap();
    assert_eq!(world.acks, ["e1", "e2", "e3"]);
    assert_eq!(world.delivered.len(), 3);
    // Every ack row comes after that event's Settled row.
    let rows: Vec<&str> = world
        .ledger
        .records()
        .iter()
        .filter(|r| r.event.as_str() == "e2")
        .map(|r| match &r.entry {
            Entry::Acknowledged { .. } => "ack",
            Entry::Lifecycle(EventState::Settled) => "settled",
            _ => "",
        })
        .collect();
    assert_eq!(rows, ["", "", "", "settled", "ack"]);
}

#[test]
fn a_dead_lettered_event_is_still_acknowledged_and_goes_to_the_dead_letter_sink() {
    let mut bus = bus_of(BusConfig::default(), vec![anything()]);
    bus.dead_letters_to().unwrap();
    let mut world = World::new(refusing("no"));
    world.run_events(bus, vec![named("e1")]).unwrap();
    assert_eq!(world.letters.len(), 1);
    assert_eq!(world.acks, ["e1"]);
}

#[test]
fn an_ack_the_source_rejects_is_recorded_not_fatal() {
    let bus = bus_of(BusConfig::default(), vec![anything()]);
    let mut world = World::new(certain());
    world.fail_ack_for = Some("e1".into());
    world
        .run_events(bus, vec![named("e1"), named("e2")])
        .unwrap();
    assert_eq!(
        world.ack_results(),
        [("e1".to_owned(), false), ("e2".to_owned(), true)]
    );
}

#[test]
fn a_failing_source_stops_the_run_after_acknowledging_what_it_delivered() {
    let bus = bus_of(BusConfig::default(), vec![anything()]);
    let mut replies: VecDeque<Result<Option<Envelope<NoAck>>, SourceError>> = VecDeque::from([
        Ok(Some(Envelope::unacked(named("e1")))),
        Err(SourceError::Unavailable {
            reason: "broker gone".into(),
        }),
        Ok(Some(Envelope::unacked(named("e2")))),
    ]);
    let mut items = vec![];
    let mut pull = Pull::new();
    while !pull.done {
        let Some((item, next)) = pull.pulled(replies.pop_front().unwrap()) else {
            break;
        };
        items.push(item);
        pull = next;
    }
    assert_eq!(items.len(), 2, "nothing is pulled after the failure");
    let mut world = World::new(certain());
    let result = world.run(bus, items);
    assert!(matches!(
        result,
        Err(RunError::Source(SourceError::Unavailable { .. }))
    ));
    assert_eq!(world.acks, ["e1"]);
}

#[test]
fn an_exhausted_source_ends_the_run() {
    assert!(Pull::new().pulled::<NoAck>(Ok(None)).is_none());
}

#[test]
fn a_sink_that_is_down_is_recorded_as_sink_failed() {
    let bus = bus_of(BusConfig::default(), vec![anything()]);
    let mut world = World::new(certain());
    world.sinks.insert(
        (0, false),
        Box::new(|_| {
            Err(SinkError::Unavailable {
                reason: "down".into(),
            })
        }),
    );
    world.run_events(bus, vec![named("e1")]).unwrap();
    assert_eq!(world.outcomes(), [("a".to_owned(), Outcome::SinkFailed)]);
}

#[test]
fn dead_letter_sink_can_only_be_registered_once() {
    let mut bus = Bus::new(BusConfig::default());
    assert!(!bus.has_dead_letters());
    assert!(bus.dead_letters_to().is_ok());
    assert!(bus.has_dead_letters());
    assert_eq!(
        bus.dead_letters_to(),
        Err(SubscribeError::DeadLettersTaken)
    );
}

// Failure, retry, timeout, breaker.

#[test]
fn transient_failures_are_retried_with_backoff_and_the_event_is_delivered() {
    let bus = bus_of(config(5, 100), vec![anything()]);
    let mut world = World::new(following(vec![
        Script::Transient,
        Script::Transient,
        Script::Answer,
    ]));
    world.run_events(bus, vec![named("e1")]).unwrap();
    assert_eq!(world.delivered.len(), 1);
    assert_eq!(world.calls, 3);
    assert_eq!(
        world.states("e1"),
        [
            "judging1",
            "retrying1",
            "judging2",
            "retrying2",
            "judging3",
            "judged",
            "routed:delivered",
            "settled"
        ]
    );
    // 100ms + 200ms of backoff.
    assert_eq!(world.slept_ms, 300);
}

#[test]
fn exhausted_attempts_dead_letter_the_event_with_its_attempt_count() {
    let mut bus = bus_of(config(3, 100), vec![anything()]);
    bus.dead_letters_to().unwrap();
    let mut world = World::new(following(vec![
        Script::Transient,
        Script::Transient,
        Script::Transient,
    ]));
    world.run_events(bus, vec![named("e1")]).unwrap();
    assert!(world.delivered.is_empty());
    assert_eq!(world.letters.len(), 1);
    let letter = &world.letters[0];
    assert_eq!(letter.attempts(), Attempt::first().next().next());
    assert!(matches!(
        letter.cause(),
        JudgeFailure::Judge(JudgeError::Rejected { status: 503, .. })
    ));
    assert_eq!(
        world.states("e1"),
        [
            "judging1",
            "retrying1",
            "judging2",
            "retrying2",
            "judging3",
            "failed3",
            "dead:delivered"
        ]
    );
}

#[test]
fn permanent_failure_dead_letters_at_once_without_retry() {
    let bus = bus_of(config(5, 100), vec![anything()]);
    let mut world = World::new(following(vec![Script::Permanent]));
    world.run_events(bus, vec![named("e1")]).unwrap();
    assert_eq!(world.calls, 1);
    assert_eq!(
        world.states("e1"),
        ["judging1", "failed1", "dead:unhandled"]
    );
}

#[test]
fn a_hanging_judge_times_out_and_is_retried() {
    let bus = bus_of(config(5, 100), vec![anything()]);
    let mut world = World::new(following(vec![Script::Hang, Script::Answer]));
    world.run_events(bus, vec![named("e1")]).unwrap();
    assert_eq!(world.delivered.len(), 1);
    let retry_cause = world
        .ledger
        .records()
        .into_iter()
        .find_map(|r| match r.entry {
            Entry::Lifecycle(EventState::Retrying { cause, .. }) => Some(cause),
            _ => None,
        });
    assert_eq!(
        retry_cause,
        Some(JudgeError::TimedOut {
            after: Duration::from_secs(1)
        })
    );
}

#[test]
fn open_breaker_makes_later_events_wait_instead_of_spending_attempts() {
    // Threshold 2: the first event's two transient failures open the breaker
    // with a 10s cooldown. The second event succeeds on its first attempt
    // rather than failing into retries of its own.
    let mut cfg = config(5, 2);
    cfg.concurrency = NonZeroUsize::new(1).unwrap();
    let bus = bus_of(cfg, vec![anything()]);
    let mut world = World::new(following(vec![
        Script::Transient,
        Script::Transient,
        Script::Answer,
        Script::Answer,
    ]));
    world
        .run_events(bus, vec![named("e1"), named("e2")])
        .unwrap();
    assert_eq!(world.delivered.len(), 2);
    assert_eq!(world.calls, 4);
    assert_eq!(
        world.states("e2"),
        ["judging1", "judged", "routed:delivered", "settled"]
    );
    // 100ms and 200ms backoff, then the 10s cooldown before attempt 3.
    assert_eq!(world.slept_ms, 10_300);
}

#[test]
fn dead_letter_stream_can_only_be_taken_once() {
    let mut bus = Bus::new(config(1, 1));
    assert!(bus.dead_letters_to().is_ok());
    assert!(bus.dead_letters_to().is_err());
}

#[test]
fn unhandled_outcome_is_distinct_from_unsubscribed() {
    assert_ne!(Outcome::Unhandled, Outcome::Unsubscribed);
}

#[test]
fn a_ledger_failure_stops_the_run_wherever_it_happens() {
    // judging, judged, routed, settled, acknowledged
    for limit in 0..5 {
        let bus = bus_of(config(5, 100), vec![anything()]);
        let mut world = World::new(certain());
        world.ledger_breaks_at = Some(limit);
        let stopped = world.run_events(bus, vec![named("e1"), named("e2")]);
        assert_eq!(
            stopped,
            Err(RunError::Ledger(LedgerError::Unavailable {
                reason: "full".into()
            }))
        );
        assert_eq!(world.ledger.records().len(), limit);
        assert_eq!(world.acks.len(), usize::from(limit == 4));
    }
}

#[test]
fn a_poisoned_breaker_stops_the_run() {
    let bus = bus_of(config(5, 100), vec![anything()]);
    let mut world = World::new(certain());
    world.breaker_poisoned = true;
    let stopped = world.run_events(bus, vec![named("e1")]);
    assert_eq!(stopped, Err(RunError::BreakerPoisoned));
    assert_eq!(world.calls, 0);
}

// Registration.

#[test]
fn an_id_can_only_be_registered_once() {
    let mut bus = Bus::new(BusConfig::default());
    bus.subscribe_to(sub("a")).unwrap();
    let error = bus.subscribe_with_review_to(sub("a")).unwrap_err();
    assert_eq!(
        error,
        SubscribeError::Duplicate {
            id: SubscriptionId::new("a").unwrap()
        }
    );
    assert_eq!(error.message(), "subscription a already exists");
    assert_eq!(
        SubscribeError::DeadLettersTaken.message(),
        "dead-letter sink already registered"
    );
    bus.subscribe_with_review_to(sub("b")).unwrap();
    let ids: Vec<&str> = bus.subscriptions().iter().map(|s| s.id().as_str()).collect();
    assert_eq!(ids, ["a", "b"]);
    assert!(!bus.has_review(0));
    assert!(bus.has_review(1));
}

#[test]
fn the_default_configuration_is_as_documented() {
    let config = BusConfig::default();
    assert_eq!(config.policy, Policy::FanOut);
    assert_eq!(config.concurrency.get(), 8);
    assert_eq!(config.channel_capacity, 64);
    assert_eq!(config.retry, RetryPolicy::default());
    assert_eq!(config.breaker, BreakerPolicy::default());
}

#[test]
fn run_errors_are_put_into_words() {
    let ledger = RunError::from(LedgerError::Unavailable { reason: "x".into() });
    assert_eq!(
        ledger.message(),
        LedgerError::Unavailable { reason: "x".into() }.message()
    );
    let source = RunError::from(SourceError::Unavailable { reason: "x".into() });
    assert_eq!(
        source.message(),
        SourceError::Unavailable { reason: "x".into() }.message()
    );
    assert_eq!(RunError::BreakerPoisoned.message(), "breaker lock poisoned");
}

// Chains.

fn pass() -> Bus {
    bus_of(BusConfig::default(), vec![sub("pass")])
}

#[test]
fn two_buses_chain_and_the_upstream_acks_only_after_the_downstream_has() {
    // Upstream A: subscription "pass" -> link.
    // Downstream B: link -> subscription "b" -> collected.
    let downstream = Rc::new(RefCell::new(World::new(certain())));
    let log = Rc::new(RefCell::new(Vec::<String>::new()));
    let mut upstream = World::new(certain());
    {
        let (downstream, log) = (Rc::clone(&downstream), Rc::clone(&log));
        upstream.sinks.insert(
            (0, false),
            Box::new(move |delivery| {
                let event = delivery.into_event();
                let id = event.id().as_str().to_owned();
                let ran = downstream.borrow_mut().run_events(
                    bus_of(BusConfig::default(), vec![sub("b")]),
                    vec![event],
                );
                assert!(ran.is_ok());
                assert_eq!(downstream.borrow().acks.last(), Some(&id));
                log.borrow_mut().push(format!("downstream:{id}"));
                published(Handover::Acknowledged(acknowledged(true)))
            }),
        );
    }
    upstream
        .run_events(pass(), vec![named("e1"), named("e2")])
        .unwrap();
    assert_eq!(downstream.borrow().ids_at(0, false), ["e1", "e2"]);
    assert_eq!(upstream.acks, ["e1", "e2"]);
    assert_eq!(*log.borrow(), ["downstream:e1", "downstream:e2"]);
    assert_eq!(
        upstream.outcomes(),
        [
            ("pass".to_owned(), Outcome::Delivered),
            ("pass".to_owned(), Outcome::Delivered)
        ]
    );
    let settled = downstream
        .borrow()
        .ledger
        .records()
        .iter()
        .filter(|r| matches!(r.entry, Entry::Lifecycle(EventState::Settled)))
        .count();
    assert_eq!(settled, 2);
}

#[test]
fn a_downstream_that_went_away_is_recorded_as_unsubscribed_upstream() {
    let mut upstream = World::new(certain());
    upstream
        .sinks
        .insert((0, false), Box::new(|_| published(Handover::NotTaken)));
    upstream.run_events(pass(), vec![named("e1")]).unwrap();
    assert_eq!(
        upstream.outcomes(),
        [("pass".to_owned(), Outcome::Unsubscribed)]
    );
}

#[test]
fn a_downstream_that_drops_an_event_unacked_is_recorded_as_sink_failed() {
    let mut upstream = World::new(certain());
    upstream
        .sinks
        .insert((0, false), Box::new(|_| published(Handover::Dropped)));
    upstream.run_events(pass(), vec![named("e1")]).unwrap();
    assert_eq!(
        upstream.outcomes(),
        [("pass".to_owned(), Outcome::SinkFailed)]
    );
}

#[test]
fn a_link_words_what_went_wrong() {
    assert_eq!(
        published(Handover::Dropped),
        Err(SinkError::Unavailable {
            reason: "downstream dropped the event without acknowledging".into()
        })
    );
    let rejected = acknowledged(false);
    assert_eq!(
        rejected,
        Err(AckError::Rejected {
            reason: "upstream is no longer waiting for this event".into()
        })
    );
    let Err(error) = published(Handover::Acknowledged(rejected)) else {
        panic!("an ack that failed is a failed publish");
    };
    let SinkError::Unavailable { reason } = error else {
        panic!("the sink is not closed");
    };
    assert!(reason.starts_with("downstream ack failed: "));
    assert!(reason.ends_with("upstream is no longer waiting for this event"));
}

#[test]
fn a_link_holds_at_most_its_capacity() {
    let mut slots = LinkSlots::new(2);
    assert_eq!(slots.held(), 0);
    assert!(slots.take());
    assert!(slots.take());
    assert!(!slots.take());
    assert_eq!(slots.held(), 2);
    slots.give_back();
    assert_eq!(slots.held(), 1);
    assert!(slots.take());
    assert!(!slots.take());
    slots.give_back();
    slots.give_back();
    slots.give_back();
    assert_eq!(slots.held(), 0);
    assert!(slots.take());
}

#[test]
fn a_link_without_room_takes_nothing() {
    let mut slots = LinkSlots::new(0);
    assert!(!slots.take());
    assert_eq!(slots.held(), 0);
}
