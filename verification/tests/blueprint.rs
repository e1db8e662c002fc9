//! A bus as data, carried through JSON by hand.

use std::sync::Arc;

use jevbus::{
    Attempts, Blueprint, BreakerPolicy, Bus, BusConfig, Delivery, Disposition, Double, Duration,
    Event, EventId, NonZeroU32, NonZeroUsize, Payload, Policy, Probability, RetryPolicy,
    RouteSpec, SubscribeError, Subscription, SubscriptionId, Thresholds, Verdict,
};
use serde_json::Value;

fn p(v: f64) -> Probability {
    Probability::new(Double::from_bits(v.to_bits())).unwrap()
}

fn text(s: &str) -> Value {
    Value::String(s.to_owned())
}

fn object(fields: Vec<(&str, Value)>) -> Value {
    let mut map = serde_json::Map::new();
    for (name, value) in fields {
        map.insert(name.to_owned(), value);
    }
    Value::Object(map)
}

fn probability_json(probability: Probability) -> Value {
    Value::from(f64::from_bits(probability.value().to_bits()))
}

fn duration_json(duration: Duration) -> Value {
    object(vec![
        ("secs", Value::from(duration.as_secs())),
        ("nanos", Value::from(duration.subsec_nanos())),
    ])
}

fn texts_json(texts: &[String]) -> Value {
    Value::Array(texts.iter().map(|t| text(t)).collect())
}

fn blueprint_json(blueprint: &Blueprint) -> Value {
    let config = &blueprint.config;
    let attempts = match config.retry.attempts {
        Attempts::Bounded(max) => object(vec![("bounded", Value::from(max.get()))]),
        Attempts::Unbounded => text("unbounded"),
    };
    let policy = match config.policy {
        Policy::FanOut => text("fan_out"),
        Policy::Exclusive => text("exclusive"),
    };
    let retry = object(vec![
        ("attempts", attempts),
        ("base_delay", duration_json(config.retry.base_delay)),
        ("max_delay", duration_json(config.retry.max_delay)),
        ("multiplier", Value::from(config.retry.multiplier)),
        ("timeout", duration_json(config.retry.timeout)),
    ]);
    let breaker = object(vec![
        (
            "failure_threshold",
            Value::from(config.breaker.failure_threshold.get()),
        ),
        ("cooldown", duration_json(config.breaker.cooldown)),
        ("max_cooldown", duration_json(config.breaker.max_cooldown)),
    ]);
    let routes = blueprint
        .routes
        .iter()
        .map(|route| {
            let subscription = &route.subscription;
            let thresholds = object(vec![
                (
                    "deliver",
                    probability_json(subscription.thresholds().deliver()),
                ),
                (
                    "review",
                    probability_json(subscription.thresholds().review()),
                ),
            ]);
            object(vec![
                (
                    "subscription",
                    object(vec![
                        ("id", text(subscription.id().as_str())),
                        ("description", text(subscription.description())),
                        ("examples", texts_json(subscription.examples())),
                        (
                            "counter_examples",
                            texts_json(subscription.counter_examples()),
                        ),
                        ("thresholds", thresholds),
                    ]),
                ),
                ("review", Value::from(route.review)),
            ])
        })
        .collect();
    object(vec![
        (
            "config",
            object(vec![
                ("policy", policy),
                ("concurrency", Value::from(config.concurrency.get())),
                ("channel_capacity", Value::from(config.channel_capacity)),
                ("retry", retry),
                ("breaker", breaker),
            ]),
        ),
        ("routes", Value::Array(routes)),
        ("dead_letters", Value::from(blueprint.dead_letters)),
    ])
}

fn read_duration(value: &Value) -> Duration {
    Duration::new(
        value["secs"].as_u64().unwrap(),
        u32::try_from(value["nanos"].as_u64().unwrap()).unwrap(),
    )
}

fn read_u32(value: &Value) -> u32 {
    u32::try_from(value.as_u64().unwrap()).unwrap()
}

fn read_texts(value: &Value) -> Vec<String> {
    match value.as_array() {
        Some(texts) => texts
            .iter()
            .map(|t| t.as_str().unwrap().to_owned())
            .collect(),
        None => vec![],
    }
}

fn read_subscription(value: &Value) -> Result<Subscription, String> {
    let (deliver, review) = (
        value["thresholds"]["deliver"].as_f64().unwrap(),
        value["thresholds"]["review"].as_f64().unwrap(),
    );
    let thresholds = Thresholds::new(p(deliver), p(review))
        .map_err(|error| error.message(&review.to_string(), &deliver.to_string()))?;
    let (examples, counter_examples) = (
        read_texts(&value["examples"]),
        read_texts(&value["counter_examples"]),
    );
    let examples: Vec<&str> = examples.iter().map(String::as_str).collect();
    let counter_examples: Vec<&str> = counter_examples.iter().map(String::as_str).collect();
    Ok(Subscription::new(
        SubscriptionId::new(value["id"].as_str().unwrap()).unwrap(),
        value["description"].as_str().unwrap(),
        thresholds,
    )
    .with_examples(&examples)
    .with_counter_examples(&counter_examples))
}

fn read_blueprint(json: &str) -> Result<Blueprint, String> {
    let value: Value = serde_json::from_str(json).unwrap();
    let config = &value["config"];
    let (retry, breaker) = (&config["retry"], &config["breaker"]);
    let attempts = match retry["attempts"]["bounded"].as_u64() {
        Some(_) => Attempts::Bounded(
            NonZeroU32::new(read_u32(&retry["attempts"]["bounded"])).unwrap(),
        ),
        None => Attempts::Unbounded,
    };
    let mut routes = vec![];
    for route in value["routes"].as_array().unwrap() {
        routes.push(RouteSpec {
            subscription: read_subscription(&route["subscription"])?,
            review: route["review"].as_bool().unwrap_or_default(),
        });
    }
    Ok(Blueprint {
        config: BusConfig {
            policy: match config["policy"].as_str().unwrap() {
                "exclusive" => Policy::Exclusive,
                _ => Policy::FanOut,
            },
            concurrency: NonZeroUsize::new(
                usize::try_from(config["concurrency"].as_u64().unwrap()).unwrap(),
            )
            .unwrap(),
            channel_capacity: usize::try_from(config["channel_capacity"].as_u64().unwrap())
                .unwrap(),
            retry: RetryPolicy {
                attempts,
                base_delay: read_duration(&retry["base_delay"]),
                max_delay: read_duration(&retry["max_delay"]),
                multiplier: read_u32(&retry["multiplier"]),
                timeout: read_duration(&retry["timeout"]),
            },
            breaker: BreakerPolicy {
                failure_threshold: NonZeroU32::new(read_u32(&breaker["failure_threshold"]))
                    .unwrap(),
                cooldown: read_duration(&breaker["cooldown"]),
                max_cooldown: read_duration(&breaker["max_cooldown"]),
            },
        },
        routes,
        dead_letters: value["dead_letters"].as_bool().unwrap_or_default(),
    })
}

fn sub(id: &str) -> Subscription {
    Subscription::new(
        SubscriptionId::new(id).unwrap(),
        &format!("about {id}"),
        Thresholds::new(p(0.7), p(0.4)).unwrap(),
    )
    .with_examples(&["one example"])
}

#[test]
fn blueprint_round_trips_through_json_and_rebuilds_the_same_topology() {
    let mut bus = Bus::new(BusConfig::default());
    bus.subscribe_to(sub("a")).unwrap();
    bus.subscribe_with_review_to(sub("b")).unwrap();
    bus.dead_letters_to().unwrap();

    let blueprint = bus.blueprint();
    let json = serde_json::to_string_pretty(&blueprint_json(&blueprint)).unwrap();
    let back = read_blueprint(&json).unwrap();
    assert_eq!(back, blueprint);

    let rebuilt = Bus::from_blueprint(&back).unwrap();
    assert_eq!(rebuilt.blueprint(), blueprint);
    assert_eq!(rebuilt.subscriptions().len(), 2);
    assert_eq!((0..2).filter(|i| rebuilt.has_review(*i)).count(), 1);
    assert!(rebuilt.has_dead_letters());
}

#[test]
fn blueprint_deserialisation_enforces_the_threshold_invariant() {
    let bad = r#"{"config":{"policy":"fan_out","concurrency":1,"channel_capacity":1,
        "retry":{"attempts":{"bounded":1},"base_delay":{"secs":1,"nanos":0},"max_delay":{"secs":1,"nanos":0},
                 "multiplier":2,"timeout":{"secs":1,"nanos":0}},
        "breaker":{"failure_threshold":1,"cooldown":{"secs":1,"nanos":0},"max_cooldown":{"secs":1,"nanos":0}}},
        "routes":[{"subscription":{"id":"a","description":"x","thresholds":{"deliver":0.2,"review":0.9}}}]}"#;
    let result = read_blueprint(bad);
    assert!(result.is_err(), "review above deliver must be rejected");
}

#[test]
fn a_blueprint_that_repeats_an_id_is_rejected() {
    let route = RouteSpec {
        subscription: sub("a"),
        review: false,
    };
    let blueprint = Blueprint {
        config: BusConfig::default(),
        routes: vec![route.clone(), route],
        dead_letters: false,
    };
    assert_eq!(
        Bus::from_blueprint(&blueprint).err(),
        Some(SubscribeError::Duplicate {
            id: SubscriptionId::new("a").unwrap()
        })
    );
}

#[test]
fn delivery_serialises_as_event_and_verdict() {
    let read: Value = serde_json::from_str(
        r#"{"event":{"id":"e1","payload":"hello"},
            "verdict":{"subscription":"a","probability":0.9,"disposition":"deliver"}}"#,
    )
    .unwrap();
    let delivery = Delivery::new(
        Arc::new(Event::new(
            EventId::new(read["event"]["id"].as_str().unwrap()).unwrap(),
            Payload::new(read["event"]["payload"].as_str().unwrap()),
        )),
        Verdict {
            subscription: SubscriptionId::new(read["verdict"]["subscription"].as_str().unwrap())
                .unwrap(),
            probability: p(read["verdict"]["probability"].as_f64().unwrap()),
            disposition: match read["verdict"]["disposition"].as_str() {
                Some("deliver") => Disposition::Deliver,
                Some("review") => Disposition::Review,
                _ => Disposition::Drop,
            },
        },
    );
    assert_eq!(delivery.event().id().as_str(), "e1");
    let disposition = match delivery.verdict().disposition {
        Disposition::Deliver => "deliver",
        Disposition::Review => "review",
        Disposition::Drop => "drop",
    };
    let json = object(vec![
        (
            "event",
            object(vec![
                ("id", text(delivery.event().id().as_str())),
                ("payload", text(delivery.event().payload().as_str())),
            ]),
        ),
        (
            "verdict",
            object(vec![
                (
                    "subscription",
                    text(delivery.verdict().subscription.as_str()),
                ),
                (
                    "probability",
                    probability_json(delivery.verdict().probability),
                ),
                ("disposition", text(disposition)),
            ]),
        ),
    ]);
    assert_eq!(json, read);
}
