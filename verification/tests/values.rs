//! Values: events, probabilities, thresholds, subscriptions and time.

use std::cmp::Ordering;

use jevbus::text::{decimal_text, hex_text};
use jevbus::{
    Disposition, Double, Duration, EmptyId, Event, EventId, Instant, NonZeroU32, NonZeroUsize,
    Payload, Probability, ProbabilityError, Subscription, SubscriptionId, Thresholds,
};

fn d(v: f64) -> Double {
    Double::from_bits(v.to_bits())
}

fn p(v: f64) -> Probability {
    Probability::new(d(v)).unwrap_or(Probability::zero())
}

#[test]
fn event_id_rejects_empty_text() {
    assert_eq!(EventId::new(""), Err(EmptyId));
    assert!(EventId::new("e-1").is_ok());
    assert_eq!(EmptyId.message(), "identifier must not be empty");
}

#[test]
fn merged_event_lists_its_parts_in_order() {
    let (Ok(a), Ok(b), Ok(m)) = (EventId::new("a"), EventId::new("b"), EventId::new("m")) else {
        panic!("ids are not empty");
    };
    let parts = [
        Event::new(a.clone(), Payload::new("x")),
        Event::new(b.clone(), Payload::new("y")),
    ];
    let merged = Event::merged(m, Payload::new("x y"), &parts);
    assert_eq!(merged.parts(), [a, b]);
    assert!(merged.is_composite());
    assert!(!parts.iter().any(Event::is_composite));
}

#[test]
fn an_event_carries_its_id_payload_and_given_lineage() {
    let id = EventId::new("e").unwrap();
    let event = Event::with_parts(
        id.clone(),
        Payload::new(""),
        vec![EventId::new("p").unwrap()],
    );
    assert_eq!(event.id(), &id);
    assert_eq!(event.payload().as_str(), "");
    assert_eq!(event.parts()[0].as_str(), "p");
    assert_eq!(event.clone(), event);
}

#[test]
fn new_accepts_the_closed_unit_interval() {
    assert!(Probability::new(d(0.0)).is_ok());
    assert!(Probability::new(d(0.5)).is_ok());
    assert!(Probability::new(d(1.0)).is_ok());
}

#[test]
fn new_rejects_values_outside_the_interval_and_nan() {
    assert_eq!(Probability::new(d(-0.1)), Err(ProbabilityError(d(-0.1))));
    assert_eq!(Probability::new(d(1.1)), Err(ProbabilityError(d(1.1))));
    assert!(Probability::new(d(f64::NAN)).is_err());
    assert!(Probability::new(d(f64::INFINITY)).is_err());
}

#[test]
fn at_least_is_reflexive_and_respects_order() {
    assert!(Probability::one().at_least(Probability::one()));
    assert!(Probability::one().at_least(Probability::zero()));
    assert!(!Probability::zero().at_least(Probability::one()));
}

#[test]
fn deserialize_enforces_the_invariant() {
    let ok: f64 = serde_json::from_str("0.25").unwrap();
    assert_eq!(Probability::new(d(ok)).ok(), Probability::new(d(0.25)).ok());
    let bad: f64 = serde_json::from_str("1.5").unwrap();
    assert!(Probability::new(d(bad)).is_err());
}

#[test]
fn a_probability_keeps_its_bits_and_orders_like_the_numbers() {
    let table = [
        0.0,
        f64::MIN_POSITIVE / 4.0,
        f64::MIN_POSITIVE,
        1e-300,
        0.1,
        0.25,
        0.3,
        0.9999999999999999,
        1.0,
    ];
    for (i, x) in table.iter().enumerate() {
        assert_eq!(p(*x).value().to_bits(), x.to_bits());
        for (j, y) in table.iter().enumerate() {
            assert_eq!(p(*x).at_least(p(*y)), x >= y);
            assert_eq!(p(*x) == p(*y), x == y);
            assert_eq!(p(*x) < p(*y), i < j);
            assert_eq!(p(*x).cmp(&p(*y)), x.total_cmp(y));
        }
    }
}

#[test]
fn the_zeros_are_one_probability() {
    let negative = Probability::new(d(-0.0)).unwrap();
    let zero = Probability::new(d(0.0)).unwrap();
    assert_eq!(negative, zero);
    assert_eq!(negative.cmp(&zero), Ordering::Equal);
    assert_eq!(negative.partial_cmp(&zero), Some(Ordering::Equal));
    assert!(negative.at_least(zero) && zero.at_least(negative));
    assert_eq!(negative.value().to_bits(), 0.0f64.to_bits());
}

#[test]
fn the_order_of_probabilities_agrees_with_equality_and_thresholds() {
    let table = [-0.0, 0.0, f64::MIN_POSITIVE / 4.0, 0.25, 0.9999999999999999, 1.0];
    for x in table {
        for y in table {
            let (a, b) = (p(x), p(y));
            assert_eq!(a.cmp(&b) == Ordering::Equal, a == b);
            assert_eq!(a.cmp(&b) != Ordering::Less, a.at_least(b));
            assert_eq!(Some(a.cmp(&b)), x.partial_cmp(&y));
        }
    }
}

#[test]
fn doubles_compare_as_numbers() {
    assert_eq!(d(0.0), d(-0.0));
    assert_ne!(d(f64::NAN), d(f64::NAN));
    assert_ne!(d(1.0), d(-1.0));
    assert_eq!(d(f64::INFINITY), d(f64::INFINITY));
    assert_ne!(d(f64::INFINITY), d(f64::MAX));
}

#[test]
fn a_probability_error_names_the_number_as_it_is_shown() {
    let error = Probability::new(d(1.7)).unwrap_err();
    assert_eq!(
        error.message("1.7"),
        "1.7 is not a probability: expected a number in [0, 1]"
    );
}

#[test]
fn thresholds_reject_review_above_deliver() {
    assert!(Thresholds::new(p(0.7), p(0.4)).is_ok());
    assert!(Thresholds::new(p(0.5), p(0.5)).is_ok());
    assert!(Thresholds::new(p(0.4), p(0.7)).is_err());
    let error = Thresholds::new(p(0.4), p(0.7)).unwrap_err();
    assert_eq!(
        error.message("0.7000", "0.4000"),
        "review threshold 0.7000 exceeds deliver threshold 0.4000"
    );
}

#[test]
fn dispose_maps_each_band_to_its_disposition() {
    let t = Thresholds::new(p(0.7), p(0.4)).unwrap_or(Thresholds::deliver_only(p(0.7)));
    let table = [
        (0.0, Disposition::Drop),
        (0.39, Disposition::Drop),
        (0.4, Disposition::Review),
        (0.69, Disposition::Review),
        (0.7, Disposition::Deliver),
        (1.0, Disposition::Deliver),
    ];
    for (value, expected) in table {
        assert_eq!(t.dispose(p(value)), expected, "p = {value}");
    }
}

#[test]
fn dispose_is_monotone() {
    let steps = [0.0, 0.1, 0.25, 0.4, 0.5, 0.7, 0.9, 1.0];
    for deliver in steps {
        for review in steps {
            let Ok(t) = Thresholds::new(p(deliver), p(review)) else {
                assert!(review > deliver);
                continue;
            };
            for pair in steps.windows(2) {
                assert!(t.dispose(p(pair[0])) <= t.dispose(p(pair[1])));
            }
        }
    }
    let only = Thresholds::deliver_only(p(0.5));
    assert_eq!(only.dispose(p(0.49)), Disposition::Drop);
    assert_eq!(only.deliver(), only.review());
}

#[test]
fn instructions_include_description_and_both_example_lists() {
    let Ok(id) = SubscriptionId::new("a") else {
        panic!("id is not empty");
    };
    let sub = Subscription::new(id, "billing problems", Thresholds::deliver_only(p(0.5)))
        .with_examples(&["my card was charged twice"])
        .with_counter_examples(&["how do I change my avatar"]);
    let text = sub.instructions();
    assert!(text.contains("billing problems"));
    assert!(text.contains("- my card was charged twice"));
    assert!(text.contains("do NOT match:\n- how do I change my avatar"));
    assert_eq!(
        text,
        "The message matches: billing problems\nExamples that match:\n- my card was charged twice\
         \nExamples that do NOT match:\n- how do I change my avatar"
    );
}

#[test]
fn instructions_without_examples_are_the_description_alone() {
    let id = SubscriptionId::new("a").unwrap();
    let sub = Subscription::new(id, "x", Thresholds::deliver_only(p(0.5)));
    assert_eq!(sub.instructions(), "The message matches: x");
    let more = sub.with_examples(&["1"]).with_examples(&["2", "3"]);
    assert_eq!(more.examples(), ["1", "2", "3"]);
    assert!(more.counter_examples().is_empty());
    assert_eq!(
        more.instructions(),
        "The message matches: x\nExamples that match:\n- 1\n- 2\n- 3"
    );
}

#[test]
fn durations_saturate_and_compare_by_length() {
    assert_eq!(Duration::from_millis(1_500), Duration::new(1, 500_000_000));
    assert_eq!(Duration::new(1, 2_000_000_001), Duration::new(3, 1));
    assert_eq!(
        Duration::from_millis(700).saturating_mul(3),
        Duration::from_millis(2_100)
    );
    let longest = Duration::new(u64::MAX, 999_999_999);
    assert_eq!(Duration::from_secs(u64::MAX).saturating_mul(2), longest);
    assert_eq!(longest.saturating_mul(1), longest);
    assert_eq!(longest.checked_add(Duration::new(0, 1)), None);
    assert_eq!(
        Duration::new(1, 600_000_000).checked_add(Duration::new(2, 700_000_000)),
        Some(Duration::new(4, 300_000_000))
    );
    assert_eq!(
        Duration::from_secs(1).min(Duration::from_millis(999)),
        Duration::from_millis(999)
    );
    assert!(Duration::zero().is_zero());
    assert_eq!(Duration::new(7, 8).as_secs(), 7);
    assert_eq!(Duration::new(7, 8).subsec_nanos(), 8);
}

#[test]
fn instants_move_forward() {
    let start = Instant::new(Duration::from_secs(5));
    let later = start.after(Duration::from_secs(1)).unwrap();
    assert!(start.is_before(later));
    assert!(!later.is_before(later));
    assert_eq!(start.after(Duration::new(u64::MAX, 0)), None);
}

#[test]
fn non_zero_integers_reject_zero_and_saturate() {
    assert_eq!(NonZeroU32::new(0), None);
    assert_eq!(NonZeroUsize::new(0), None);
    assert_eq!(NonZeroU32::one().saturating_add(4).get(), 5);
    assert_eq!(
        NonZeroU32::new(u32::MAX).unwrap().saturating_add(1).get(),
        u32::MAX
    );
    assert_eq!(NonZeroUsize::one().saturating_add(7).get(), 8);
}

#[test]
fn numerals_are_rendered_in_decimal_and_hex() {
    for n in [0u64, 9, 10, 429, 1_000_000, u64::MAX] {
        assert_eq!(decimal_text(n), n.to_string());
    }
    assert_eq!(hex_text(&[0x00, 0x0f, 0xa5, 0xff]), "000fa5ff");
}
