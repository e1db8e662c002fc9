//! The per-event state machine and the judge's errors.

use std::sync::Arc;

use jevbus::lifecycle::Judging;
use jevbus::{
    AnswerSet, Attempt, Attempts, Duration, Entry, Event, EventId, EventState, JudgeError,
    JudgeFailure, NonZeroU32, Payload, Policy, QuestionName, Recorded, RetryPolicy, RoutingError,
    Subscription, SubscriptionId, Thresholds, TrackedEvent,
};

fn policy(max: u32) -> RetryPolicy {
    RetryPolicy {
        attempts: NonZeroU32::new(max).map_or(Attempts::Unbounded, Attempts::Bounded),
        base_delay: Duration::from_millis(100),
        max_delay: Duration::from_millis(350),
        multiplier: 2,
        timeout: Duration::from_secs(1),
    }
}

fn transient() -> JudgeError {
    JudgeError::Unavailable {
        reason: "down".into(),
    }
}

fn permanent() -> JudgeError {
    JudgeError::Rejected {
        status: 401,
        message: "bad key".into(),
    }
}

fn begin() -> TrackedEvent<Judging> {
    let id = EventId::new("e").unwrap();
    TrackedEvent::begin(Arc::new(Event::new(id, Payload::new("x"))))
}

#[test]
fn transient_errors_are_transport_timeout_throttle_and_server_side() {
    let rejected = |status| JudgeError::Rejected {
        status,
        message: String::new(),
    };
    assert!(JudgeError::Unavailable {
        reason: String::new()
    }
    .is_transient());
    assert!(JudgeError::TimedOut {
        after: Duration::zero()
    }
    .is_transient());
    assert!(rejected(429).is_transient());
    assert!(rejected(503).is_transient());
    assert!(!rejected(400).is_transient());
    assert!(!rejected(401).is_transient());
    assert!(!JudgeError::MalformedReply {
        detail: String::new()
    }
    .is_transient());
}

#[test]
fn transient_statuses_have_exact_bounds() {
    let table = [
        (407, false),
        (408, true),
        (409, false),
        (428, false),
        (430, false),
        (499, false),
        (500, true),
        (599, true),
        (600, false),
    ];
    for (status, expected) in table {
        let error = JudgeError::Rejected {
            status,
            message: String::new(),
        };
        assert_eq!(error.is_transient(), expected, "status {status}");
    }
    let malformed = JudgeError::MalformedAnswer {
        question: QuestionName::new("q").unwrap(),
        detail: "bad".into(),
    };
    assert!(!malformed.is_transient());
}

#[test]
fn judge_errors_are_put_into_words() {
    assert_eq!(transient().message(), "judge unavailable: down");
    assert_eq!(
        permanent().message(),
        "judge rejected the request with status 401: bad key"
    );
    assert_eq!(
        JudgeError::MalformedAnswer {
            question: QuestionName::new("q").unwrap(),
            detail: "bad".into()
        }
        .message(),
        "malformed answer to q: bad"
    );
    assert_eq!(
        JudgeError::MalformedReply {
            detail: "html".into()
        }
        .message(),
        "malformed reply: html"
    );
    assert_eq!(
        JudgeError::TimedOut {
            after: Duration::from_millis(1_500)
        }
        .message(),
        format!(
            "judge timed out after {:?}",
            std::time::Duration::from_millis(1_500)
        )
    );
    assert_eq!(
        JudgeError::TimedOut {
            after: Duration::from_secs(5)
        }
        .message(),
        "judge timed out after 5s"
    );
    assert_eq!(
        JudgeFailure::from(RoutingError::MissingAnswer {
            question: QuestionName::new("q").unwrap()
        })
        .message(),
        "no answer to question q"
    );
    assert_eq!(JudgeFailure::from(permanent()).message(), permanent().message());
}

#[test]
fn delay_grows_geometrically_and_is_capped() {
    let p = policy(9);
    let a1 = Attempt::first();
    let a2 = a1.next();
    let a3 = a2.next();
    assert_eq!(p.delay_after(a1), Duration::from_millis(100));
    assert_eq!(p.delay_after(a2), Duration::from_millis(200));
    assert_eq!(p.delay_after(a3), Duration::from_millis(350));
}

#[test]
fn delay_is_monotone_and_bounded() {
    for (base, cap, multiplier) in [(1, 1, 1), (7, 5000, 3), (999, 1, 4), (1, 4999, 2)] {
        let p = RetryPolicy {
            attempts: Attempts::Unbounded,
            base_delay: Duration::from_millis(base),
            max_delay: Duration::from_millis(cap),
            multiplier,
            timeout: Duration::from_secs(1),
        };
        let mut a = Attempt::first();
        for _ in 0..40 {
            assert!(p.delay_after(a) <= p.delay_after(a.next()));
            assert!(p.delay_after(a) <= p.max_delay);
            a = a.next();
        }
    }
}

#[test]
fn a_factor_that_overflows_gives_the_cap() {
    let p = RetryPolicy {
        base_delay: Duration::zero(),
        ..policy(9)
    };
    let mut a = Attempt::first();
    for _ in 0..31 {
        assert_eq!(p.delay_after(a), Duration::zero());
        a = a.next();
    }
    // The factor is now 2^31; the next one does not fit.
    assert_eq!(p.delay_after(a), Duration::zero());
    assert_eq!(p.delay_after(a.next()), p.max_delay);
}

#[test]
fn a_multiplier_of_zero_keeps_the_delay() {
    let p = RetryPolicy {
        multiplier: 0,
        ..policy(9)
    };
    let a = Attempt::first();
    assert_eq!(p.delay_after(a), Duration::from_millis(100));
    assert_eq!(p.delay_after(a.next()), Duration::from_millis(100));
    assert_eq!(p.delay_after(a.next().next()), Duration::from_millis(100));
}

#[test]
fn conclude_retries_transient_errors_while_attempts_remain_then_fails() {
    let p = policy(3);
    // Judging(1) -> Retrying(1) -> Judging(2) -> Retrying(2) -> Judging(3) -> Failed(3)
    let Ok(Err(r1)) = begin().conclude(&p, Err(transient())) else {
        panic!("first transient failure must retry");
    };
    assert_eq!(r1.delay(), Duration::from_millis(100));
    let Ok(Err(r2)) = r1.resume().conclude(&p, Err(transient())) else {
        panic!("second transient failure must retry");
    };
    assert_eq!(r2.delay(), Duration::from_millis(200));
    let Err(failed) = r2.resume().conclude(&p, Err(transient())) else {
        panic!("third failure exhausts the budget");
    };
    assert_eq!(failed.attempts().get(), 3);
}

#[test]
fn conclude_fails_permanent_errors_at_once() {
    assert!(begin().conclude(&policy(9), Err(permanent())).is_err());
}

#[test]
fn conclude_with_answers_is_judged_and_records_the_attempt_count() {
    let Ok(Ok(judged)) = begin().conclude(&policy(9), Ok(AnswerSet::new())) else {
        panic!("answers must judge");
    };
    assert_eq!(
        judged.phase().state(),
        EventState::Judged {
            attempts: Attempt::first()
        }
    );
}

#[test]
fn unbounded_attempts_always_allow_another() {
    let p = policy(0);
    let far = (0..100).fold(begin(), |j, _| match j.conclude(&p, Err(transient())) {
        Ok(Err(r)) => r.resume(),
        _ => begin(),
    });
    assert_eq!(far.attempt().get(), 101);
}

#[test]
fn attempts_saturate_and_are_bounded() {
    assert_eq!(Attempt::first().get(), 1);
    assert_eq!(Attempt::first().next().get(), 2);
    let bounded = Attempts::Bounded(NonZeroU32::new(2).unwrap());
    assert!(bounded.allows_another(Attempt::first()));
    assert!(!bounded.allows_another(Attempt::first().next()));
}

#[test]
fn retry_defaults() {
    let p = RetryPolicy::default();
    assert_eq!(p.attempts, Attempts::Bounded(NonZeroU32::new(5).unwrap()));
    assert_eq!(p.base_delay, Duration::from_millis(200));
    assert_eq!(p.max_delay, Duration::from_secs(10));
    assert_eq!(p.multiplier, 2);
    assert_eq!(p.timeout, Duration::from_secs(5));
}

#[test]
fn the_machine_runs_from_judging_to_settled_or_failed() {
    let judging = begin();
    assert_eq!(
        judging.record().entry,
        Entry::Lifecycle(EventState::Judging {
            attempt: Attempt::first()
        })
    );
    let Ok(Ok(judged)) = judging.conclude(&policy(1), Ok(AnswerSet::new())) else {
        panic!("answers must judge");
    };
    let Ok(routed) = judged.decide(Policy::FanOut, &[]) else {
        panic!("nothing to route");
    };
    assert!(routed.verdicts().is_empty());
    let settled = routed.settle();
    assert_eq!(settled.attempts(), Attempt::first());
    assert_eq!(settled.record().entry, Entry::Lifecycle(EventState::Settled));
    assert_eq!(settled.record().event.as_str(), "e");

    let Ok(Ok(judged)) = begin().conclude(&policy(1), Ok(AnswerSet::new())) else {
        panic!("answers must judge");
    };
    let probability = jevbus::Probability::one();
    let sub = Subscription::new(
        SubscriptionId::new("s").unwrap(),
        "",
        Thresholds::deliver_only(probability),
    );
    let Err(failed) = judged.decide(Policy::FanOut, &[sub]) else {
        panic!("an answer is missing");
    };
    let cause = JudgeFailure::Routing(RoutingError::MissingAnswer {
        question: QuestionName::new("s").unwrap(),
    });
    assert_eq!(failed.cause(), &cause);
    let (event, attempts, parted) = failed.into_parts();
    assert_eq!(event.id().as_str(), "e");
    assert_eq!(attempts.get(), 1);
    assert_eq!(parted, cause);
}
