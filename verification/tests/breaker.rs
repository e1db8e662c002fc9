//! The circuit breaker.

use jevbus::breaker::Transient;
use jevbus::{Breaker, BreakerPolicy, Duration, NonZeroU32, Shared};

fn policy() -> BreakerPolicy {
    BreakerPolicy {
        failure_threshold: NonZeroU32::one().saturating_add(1),
        cooldown: Duration::from_secs(1),
        max_cooldown: Duration::from_secs(3),
    }
}

#[test]
fn closed_opens_exactly_at_the_failure_threshold() {
    let p = policy();
    let Ok(still_closed) = Breaker::new().fail(&p) else {
        panic!("one failure below threshold stays closed");
    };
    assert_eq!(still_closed.failures(), 1);
    let Err(open) = still_closed.fail(&p) else {
        panic!("second failure reaches the threshold");
    };
    assert_eq!(open.cooldown(), Duration::from_secs(1));
}

#[test]
fn half_open_failure_doubles_the_cooldown_up_to_the_cap() {
    let p = policy();
    let Err(open) = Breaker::new().fail(&p).and_then(|c| c.fail(&p)) else {
        panic!("two failures open the breaker");
    };
    let open = open.probe().fail(&p);
    assert_eq!(open.cooldown(), Duration::from_secs(2));
    let open = open.probe().fail(&p);
    assert_eq!(open.cooldown(), Duration::from_secs(3));
    let open = open.probe().fail(&p);
    assert_eq!(open.cooldown(), Duration::from_secs(3));
}

#[test]
fn half_open_success_closes_with_a_clean_count() {
    let p = policy();
    let Err(open) = Breaker::new().fail(&p).and_then(|c| c.fail(&p)) else {
        panic!("two failures open the breaker");
    };
    assert_eq!(open.probe().succeed().failures(), 0);
}

#[test]
fn shared_admit_returns_the_cooldown_once_and_makes_the_caller_the_probe() {
    let p = policy();
    let shared = Shared::new()
        .observe(&p, Err(Transient))
        .observe(&p, Err(Transient));
    assert!(shared.is_open());
    let (shared, wait) = shared.admit_attempt();
    assert_eq!(wait, Some(Duration::from_secs(1)));
    assert!(!shared.is_open());
    let (_, wait_again) = shared.admit_attempt();
    assert_eq!(wait_again, None);
}

#[test]
fn shared_success_from_any_state_yields_closed() {
    let p = policy();
    let open = Shared::new()
        .observe(&p, Err(Transient))
        .observe(&p, Err(Transient));
    assert_eq!(open.observe(&p, Ok(())), Shared::new());
    let (half, _) = open.admit_attempt();
    assert_eq!(half.observe(&p, Ok(())), Shared::new());
    assert_eq!(
        Shared::new()
            .observe(&p, Err(Transient))
            .observe(&p, Ok(())),
        Shared::new()
    );
}

#[test]
fn a_failure_reported_while_open_leaves_it_open() {
    let p = policy();
    let open = Shared::new()
        .observe(&p, Err(Transient))
        .observe(&p, Err(Transient));
    assert_eq!(open.observe(&p, Err(Transient)), open);
    let (half, _) = open.admit_attempt();
    let reopened = half.observe(&p, Err(Transient));
    assert_eq!(reopened.admit_attempt().1, Some(Duration::from_secs(2)));
    assert!(matches!(reopened.state(), Ok(Err(_))));
}

#[test]
fn the_first_cooldown_is_capped_too() {
    let p = BreakerPolicy {
        failure_threshold: NonZeroU32::one(),
        cooldown: Duration::from_secs(9),
        max_cooldown: Duration::from_secs(3),
    };
    let Err(open) = Breaker::new().fail(&p) else {
        panic!("one failure opens the breaker");
    };
    assert_eq!(open.cooldown(), Duration::from_secs(3));
}

#[test]
fn breaker_defaults() {
    let p = BreakerPolicy::default();
    assert_eq!(p.failure_threshold.get(), 5);
    assert_eq!(p.cooldown, Duration::from_secs(1));
    assert_eq!(p.max_cooldown, Duration::from_secs(30));
    assert_eq!(Breaker::default().failures(), 0);
    assert_eq!(Shared::default(), Shared::new());
}
