//! A circuit breaker shared by every in-flight judge call, encoded in types.
//!
//! Only an open breaker has a cooldown to wait and only an open breaker can
//! be probed; asking a closed one is a type error. [`Shared`] is the storage
//! boundary: a slot must hold "whichever state", so it is the sum of the
//! three, and its methods dispatch to the typed transitions.

use crate::lifecycle;
use crate::num::NonZeroU32;
use crate::time;
use crate::time::Duration;
use vstd::prelude::*;

verus! {

/// When to open, and for how long.
#[derive(Debug, Clone, Copy, PartialEq, Eq, Structural)]
pub struct BreakerPolicy {
    /// Consecutive failures that open the breaker.
    pub failure_threshold: NonZeroU32,
    /// Cooldown after the breaker first opens.
    pub cooldown: Duration,
    /// Upper bound on the cooldown as it doubles.
    pub max_cooldown: Duration,
}

impl Default for BreakerPolicy {
    fn default() -> (policy: BreakerPolicy)
        ensures
            policy.failure_threshold@ == 5,
            policy.cooldown@ == 1 * time::NANOS_PER_SEC,
            policy.max_cooldown@ == 30 * time::NANOS_PER_SEC,
    {
        BreakerPolicy {
            failure_threshold: NonZeroU32::one().saturating_add(4),
            cooldown: Duration::from_secs(1),
            max_cooldown: Duration::from_secs(30),
        }
    }
}

/// A breaker in state `S`.
#[derive(Debug, Clone, Copy, PartialEq, Eq, Structural)]
pub struct Breaker<S> {
    state: S,
}

/// Calls flow; counting consecutive failures.
#[derive(Debug, Clone, Copy, PartialEq, Eq, Structural)]
pub struct Closed {
    failures: u32,
}

/// Calls wait out the cooldown.
#[derive(Debug, Clone, Copy, PartialEq, Eq, Structural)]
pub struct Open {
    cooldown: Duration,
}

/// A probe is in flight; its result decides the next state.
#[derive(Debug, Clone, Copy, PartialEq, Eq, Structural)]
pub struct HalfOpen {
    cooldown: Duration,
}

/// A transient failure was observed.
#[derive(Debug, Clone, Copy, PartialEq, Eq, Structural)]
pub struct Transient;

/// Which state a breaker is in.
pub enum BreakerState {
    /// Calls flow; so many consecutive failures were seen.
    Closed(u32),
    /// Calls wait out a cooldown of so many nanoseconds.
    Open(nat),
    /// A probe is in flight; the cooldown before it was so many nanoseconds.
    HalfOpen(nat),
}

impl View for Breaker<Closed> {
    type V = u32;

    closed spec fn view(&self) -> u32 {
        self.state.failures
    }
}

impl View for Breaker<Open> {
    type V = nat;

    closed spec fn view(&self) -> nat {
        self.state.cooldown@
    }
}

impl View for Breaker<HalfOpen> {
    type V = nat;

    closed spec fn view(&self) -> nat {
        self.state.cooldown@
    }
}

/// The state after a closed breaker that has seen `failures` sees another one.
pub open spec fn closed_fails(policy: BreakerPolicy, failures: u32) -> BreakerState {
    let seen = lifecycle::following(failures);
    if seen >= policy.failure_threshold@ {
        BreakerState::Open(lifecycle::smaller(policy.cooldown@, policy.max_cooldown@))
    } else {
        BreakerState::Closed(seen)
    }
}

/// The cooldown after a probe failed that had waited out `cooldown`: twice as
/// long, within the cap.
pub open spec fn doubled(policy: BreakerPolicy, cooldown: nat) -> nat {
    lifecycle::smaller(lifecycle::smaller(cooldown * 2, time::longest()), policy.max_cooldown@)
}

impl Default for Breaker<Closed> {
    fn default() -> (breaker: Breaker<Closed>)
        ensures
            breaker@ == 0,
    {
        Breaker { state: Closed { failures: 0 } }
    }
}

impl Breaker<Closed> {
    /// A fresh, closed breaker.
    pub fn new() -> (breaker: Breaker<Closed>)
        ensures
            breaker@ == 0,
    {
        Breaker { state: Closed { failures: 0 } }
    }

    /// Consecutive failures so far.
    pub fn failures(self) -> (failures: u32)
        ensures
            failures == self@,
    {
        self.state.failures
    }

    /// A call succeeded.
    pub fn succeed(self) -> (breaker: Breaker<Closed>)
        ensures
            breaker@ == 0,
    {
        Breaker::new()
    }

    /// A call failed transiently. The breaker opens exactly when the threshold
    /// is reached.
    pub fn fail(self, policy: &BreakerPolicy) -> (next: Result<Breaker<Closed>, Breaker<Open>>)
        ensures
            closed_fails(*policy, self@) == match next {
                Ok(closed) => BreakerState::Closed(closed@),
                Err(open) => BreakerState::Open(open@),
            },
    {
        let failures: u32 = self.state.failures.saturating_add(1);
        if failures >= policy.failure_threshold.get() {
            Err(Breaker { state: Open { cooldown: policy.cooldown.min(policy.max_cooldown) } })
        } else {
            Ok(Breaker { state: Closed { failures } })
        }
    }
}

impl Breaker<Open> {
    /// How long callers wait.
    pub fn cooldown(self) -> (cooldown: Duration)
        ensures
            cooldown@ == self@,
    {
        self.state.cooldown
    }

    /// A caller has committed to waiting out the cooldown and probing.
    pub fn probe(self) -> (half: Breaker<HalfOpen>)
        ensures
            half@ == self@,
    {
        Breaker { state: HalfOpen { cooldown: self.state.cooldown } }
    }
}

impl Breaker<HalfOpen> {
    /// The probe succeeded.
    pub fn succeed(self) -> (breaker: Breaker<Closed>)
        ensures
            breaker@ == 0,
    {
        Breaker::new()
    }

    /// The probe failed: reopen with a doubled, capped cooldown.
    pub fn fail(self, policy: &BreakerPolicy) -> (open: Breaker<Open>)
        ensures
            open@ == doubled(*policy, self@),
    {
        Breaker {
            state: Open {
                cooldown: self.state.cooldown.saturating_mul(2).min(policy.max_cooldown),
            },
        }
    }
}

/// Whichever state the shared slot currently holds.
pub type AnyState = Result<Result<Breaker<Closed>, Breaker<Open>>, Breaker<HalfOpen>>;

/// The state that an [`AnyState`] holds.
pub open spec fn any_state(state: AnyState) -> BreakerState {
    match state {
        Ok(Ok(closed)) => BreakerState::Closed(closed@),
        Ok(Err(open)) => BreakerState::Open(open@),
        Err(half) => BreakerState::HalfOpen(half@),
    }
}

/// The storage boundary: the one place that holds a breaker of unknown state.
#[derive(Debug, Clone, Copy, PartialEq, Eq)]
pub struct Shared {
    slot: AnyState,
}

impl View for Shared {
    type V = BreakerState;

    closed spec fn view(&self) -> BreakerState {
        any_state(self.slot)
    }
}

/// The state after a caller is about to attempt.
pub open spec fn admitted(state: BreakerState) -> BreakerState {
    match state {
        BreakerState::Open(cooldown) => BreakerState::HalfOpen(cooldown),
        other => other,
    }
}

/// What a caller must wait before it attempts.
pub open spec fn wait_before(state: BreakerState) -> Option<nat> {
    match state {
        BreakerState::Open(cooldown) => Some(cooldown),
        _ => None,
    }
}

/// The state after an attempt's outcome is fed back.
pub open spec fn observed(
    policy: BreakerPolicy,
    state: BreakerState,
    outcome: Result<(), Transient>,
) -> BreakerState {
    match (state, outcome) {
        (_, Ok(())) => BreakerState::Closed(0),
        (BreakerState::Closed(failures), Err(_)) => closed_fails(policy, failures),
        (BreakerState::Open(cooldown), Err(_)) => BreakerState::Open(cooldown),
        (BreakerState::HalfOpen(cooldown), Err(_)) => BreakerState::Open(
            doubled(policy, cooldown),
        ),
    }
}

impl Default for Shared {
    fn default() -> (shared: Shared)
        ensures
            shared@ == BreakerState::Closed(0),
    {
        Shared { slot: Ok(Ok(Breaker::new())) }
    }
}

impl Shared {
    /// A closed breaker.
    pub fn new() -> (shared: Shared)
        ensures
            shared@ == BreakerState::Closed(0),
    {
        Shared { slot: Ok(Ok(Breaker::new())) }
    }

    /// The current state.
    pub fn state(self) -> (state: AnyState)
        ensures
            any_state(state) == self@,
    {
        self.slot
    }

    /// A caller is about to attempt. Returns the cooldown it must first
    /// wait, if any; an open breaker becomes half-open so that this caller's
    /// attempt is the probe.
    pub fn admit_attempt(self) -> (admission: (Shared, Option<Duration>))
        ensures
            admission.0@ == admitted(self@),
            wait_before(self@) == match admission.1 {
                Some(wait) => Some(wait@),
                None => None,
            },
    {
        match self.slot {
            Ok(Err(open)) => (Shared { slot: Err(open.probe()) }, Some(open.cooldown())),
            closed_or_half => (Shared { slot: closed_or_half }, None),
        }
    }

    /// Feeds back an attempt's outcome: `Ok(())` for success, `Err(Transient)`
    /// for a transient failure. Permanent failures say nothing about
    /// availability and must not be reported here.
    ///
    /// A failure reported while the breaker is open (a concurrent caller
    /// that started before it opened) leaves it open.
    pub fn observe(self, policy: &BreakerPolicy, outcome: Result<(), Transient>) -> (next: Shared)
        ensures
            next@ == observed(*policy, self@, outcome),
    {
        let slot = match (self.slot, outcome) {
            (Ok(Ok(closed)), Ok(())) => Ok(Ok(closed.succeed())),
            (Ok(Ok(closed)), Err(_)) => Ok(closed.fail(policy)),
            (Ok(Err(_)), Ok(())) => Ok(Ok(Breaker::new())),
            (Ok(Err(open)), Err(_)) => Ok(Err(open)),
            (Err(half), Ok(())) => Ok(Ok(half.succeed())),
            (Err(half), Err(_)) => Ok(Err(half.fail(policy))),
        };
        Shared { slot }
    }

    /// Semantic predicate: calls are currently blocked.
    pub fn is_open(self) -> (open: bool)
        ensures
            open <==> self@ is Open,
    {
        match self.slot {
            Ok(Err(_)) => true,
            _ => false,
        }
    }
}

/// A closed breaker has seen fewer failures than open it, and no cooldown
/// exceeds the cap.
pub open spec fn sound(policy: BreakerPolicy, state: BreakerState) -> bool {
    match state {
        BreakerState::Closed(failures) => failures < policy.failure_threshold@,
        BreakerState::Open(cooldown) => cooldown <= policy.max_cooldown@,
        BreakerState::HalfOpen(cooldown) => cooldown <= policy.max_cooldown@,
    }
}

/// The state after `count` transient failures in a row.
pub open spec fn after_failures(policy: BreakerPolicy, state: BreakerState, count: nat) -> BreakerState
    decreases count,
{
    if count == 0 {
        state
    } else {
        observed(policy, after_failures(policy, state, (count - 1) as nat), Err(Transient))
    }
}

/// Law: a fresh breaker is sound, and every transition keeps a breaker sound.
pub proof fn law_breaker_stays_sound(
    policy: BreakerPolicy,
    state: BreakerState,
    outcome: Result<(), Transient>,
)
    requires
        policy.failure_threshold@ > 0,
        sound(policy, state),
    ensures
        sound(policy, BreakerState::Closed(0)),
        sound(policy, admitted(state)),
        sound(policy, observed(policy, state, outcome)),
{
}

/// Law: a fresh breaker stays closed for one failure fewer than the threshold
/// and opens at the threshold, for the configured cooldown within the cap.
pub proof fn law_opens_exactly_at_the_threshold(policy: BreakerPolicy, count: nat)
    requires
        policy.failure_threshold@ > 0,
    ensures
        count < policy.failure_threshold@ ==> after_failures(
            policy,
            BreakerState::Closed(0),
            count,
        ) == BreakerState::Closed(count as u32),
        count >= policy.failure_threshold@ ==> after_failures(
            policy,
            BreakerState::Closed(0),
            count,
        ) == BreakerState::Open(lifecycle::smaller(policy.cooldown@, policy.max_cooldown@)),
    decreases count,
{
    if count > 0 {
        law_opens_exactly_at_the_threshold(policy, (count - 1) as nat);
    }
}

/// Law: a success closes the breaker with a clean count, whatever it was.
pub proof fn law_success_closes(policy: BreakerPolicy, state: BreakerState)
    ensures
        observed(policy, state, Ok(())) == BreakerState::Closed(0),
        observed(policy, admitted(state), Ok(())) == BreakerState::Closed(0),
{
}

/// Law: an open breaker makes one caller wait, and that caller's attempt is
/// the probe: nobody waits again until it is answered. A failed probe reopens
/// the breaker for twice the cooldown, within the cap.
pub proof fn law_one_caller_probes(policy: BreakerPolicy, cooldown: nat)
    requires
        cooldown <= policy.max_cooldown@,
        policy.max_cooldown@ <= time::longest(),
    ensures
        wait_before(BreakerState::Open(cooldown)) == Some(cooldown),
        wait_before(admitted(BreakerState::Open(cooldown))) == None::<nat>,
        admitted(admitted(BreakerState::Open(cooldown))) == admitted(BreakerState::Open(cooldown)),
        observed(policy, admitted(BreakerState::Open(cooldown)), Err(Transient))
            == BreakerState::Open(lifecycle::smaller(2 * cooldown, policy.max_cooldown@)),
{
}

/// Law: failures in a row are counted one by one, and the one that reaches the
/// threshold opens the breaker for the cooldown, up to the cap. While it is open
/// a failure of a call that began earlier changes nothing. A failed probe
/// reopens it for twice as long, up to the cap.
pub proof fn law_each_failure_counts_once(
    policy: BreakerPolicy,
    failures: u32,
    cooldown: nat,
)
    requires
        failures < u32::MAX,
        policy.max_cooldown@ <= time::longest(),
    ensures
        failures + 1 < policy.failure_threshold@ ==> observed(
            policy,
            BreakerState::Closed(failures),
            Err(Transient),
        ) == BreakerState::Closed((failures + 1) as u32),
        failures + 1 >= policy.failure_threshold@ ==> (observed(
            policy,
            BreakerState::Closed(failures),
            Err(Transient),
        ) matches BreakerState::Open(wait) && wait == vstd::math::min(
            policy.cooldown@ as int,
            policy.max_cooldown@ as int,
        )),
        observed(policy, BreakerState::Open(cooldown), Err(Transient)) == BreakerState::Open(
            cooldown,
        ),
        observed(
            policy,
            BreakerState::HalfOpen(cooldown),
            Err(Transient),
        ) matches BreakerState::Open(wait) && wait == vstd::math::min(
            2 * (cooldown as int),
            policy.max_cooldown@ as int,
        ),
{
}

/// Law: only an open breaker makes anyone wait, and only for its cooldown; the
/// one that waits is the probe. A closed breaker, and one whose probe is under
/// way, let everyone pass and stay as they are.
pub proof fn law_only_an_open_breaker_holds_back(failures: u32, cooldown: nat)
    ensures
        wait_before(BreakerState::Closed(failures)) is None,
        admitted(BreakerState::Closed(failures)) == BreakerState::Closed(failures),
        wait_before(BreakerState::HalfOpen(cooldown)) is None,
        admitted(BreakerState::HalfOpen(cooldown)) == BreakerState::HalfOpen(cooldown),
        wait_before(BreakerState::Open(cooldown)) == Some(cooldown),
        admitted(BreakerState::Open(cooldown)) == BreakerState::HalfOpen(cooldown),
{
}

/// Law: a shared breaker is seen in the state that it holds: a closed one with
/// its failures, an open one and one whose probe is under way with their
/// cooldown.
pub proof fn law_a_breaker_is_seen_in_its_state(
    closed: Breaker<Closed>,
    open: Breaker<Open>,
    half: Breaker<HalfOpen>,
)
    ensures
        any_state(Ok(Ok(closed))) == BreakerState::Closed(closed@),
        any_state(Ok(Err(open))) == BreakerState::Open(open@),
        any_state(Err(half)) == BreakerState::HalfOpen(half@),
{
}

} // verus!
