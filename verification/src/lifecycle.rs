//! The per-event state machine, encoded in types.
//!
//! Each phase is a distinct type, so `settle` on a retrying event or `resume`
//! on a settled one does not compile. Where the next phase depends on a
//! runtime result the transition returns a nested `Result`.
//!
//! The ledger stores a data view of each phase, [`EventState`]; the machine
//! itself never inspects that view.

use crate::event;
use crate::event::Event;
use crate::judge;
use crate::judge::JudgeError;
use crate::ledger;
use crate::ledger::{Entry, JudgeFailure, Record};
use crate::num::NonZeroU32;
use crate::ordered;
use crate::question;
use crate::question::AnswerSet;
use crate::routing;
use crate::routing::{Policy, Verdict};
use crate::subscription::Subscription;
use crate::time;
use crate::time::Duration;
use std::sync::Arc;
use vstd::arithmetic::power::*;
use vstd::prelude::*;

verus! {

/// A 1-based attempt counter.
///
/// Its view is the attempt number.
#[derive(Debug, Clone, Copy, PartialEq, Eq, PartialOrd, Ord, Hash, Structural)]
pub struct Attempt {
    number: NonZeroU32,
}

impl View for Attempt {
    type V = u32;

    closed spec fn view(&self) -> u32 {
        self.number@
    }
}

/// The attempt number that follows `done`, at most `u32::MAX`.
pub open spec fn following(done: u32) -> u32 {
    if done < u32::MAX {
        (done + 1) as u32
    } else {
        done
    }
}

impl Attempt {
    /// The first attempt.
    pub fn first() -> (attempt: Attempt)
        ensures
            attempt@ == 1,
    {
        Attempt { number: NonZeroU32::one() }
    }

    /// The following attempt. Saturates at `u32::MAX`.
    pub fn next(self) -> (attempt: Attempt)
        ensures
            attempt@ == following(self@),
    {
        Attempt { number: self.number.saturating_add(1) }
    }

    /// The attempt number, starting at 1.
    pub fn get(self) -> (number: u32)
        ensures
            number == self@,
            number > 0,
    {
        self.number.get()
    }
}

/// How many attempts an event may consume.
#[derive(Debug, Clone, Copy, PartialEq, Eq, Structural)]
pub enum Attempts {
    /// At most this many.
    Bounded(NonZeroU32),
    /// Keep retrying transient failures until one succeeds. Backpressure,
    /// not loss, is the answer to a long outage.
    Unbounded,
}

/// After `done` attempts, another one is allowed.
pub open spec fn another_allowed(attempts: Attempts, done: u32) -> bool {
    match attempts {
        Attempts::Bounded(max) => done < max@,
        Attempts::Unbounded => true,
    }
}

impl Attempts {
    /// Semantic predicate: after `done` attempts, another one is allowed.
    pub fn allows_another(self, done: Attempt) -> (allowed: bool)
        ensures
            allowed == another_allowed(self, done@),
    {
        match self {
            Attempts::Bounded(max) => done.get() < max.get(),
            Attempts::Unbounded => true,
        }
    }
}

/// Retry and timeout policy for judge calls.
#[derive(Debug, Clone, Copy, PartialEq, Eq, Structural)]
pub struct RetryPolicy {
    /// Attempt budget per event.
    pub attempts: Attempts,
    /// Delay before the second attempt.
    pub base_delay: Duration,
    /// Upper bound on any delay.
    pub max_delay: Duration,
    /// Growth factor between consecutive delays. Zero counts as one.
    pub multiplier: u32,
    /// Limit on one judge call.
    pub timeout: Duration,
}

impl Default for RetryPolicy {
    fn default() -> (policy: RetryPolicy)
        ensures
            policy.attempts matches Attempts::Bounded(max) && max@ == 5,
            policy.base_delay@ == 200 * time::NANOS_PER_MILLI,
            policy.max_delay@ == 10 * time::NANOS_PER_SEC,
            policy.multiplier == 2,
            policy.timeout@ == 5 * time::NANOS_PER_SEC,
    {
        RetryPolicy {
            attempts: Attempts::Bounded(NonZeroU32::one().saturating_add(4)),
            base_delay: Duration::from_millis(200),
            max_delay: Duration::from_secs(10),
            multiplier: 2,
            timeout: Duration::from_secs(5),
        }
    }
}

/// The smaller of two numbers.
pub open spec fn smaller(a: nat, b: nat) -> nat {
    if a <= b {
        a
    } else {
        b
    }
}

/// What a delay grows by: the multiplier, but never less than one, since delays
/// do not shrink.
pub open spec fn growth(policy: RetryPolicy) -> u32 {
    if policy.multiplier == 0 {
        1
    } else {
        policy.multiplier
    }
}

/// The delay, in nanoseconds, before the attempt that follows attempt number
/// `done`: the base delay times the growth to the power of the attempts before
/// `done`, within the cap. A factor that no `u32` holds gives the cap.
pub open spec fn delay_of(policy: RetryPolicy, done: u32) -> nat {
    let factor = pow(growth(policy) as int, (done - 1) as nat);
    if factor > u32::MAX {
        policy.max_delay@
    } else {
        smaller(
            smaller((policy.base_delay@ * factor) as nat, time::longest()),
            policy.max_delay@,
        )
    }
}

/// `u32::checked_pow`: the power where a `u32` holds it, else nothing.
pub assume_specification[ u32::checked_pow ](base: u32, exp: u32) -> (power: Option<u32>)
    ensures
        power == if pow(base as int, exp as nat) <= u32::MAX {
            Some(pow(base as int, exp as nat) as u32)
        } else {
            None
        },
;

impl RetryPolicy {
    /// Delay before the attempt following `done`.
    pub fn delay_after(&self, done: Attempt) -> (delay: Duration)
        ensures
            delay@ == delay_of(*self, done@),
    {
        let exponent: u32 = done.get().saturating_sub(1);
        let growth: u32 = if self.multiplier == 0 {
            1
        } else {
            self.multiplier
        };
        let grown = match growth.checked_pow(exponent) {
            Some(factor) => {
                proof {
                    lemma_pow_nonnegative(growth as nat, exponent as nat);
                }
                self.base_delay.saturating_mul(factor)
            },
            None => self.max_delay,
        };
        grown.min(self.max_delay)
    }
}

proof fn lemma_pow_nonnegative(base: nat, exponent: nat)
    ensures
        pow(base as int, exponent) >= 0,
    decreases exponent,
{
    reveal(pow);
    if exponent > 0 {
        lemma_pow_nonnegative(base, (exponent - 1) as nat);
        assert(base * pow(base as int, (exponent - 1) as nat) >= 0) by (nonlinear_arith)
            requires
                pow(base as int, (exponent - 1) as nat) >= 0,
        ;
    }
}

/// Law (bounded): no delay exceeds the cap.
pub proof fn law_delay_is_bounded(policy: RetryPolicy, done: u32)
    ensures
        delay_of(policy, done) <= policy.max_delay@,
{
}

/// Law (monotone): a later attempt waits no less than an earlier one.
pub proof fn law_delay_is_monotone(policy: RetryPolicy, done: u32)
    requires
        done > 0,
    ensures
        delay_of(policy, done) <= delay_of(policy, following(done)),
{
    if done < u32::MAX {
        let m = growth(policy) as int;
        let e = (done - 1) as nat;
        let base = policy.base_delay@;
        let (now, later) = (pow(m, e), pow(m, (e + 1) as nat));
        reveal(pow);
        assert(later == m * now);
        lemma_pow_nonnegative(growth(policy) as nat, e);
        assert(now <= later) by (nonlinear_arith)
            requires
                m >= 1,
                now >= 0,
                later == m * now,
        ;
        assert(0 <= base * now <= base * later) by (nonlinear_arith)
            requires
                0 <= now <= later,
                base >= 0,
        ;
    }
}

/// The data view of a phase, as written to the ledger.
#[derive(Debug, PartialEq)]
#[allow(inconsistent_fields)]
pub enum EventState {
    /// A judge call is in flight.
    Judging {
        /// Which attempt.
        attempt: Attempt,
    },
    /// The last attempt failed transiently; waiting to try again.
    Retrying {
        /// The attempt that failed.
        attempt: Attempt,
        /// How long the bus waits before the next attempt.
        delay: Duration,
        /// Why the attempt failed.
        cause: JudgeError,
    },
    /// Answers were obtained; verdicts follow.
    Judged {
        /// Attempts consumed.
        attempts: Attempt,
    },
    /// No verdicts will be reached. The event goes to the dead-letter stream.
    Failed {
        /// Attempts consumed.
        attempts: Attempt,
        /// The final cause.
        cause: JudgeFailure,
    },
    /// Every verdict has been acted on and recorded.
    Settled,
}

/// What an [`EventState`] stands for.
#[verifier::ext_equal]
#[allow(inconsistent_fields)]
pub enum EventStateView {
    /// A judge call is in flight.
    Judging { attempt: u32 },
    /// The last attempt failed transiently; waiting, so many nanoseconds, to
    /// try again.
    Retrying { attempt: u32, delay: nat, cause: judge::JudgeErrorView },
    /// Answers were obtained.
    Judged { attempts: u32 },
    /// No verdicts will be reached.
    Failed { attempts: u32, cause: ledger::JudgeFailureView },
    /// Every verdict has been acted on and recorded.
    Settled,
}

impl View for EventState {
    type V = EventStateView;

    open spec fn view(&self) -> EventStateView {
        match *self {
            EventState::Judging { attempt } => EventStateView::Judging { attempt: attempt@ },
            EventState::Retrying { attempt, delay, cause } => EventStateView::Retrying {
                attempt: attempt@,
                delay: delay@,
                cause: cause@,
            },
            EventState::Judged { attempts } => EventStateView::Judged { attempts: attempts@ },
            EventState::Failed { attempts, cause } => EventStateView::Failed {
                attempts: attempts@,
                cause: cause@,
            },
            EventState::Settled => EventStateView::Settled,
        }
    }
}

impl Clone for EventState {
    fn clone(&self) -> (copy: EventState)
        ensures
            copy == *self,
    {
        match self {
            EventState::Judging { attempt } => EventState::Judging { attempt: *attempt },
            EventState::Retrying { attempt, delay, cause } => EventState::Retrying {
                attempt: *attempt,
                delay: *delay,
                cause: cause.clone(),
            },
            EventState::Judged { attempts } => EventState::Judged { attempts: *attempts },
            EventState::Failed { attempts, cause } => EventState::Failed {
                attempts: *attempts,
                cause: cause.clone(),
            },
            EventState::Settled => EventState::Settled,
        }
    }
}

/// A second handle to a shared event: `Arc::clone`, which points to the same
/// event as the handle it is given.
#[verifier::external_body]
pub(crate) fn share(event: &Arc<Event>) -> (same: Arc<Event>)
    ensures
        same == *event,
{
    Arc::clone(event)
}

/// What a [`TrackedEvent`] stands for.
#[verifier::ext_equal]
pub struct TrackedView<P> {
    /// The event.
    pub event: event::EventView,
    /// The phase's witness data.
    pub phase: P,
}

/// An event together with the phase it is in.
#[derive(Debug)]
pub struct TrackedEvent<P> {
    event: Arc<Event>,
    phase: P,
}

impl<P: View> View for TrackedEvent<P> {
    type V = TrackedView<P::V>;

    closed spec fn view(&self) -> TrackedView<P::V> {
        TrackedView { event: self.event@, phase: self.phase@ }
    }
}

/// A judge call is in flight. Its view is the attempt number.
#[derive(Debug)]
pub struct Judging {
    attempt: Attempt,
}

impl View for Judging {
    type V = u32;

    closed spec fn view(&self) -> u32 {
        self.attempt@
    }
}

/// What [`Retrying`] stands for.
#[verifier::ext_equal]
pub struct RetryingView {
    /// The attempt that failed.
    pub attempt: u32,
    /// Nanoseconds to wait before the next one.
    pub delay: nat,
    /// Why the attempt failed.
    pub cause: judge::JudgeErrorView,
}

/// Waiting to try again.
#[derive(Debug)]
pub struct Retrying {
    attempt: Attempt,
    delay: Duration,
    cause: JudgeError,
}

impl View for Retrying {
    type V = RetryingView;

    closed spec fn view(&self) -> RetryingView {
        RetryingView { attempt: self.attempt@, delay: self.delay@, cause: self.cause@ }
    }
}

/// What [`Judged`] stands for.
#[verifier::ext_equal]
pub struct JudgedView {
    /// Attempts consumed.
    pub attempts: u32,
    /// The answers.
    pub answers: Map<Seq<char>, question::AnswerView>,
}

/// Answers obtained.
#[derive(Debug)]
pub struct Judged {
    attempts: Attempt,
    answers: AnswerSet,
}

impl View for Judged {
    type V = JudgedView;

    closed spec fn view(&self) -> JudgedView {
        JudgedView { attempts: self.attempts@, answers: self.answers@ }
    }
}

/// What [`Routed`] stands for.
#[verifier::ext_equal]
pub struct RoutedView {
    /// Attempts consumed.
    pub attempts: u32,
    /// One verdict per subscription.
    pub verdicts: Seq<routing::VerdictView>,
}

/// Verdicts reached; deliveries pending.
#[derive(Debug)]
pub struct Routed {
    attempts: Attempt,
    verdicts: Vec<Verdict>,
}

impl View for Routed {
    type V = RoutedView;

    closed spec fn view(&self) -> RoutedView {
        RoutedView { attempts: self.attempts@, verdicts: ordered::views(self.verdicts@) }
    }
}

/// What [`Failed`] stands for.
#[verifier::ext_equal]
pub struct FailedView {
    /// Attempts consumed.
    pub attempts: u32,
    /// The final cause.
    pub cause: ledger::JudgeFailureView,
}

/// Given up.
#[derive(Debug)]
pub struct Failed {
    attempts: Attempt,
    cause: JudgeFailure,
}

impl View for Failed {
    type V = FailedView;

    closed spec fn view(&self) -> FailedView {
        FailedView { attempts: self.attempts@, cause: self.cause@ }
    }
}

/// Done. Its view is the attempts consumed.
#[derive(Debug)]
pub struct Settled {
    attempts: Attempt,
}

impl View for Settled {
    type V = u32;

    closed spec fn view(&self) -> u32 {
        self.attempts@
    }
}

/// A phase the ledger records.
///
/// `Routed` is deliberately not one: its content is written as one row per
/// subscription by the bus.
pub trait Recorded: View + Sized {
    /// The data view of a phase.
    spec fn state_of(phase: Self::V) -> EventStateView;

    /// The data view.
    fn state(&self) -> (state: EventState)
        ensures
            state@ == Self::state_of(self@),
    ;
}

impl Recorded for Judging {
    open spec fn state_of(phase: u32) -> EventStateView {
        EventStateView::Judging { attempt: phase }
    }

    fn state(&self) -> (state: EventState) {
        EventState::Judging { attempt: self.attempt }
    }
}

impl Recorded for Retrying {
    open spec fn state_of(phase: RetryingView) -> EventStateView {
        EventStateView::Retrying { attempt: phase.attempt, delay: phase.delay, cause: phase.cause }
    }

    fn state(&self) -> (state: EventState) {
        EventState::Retrying {
            attempt: self.attempt,
            delay: self.delay,
            cause: self.cause.clone(),
        }
    }
}

impl Recorded for Judged {
    open spec fn state_of(phase: JudgedView) -> EventStateView {
        EventStateView::Judged { attempts: phase.attempts }
    }

    fn state(&self) -> (state: EventState) {
        EventState::Judged { attempts: self.attempts }
    }
}

impl Recorded for Failed {
    open spec fn state_of(phase: FailedView) -> EventStateView {
        EventStateView::Failed { attempts: phase.attempts, cause: phase.cause }
    }

    fn state(&self) -> (state: EventState) {
        EventState::Failed { attempts: self.attempts, cause: self.cause.clone() }
    }
}

impl Recorded for Settled {
    open spec fn state_of(phase: u32) -> EventStateView {
        EventStateView::Settled
    }

    fn state(&self) -> (state: EventState) {
        EventState::Settled
    }
}

/// Failed for good, or waiting to retry, or judged.
pub type Concluded = Result<
    Result<TrackedEvent<Judged>, TrackedEvent<Retrying>>,
    TrackedEvent<Failed>,
>;

/// Failed for good, or routed.
pub type Decided = Result<TrackedEvent<Routed>, TrackedEvent<Failed>>;

/// Where an attempt leads.
#[verifier::ext_equal]
pub enum Conclusion {
    /// Answers obtained.
    Judged(JudgedView),
    /// Waiting to try again.
    Retrying(RetryingView),
    /// Given up.
    Failed(FailedView),
}

/// What an attempt brought, by its view.
pub open spec fn result_view(result: Result<AnswerSet, JudgeError>) -> Result<
    Map<Seq<char>, question::AnswerView>,
    judge::JudgeErrorView,
> {
    match result {
        Ok(answers) => Ok(answers@),
        Err(error) => Err(error@),
    }
}

/// Where attempt number `attempt` leads when it brings `result`: answers are
/// judged; a transient error is retried while the policy allows another
/// attempt; every other error is final.
pub open spec fn conclusion(
    policy: RetryPolicy,
    attempt: u32,
    result: Result<Map<Seq<char>, question::AnswerView>, judge::JudgeErrorView>,
) -> Conclusion {
    match result {
        Ok(answers) => Conclusion::Judged(JudgedView { attempts: attempt, answers }),
        Err(cause) => if judge::transient(cause) && another_allowed(policy.attempts, attempt) {
            Conclusion::Retrying(
                RetryingView { attempt, delay: delay_of(policy, attempt), cause },
            )
        } else {
            Conclusion::Failed(
                FailedView { attempts: attempt, cause: ledger::JudgeFailureView::Judge(cause) },
            )
        },
    }
}

/// `concluded` holds `event` in the phase that `expected` names.
pub open spec fn reached(
    concluded: Concluded,
    event: event::EventView,
    expected: Conclusion,
) -> bool {
    match concluded {
        Ok(Ok(judged)) => judged@.event == event && expected == Conclusion::Judged(judged@.phase),
        Ok(Err(retrying)) => retrying@.event == event && expected == Conclusion::Retrying(
            retrying@.phase,
        ),
        Err(failed) => failed@.event == event && expected == Conclusion::Failed(failed@.phase),
    }
}

impl<P: View> TrackedEvent<P> {
    /// The event.
    pub fn event(&self) -> (event: &Arc<Event>)
        ensures
            event@ == self@.event,
    {
        &self.event
    }

    /// The phase's witness data.
    pub fn phase(&self) -> (phase: &P)
        ensures
            phase@ == self@.phase,
    {
        &self.phase
    }

    fn into_phase<Q: View>(self, phase: Q) -> (moved: TrackedEvent<Q>)
        ensures
            moved@.event == self@.event,
            moved@.phase == phase@,
    {
        TrackedEvent { event: self.event, phase }
    }
}

/// The ledger row for an event in a recorded phase.
pub open spec fn phase_row<P: Recorded>(tracked_event: TrackedView<P::V>) -> ledger::RecordView {
    ledger::RecordView {
        event: tracked_event.event.id,
        entry: ledger::EntryView::Lifecycle(P::state_of(tracked_event.phase)),
    }
}

impl<P: Recorded> TrackedEvent<P> {
    /// The ledger row for the current phase.
    pub fn record(&self) -> (row: Record)
        ensures
            row@ == phase_row::<P>(self@),
    {
        Record {
            event: self.event.id().clone(),
            entry: Entry::Lifecycle(self.phase.state()),
        }
    }
}

impl TrackedEvent<Judging> {
    /// Enters the machine at the first attempt.
    pub fn begin(event: Arc<Event>) -> (judging: TrackedEvent<Judging>)
        ensures
            judging@ == (TrackedView { event: event@, phase: 1u32 }),
    {
        TrackedEvent { event, phase: Judging { attempt: Attempt::first() } }
    }

    /// The attempt in flight.
    pub fn attempt(&self) -> (attempt: Attempt)
        ensures
            attempt@ == self@.phase,
    {
        self.phase.attempt
    }

    /// Consumes the attempt's result.
    pub fn conclude(self, policy: &RetryPolicy, result: Result<AnswerSet, JudgeError>) -> (concluded:
        Concluded)
        ensures
            reached(
                concluded,
                self@.event,
                conclusion(*policy, self@.phase, result_view(result)),
            ),
    {
        let attempt = self.phase.attempt;
        match result {
            Ok(answers) => Ok(Ok(self.into_phase(Judged { attempts: attempt, answers }))),
            Err(cause) => {
                if cause.is_transient() && policy.attempts.allows_another(attempt) {
                    Ok(
                        Err(
                            self.into_phase(
                                Retrying { attempt, delay: policy.delay_after(attempt), cause },
                            ),
                        ),
                    )
                } else {
                    Err(
                        self.into_phase(
                            Failed { attempts: attempt, cause: JudgeFailure::Judge(cause) },
                        ),
                    )
                }
            },
        }
    }
}

impl TrackedEvent<Retrying> {
    /// How long to wait before resuming.
    pub fn delay(&self) -> (delay: Duration)
        ensures
            delay@ == self@.phase.delay,
    {
        self.phase.delay
    }

    /// Starts the next attempt.
    pub fn resume(self) -> (judging: TrackedEvent<Judging>)
        ensures
            judging@ == (TrackedView {
                event: self@.event,
                phase: following(self@.phase.attempt),
            }),
    {
        let attempt = self.phase.attempt.next();
        self.into_phase(Judging { attempt })
    }
}

/// `outcome` holds `judged`'s event, routed by what its answers decide or
/// failed for the reason they give.
pub open spec fn decided_from(
    outcome: Decided,
    judged: TrackedView<JudgedView>,
    expected: Result<Seq<routing::VerdictView>, routing::RoutingErrorView>,
) -> bool {
    match (outcome, expected) {
        (Ok(routed), Ok(verdicts)) => routed@ == (TrackedView {
            event: judged.event,
            phase: RoutedView { attempts: judged.phase.attempts, verdicts },
        }),
        (Err(failed), Err(error)) => failed@ == (TrackedView {
            event: judged.event,
            phase: FailedView {
                attempts: judged.phase.attempts,
                cause: ledger::JudgeFailureView::Routing(error),
            },
        }),
        _ => false,
    }
}

impl TrackedEvent<Judged> {
    /// The answers.
    pub fn answers(&self) -> (answers: &AnswerSet)
        ensures
            answers@ == self@.phase.answers,
    {
        &self.phase.answers
    }

    /// Turns answers into verdicts, or fails if they do not fit the plan.
    pub fn decide(self, policy: Policy, subscriptions: &[Subscription]) -> (outcome: Decided)
        ensures
            decided_from(
                outcome,
                self@,
                routing::decided(policy, ordered::views(subscriptions@), self@.phase.answers),
            ),
    {
        let attempts = self.phase.attempts;
        match routing::decide(policy, subscriptions, &self.phase.answers) {
            Ok(verdicts) => Ok(self.into_phase(Routed { attempts, verdicts })),
            Err(cause) => Err(
                self.into_phase(Failed { attempts, cause: JudgeFailure::Routing(cause) }),
            ),
        }
    }
}

impl TrackedEvent<Routed> {
    /// One verdict per subscription, in registration order.
    pub fn verdicts(&self) -> (verdicts: &[Verdict])
        ensures
            ordered::views(verdicts@) == self@.phase.verdicts,
    {
        self.phase.verdicts.as_slice()
    }

    /// All deliveries have been offered and recorded.
    pub fn settle(self) -> (settled: TrackedEvent<Settled>)
        ensures
            settled@ == (TrackedView { event: self@.event, phase: self@.phase.attempts }),
    {
        let attempts = self.phase.attempts;
        self.into_phase(Settled { attempts })
    }
}

impl TrackedEvent<Failed> {
    /// Attempts consumed.
    pub fn attempts(&self) -> (attempts: Attempt)
        ensures
            attempts@ == self@.phase.attempts,
    {
        self.phase.attempts
    }

    /// The final cause.
    pub fn cause(&self) -> (cause: &JudgeFailure)
        ensures
            cause@ == self@.phase.cause,
    {
        &self.phase.cause
    }

    /// Leaves the machine with what a dead letter needs.
    pub fn into_parts(self) -> (parts: (Arc<Event>, Attempt, JudgeFailure))
        ensures
            parts.0@ == self@.event,
            parts.1@ == self@.phase.attempts,
            parts.2@ == self@.phase.cause,
    {
        (self.event, self.phase.attempts, self.phase.cause)
    }
}

impl TrackedEvent<Settled> {
    /// Attempts consumed.
    pub fn attempts(&self) -> (attempts: Attempt)
        ensures
            attempts@ == self@.phase,
    {
        self.phase.attempts
    }
}

/// Law (geometric): the first delay is the base delay, and each further one is
/// the multiplier times the one before, both up to the cap. A multiplier of
/// zero counts as one. Once the factor no longer fits, the delay is the cap.
pub proof fn law_delays_grow_by_the_multiplier(policy: RetryPolicy, done: u32)
    requires
        0 < done < u32::MAX,
        policy.max_delay@ <= time::longest(),
    ensures
        ({
            let cap = policy.max_delay@ as int;
            let m = if policy.multiplier == 0 {
                1int
            } else {
                policy.multiplier as int
            };
            let now = delay_of(policy, done) as int;
            let next = delay_of(policy, (done + 1) as u32) as int;
            &&& delay_of(policy, 1) == vstd::math::min(policy.base_delay@ as int, cap)
            &&& pow(m, done as nat) <= u32::MAX ==> next == vstd::math::min(m * now, cap)
            &&& pow(m, done as nat) > u32::MAX ==> next == cap
        }),
{
    let cap = policy.max_delay@ as int;
    let m = growth(policy) as int;
    let e = (done - 1) as nat;
    let base = policy.base_delay@ as int;
    let (f, g) = (pow(m, e), pow(m, done as nat));
    assert(pow(m, 0) == 1) by {
        reveal(pow);
    }
    assert(g == m * f) by {
        reveal(pow);
    }
    lemma_pow_nonnegative(growth(policy) as nat, e);
    assert(f <= g) by (nonlinear_arith)
        requires
            m >= 1,
            f >= 0,
            g == m * f,
    ;
    assert(base * g == m * (base * f)) by (nonlinear_arith)
        requires
            g == m * f,
    ;
    assert(base * f >= 0) by (nonlinear_arith)
        requires
            base >= 0,
            f >= 0,
    ;
    if g <= u32::MAX {
        if base * f <= cap {
        } else {
            assert(m * (base * f) > cap) by (nonlinear_arith)
                requires
                    base * f > cap,
                    m >= 1,
                    cap >= 0,
            ;
            assert(m * cap >= cap) by (nonlinear_arith)
                requires
                    m >= 1,
                    cap >= 0,
            ;
        }
    }
}

/// Law: attempts are counted one by one, and the budget allows another exactly
/// while fewer than its bound are done.
pub proof fn law_attempts_are_counted_one_by_one(max: NonZeroU32, done: u32)
    ensures
        done < u32::MAX ==> following(done) == done + 1,
        following(u32::MAX) == u32::MAX,
        another_allowed(Attempts::Bounded(max), done) <==> done < max@,
        another_allowed(Attempts::Unbounded, done),
{
}

/// Law: an attempt concludes as its result says. Answers are kept as they are,
/// with the attempts that they took. A failure that another attempt may mend is
/// retried after the delay for that attempt, while the budget lasts; any other
/// failure is final, and is kept as the cause.
pub proof fn law_an_attempt_concludes_as_its_result_says(
    policy: RetryPolicy,
    attempt: u32,
    answers: Map<Seq<char>, question::AnswerView>,
    cause: judge::JudgeErrorView,
)
    ensures
        conclusion(policy, attempt, Ok(answers)) matches Conclusion::Judged(judged)
            && judged.attempts == attempt && judged.answers == answers,
        ({
            let budget_left = match policy.attempts {
                Attempts::Bounded(max) => attempt < max@,
                Attempts::Unbounded => true,
            };
            match conclusion(policy, attempt, Err(cause)) {
                Conclusion::Judged(_) => false,
                Conclusion::Retrying(retrying) => judge::transient(cause) && budget_left
                    && retrying.attempt == attempt && retrying.cause == cause && retrying.delay
                    == delay_of(policy, attempt),
                Conclusion::Failed(failed) => !(judge::transient(cause) && budget_left)
                    && failed.attempts == attempt && failed.cause
                    == ledger::JudgeFailureView::Judge(cause),
            }
        }),
{
}

/// Law: what concluding gives back is the event in the phase that its result
/// calls for, and no other.
pub proof fn law_concluding_moves_the_event_on(
    concluded: Concluded,
    event: event::EventView,
    expected: Conclusion,
)
    requires
        reached(concluded, event, expected),
    ensures
        match expected {
            Conclusion::Judged(phase) => concluded matches Ok(Ok(judged)) && judged@ == (
            TrackedView { event, phase }),
            Conclusion::Retrying(phase) => concluded matches Ok(Err(retrying)) && retrying@ == (
            TrackedView { event, phase }),
            Conclusion::Failed(phase) => concluded matches Err(failed) && failed@ == (
            TrackedView { event, phase }),
        },
{
}

/// Law: deciding takes the event on with its verdicts, or fails it with what was
/// wrong with its answers; the attempts are kept.
pub proof fn law_deciding_moves_the_event_on(
    outcome: Decided,
    judged: TrackedView<JudgedView>,
    expected: Result<Seq<routing::VerdictView>, routing::RoutingErrorView>,
)
    requires
        decided_from(outcome, judged, expected),
    ensures
        match expected {
            Ok(verdicts) => outcome matches Ok(routed) && routed@.event == judged.event
                && routed@.phase.verdicts == verdicts && routed@.phase.attempts
                == judged.phase.attempts,
            Err(error) => outcome matches Err(failed) && failed@.event == judged.event
                && failed@.phase.cause == ledger::JudgeFailureView::Routing(error)
                && failed@.phase.attempts == judged.phase.attempts,
        },
{
}

/// Law: the row of a phase names the event, and says what the phase knows:
/// which attempt, how long the wait, why, and how many attempts it took.
pub proof fn law_rows_say_what_the_phase_knows(
    event: event::EventView,
    attempt: u32,
    retrying: RetryingView,
    judged: JudgedView,
    failed: FailedView,
)
    ensures
        phase_row::<Judging>(TrackedView { event, phase: attempt }) == (ledger::RecordView {
            event: event.id,
            entry: ledger::EntryView::Lifecycle(EventStateView::Judging { attempt }),
        }),
        phase_row::<Retrying>(TrackedView { event, phase: retrying }) == (ledger::RecordView {
            event: event.id,
            entry: ledger::EntryView::Lifecycle(
                EventStateView::Retrying {
                    attempt: retrying.attempt,
                    delay: retrying.delay,
                    cause: retrying.cause,
                },
            ),
        }),
        phase_row::<Judged>(TrackedView { event, phase: judged }) == (ledger::RecordView {
            event: event.id,
            entry: ledger::EntryView::Lifecycle(
                EventStateView::Judged { attempts: judged.attempts },
            ),
        }),
        phase_row::<Failed>(TrackedView { event, phase: failed }) == (ledger::RecordView {
            event: event.id,
            entry: ledger::EntryView::Lifecycle(
                EventStateView::Failed { attempts: failed.attempts, cause: failed.cause },
            ),
        }),
        phase_row::<Settled>(TrackedView { event, phase: attempt }) == (ledger::RecordView {
            event: event.id,
            entry: ledger::EntryView::Lifecycle(EventStateView::Settled),
        }),
{
}

} // verus!
