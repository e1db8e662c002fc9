//! An event's walk through the judge: `Judging` and `Retrying` until `Judged`
//! or `Failed`.
//!
//! Each step of a [`Walk`] names one effect, which the caller performs, and
//! consumes what came of it; a step cannot be answered twice, or with the
//! answer to another effect. The phases are types (see [`crate::lifecycle`]);
//! what stands between the transitions is sleeping, calling the judge,
//! recording and the breaker.

use crate::breaker;
use crate::breaker::{BreakerPolicy, Shared, Transient};
use crate::bus;
use crate::bus::{BusConfig, RunError};
use crate::event;
use crate::event::{Event, Payload};
use crate::judge;
use crate::judge::JudgeError;
use crate::ledger;
use crate::ledger::{Entry, LedgerError, Record};
use crate::lifecycle;
use crate::lifecycle::{Failed, Judged, Judging, Retrying, TrackedEvent};
use crate::ordered::replicas;
use crate::question;
use crate::question::AnswerSet;
use crate::time::Duration;
use std::sync::Arc;
use vstd::prelude::*;

verus! {

/// Where the judge phase leaves an event.
pub type JudgePhase = Result<TrackedEvent<Judged>, TrackedEvent<Failed>>;

/// What a [`JudgePhase`] stands for.
pub type JudgePhaseView = Result<
    lifecycle::TrackedView<lifecycle::JudgedView>,
    lifecycle::TrackedView<lifecycle::FailedView>,
>;

/// The answers, or the error, that an attempt brought.
pub type ReplyView = Result<Map<Seq<char>, question::AnswerView>, judge::JudgeErrorView>;

/// A judge phase by its view.
pub open spec fn phase_view(phase: JudgePhase) -> JudgePhaseView {
    match phase {
        Ok(judged) => Ok(judged@),
        Err(failed) => Err(failed@),
    }
}

/// What came of writing a row, by its view.
pub open spec fn written_view(written: Result<(), LedgerError>) -> Result<
    (),
    ledger::LedgerErrorView,
> {
    match written {
        Ok(()) => Ok(()),
        Err(error) => Err(error@),
    }
}

/// What follows a row of the judge phase.
pub enum AfterRow {
    /// The lineage is recorded: the event enters the machine.
    Begin(Arc<Event>),
    /// The attempt is recorded: ask the judge.
    Ask(TrackedEvent<Judging>),
    /// The failed attempt is recorded: wait.
    Wait(TrackedEvent<Retrying>),
    /// The answers are recorded: the judge phase is over.
    Finish(TrackedEvent<Judged>),
}

/// What an [`AfterRow`] stands for.
#[verifier::ext_equal]
pub enum AfterRowView {
    /// The event enters the machine.
    Begin(event::EventView),
    /// Ask the judge.
    Ask(lifecycle::TrackedView<u32>),
    /// Wait before the next attempt.
    Wait(lifecycle::TrackedView<lifecycle::RetryingView>),
    /// The judge phase is over.
    Finish(lifecycle::TrackedView<lifecycle::JudgedView>),
}

impl View for AfterRow {
    type V = AfterRowView;

    open spec fn view(&self) -> AfterRowView {
        match *self {
            AfterRow::Begin(event) => AfterRowView::Begin(event@),
            AfterRow::Ask(judging) => AfterRowView::Ask(judging@),
            AfterRow::Wait(retrying) => AfterRowView::Wait(retrying@),
            AfterRow::Finish(judged) => AfterRowView::Finish(judged@),
        }
    }
}

/// What follows a sleep.
pub enum AfterSleep {
    /// The cooldown is over: record the attempt.
    Attempt(TrackedEvent<Judging>),
    /// The delay is over: start the next attempt.
    Resume(TrackedEvent<Retrying>),
}

/// What an [`AfterSleep`] stands for.
#[verifier::ext_equal]
pub enum AfterSleepView {
    /// Record the attempt.
    Attempt(lifecycle::TrackedView<u32>),
    /// Start the next attempt.
    Resume(lifecycle::TrackedView<lifecycle::RetryingView>),
}

impl View for AfterSleep {
    type V = AfterSleepView;

    open spec fn view(&self) -> AfterSleepView {
        match *self {
            AfterSleep::Attempt(judging) => AfterSleepView::Attempt(judging@),
            AfterSleep::Resume(retrying) => AfterSleepView::Resume(retrying@),
        }
    }
}

/// Append a row to the ledger.
pub struct RecordStep {
    row: Record,
    after: AfterRow,
}

/// Consult the breaker before an attempt.
pub struct GateStep {
    judging: TrackedEvent<Judging>,
}

/// Sleep for a while.
pub struct SleepStep {
    span: Duration,
    after: AfterSleep,
}

/// Ask the judge about the event's payload, within the retry policy's timeout.
pub struct AskStep {
    judging: TrackedEvent<Judging>,
}

/// Feed an attempt's result back into the breaker.
pub struct NoteStep {
    judging: TrackedEvent<Judging>,
    result: Result<AnswerSet, JudgeError>,
}

/// The next step of one event through the judge.
pub enum Walk {
    /// Append a row to the ledger.
    Record(RecordStep),
    /// Consult the breaker.
    Gate(GateStep),
    /// Sleep for a while.
    Sleep(SleepStep),
    /// Ask the judge.
    Ask(AskStep),
    /// Feed the result back into the breaker.
    Note(NoteStep),
    /// The judge phase is over.
    Finished(JudgePhase),
    /// The run stops.
    Stopped(RunError),
}

/// What a [`RecordStep`] stands for.
#[verifier::ext_equal]
pub struct RecordStepView {
    /// The row to append.
    pub row: ledger::RecordView,
    /// What follows.
    pub after: AfterRowView,
}

/// What a [`SleepStep`] stands for.
#[verifier::ext_equal]
pub struct SleepStepView {
    /// How many nanoseconds to sleep.
    pub span: nat,
    /// What follows.
    pub after: AfterSleepView,
}

/// What a [`NoteStep`] stands for.
#[verifier::ext_equal]
pub struct NoteStepView {
    /// The attempt in flight.
    pub judging: lifecycle::TrackedView<u32>,
    /// What it brought.
    pub result: ReplyView,
}

/// What a [`Walk`] stands for.
#[verifier::ext_equal]
pub enum WalkView {
    /// Append a row to the ledger.
    Record(RecordStepView),
    /// Consult the breaker.
    Gate(lifecycle::TrackedView<u32>),
    /// Sleep for a while.
    Sleep(SleepStepView),
    /// Ask the judge.
    Ask(lifecycle::TrackedView<u32>),
    /// Feed the result back into the breaker.
    Note(NoteStepView),
    /// The judge phase is over.
    Finished(JudgePhaseView),
    /// The run stops.
    Stopped(bus::RunErrorView),
}

impl View for RecordStep {
    type V = RecordStepView;

    closed spec fn view(&self) -> RecordStepView {
        RecordStepView { row: self.row@, after: self.after@ }
    }
}

impl View for GateStep {
    type V = lifecycle::TrackedView<u32>;

    closed spec fn view(&self) -> lifecycle::TrackedView<u32> {
        self.judging@
    }
}

impl View for SleepStep {
    type V = SleepStepView;

    closed spec fn view(&self) -> SleepStepView {
        SleepStepView { span: self.span@, after: self.after@ }
    }
}

impl View for AskStep {
    type V = lifecycle::TrackedView<u32>;

    closed spec fn view(&self) -> lifecycle::TrackedView<u32> {
        self.judging@
    }
}

impl View for NoteStep {
    type V = NoteStepView;

    closed spec fn view(&self) -> NoteStepView {
        NoteStepView { judging: self.judging@, result: lifecycle::result_view(self.result) }
    }
}

impl View for Walk {
    type V = WalkView;

    open spec fn view(&self) -> WalkView {
        match *self {
            Walk::Record(step) => WalkView::Record(step@),
            Walk::Gate(step) => WalkView::Gate(step@),
            Walk::Sleep(step) => WalkView::Sleep(step@),
            Walk::Ask(step) => WalkView::Ask(step@),
            Walk::Note(step) => WalkView::Note(step@),
            Walk::Finished(phase) => WalkView::Finished(phase_view(phase)),
            Walk::Stopped(error) => WalkView::Stopped(error@),
        }
    }
}

/// The row that records the lineage of a merged event.
pub open spec fn lineage_row(event: event::EventView) -> ledger::RecordView {
    ledger::RecordView {
        event: event.id,
        entry: ledger::EntryView::Composed { parts: event.parts },
    }
}

/// The first step: a merged event first has its lineage recorded.
pub open spec fn walk_start(event: event::EventView) -> WalkView {
    if event.parts.len() > 0 {
        WalkView::Record(
            RecordStepView { row: lineage_row(event), after: AfterRowView::Begin(event) },
        )
    } else {
        WalkView::Gate(lifecycle::TrackedView { event, phase: 1u32 })
    }
}

/// Record an attempt, then ask.
pub open spec fn attempt_step(judging: lifecycle::TrackedView<u32>) -> WalkView {
    WalkView::Record(
        RecordStepView {
            row: lifecycle::phase_row::<Judging>(judging),
            after: AfterRowView::Ask(judging),
        },
    )
}

/// The step after a row was written, or could not be.
pub open spec fn after_row(
    after: AfterRowView,
    written: Result<(), ledger::LedgerErrorView>,
) -> WalkView {
    match written {
        Err(error) => WalkView::Stopped(bus::RunErrorView::Ledger(error)),
        Ok(()) => match after {
            AfterRowView::Begin(event) => WalkView::Gate(
                lifecycle::TrackedView { event, phase: 1u32 },
            ),
            AfterRowView::Ask(judging) => WalkView::Ask(judging),
            AfterRowView::Wait(retrying) => WalkView::Sleep(
                SleepStepView {
                    span: retrying.phase.delay,
                    after: AfterSleepView::Resume(retrying),
                },
            ),
            AfterRowView::Finish(judged) => WalkView::Finished(Ok(judged)),
        },
    }
}

/// The step after the breaker was consulted and asked for `wait`.
pub open spec fn after_gate(judging: lifecycle::TrackedView<u32>, wait: Option<nat>) -> WalkView {
    match wait {
        Some(span) => WalkView::Sleep(
            SleepStepView { span, after: AfterSleepView::Attempt(judging) },
        ),
        None => attempt_step(judging),
    }
}

/// The step after a sleep.
pub open spec fn after_sleep(after: AfterSleepView) -> WalkView {
    match after {
        AfterSleepView::Attempt(judging) => attempt_step(judging),
        AfterSleepView::Resume(retrying) => WalkView::Gate(
            lifecycle::TrackedView {
                event: retrying.event,
                phase: lifecycle::following(retrying.phase.attempt),
            },
        ),
    }
}

/// What an attempt brought: no reply within the limit is a timeout.
pub open spec fn reply_or_timeout(config: BusConfig, reply: Option<ReplyView>) -> ReplyView {
    match reply {
        Some(result) => result,
        None => Err(judge::JudgeErrorView::TimedOut { after: config.retry.timeout@ }),
    }
}

/// The breaker hears of successes and of transient failures. A permanent error
/// says nothing about availability.
pub open spec fn notable(result: ReplyView) -> bool {
    match result {
        Ok(_) => true,
        Err(error) => judge::transient(error),
    }
}

/// The breaker after it heard of `result`, if it did.
pub open spec fn noted(
    policy: BreakerPolicy,
    state: breaker::BreakerState,
    result: ReplyView,
) -> breaker::BreakerState {
    match result {
        Ok(_) => breaker::observed(policy, state, Ok(())),
        Err(error) => if judge::transient(error) {
            breaker::observed(policy, state, Err(Transient))
        } else {
            state
        },
    }
}

/// The step after an attempt was concluded.
pub open spec fn concluded_step(
    config: BusConfig,
    judging: lifecycle::TrackedView<u32>,
    result: ReplyView,
) -> WalkView {
    let event = judging.event;
    match lifecycle::conclusion(config.retry, judging.phase, result) {
        lifecycle::Conclusion::Judged(phase) => {
            let judged = lifecycle::TrackedView { event, phase };
            WalkView::Record(
                RecordStepView {
                    row: lifecycle::phase_row::<Judged>(judged),
                    after: AfterRowView::Finish(judged),
                },
            )
        },
        lifecycle::Conclusion::Retrying(phase) => {
            let retrying = lifecycle::TrackedView { event, phase };
            WalkView::Record(
                RecordStepView {
                    row: lifecycle::phase_row::<Retrying>(retrying),
                    after: AfterRowView::Wait(retrying),
                },
            )
        },
        lifecycle::Conclusion::Failed(phase) => WalkView::Finished(
            Err(lifecycle::TrackedView { event, phase }),
        ),
    }
}

/// The step after the judge replied, or let the limit pass.
pub open spec fn after_ask(
    config: BusConfig,
    judging: lifecycle::TrackedView<u32>,
    reply: Option<ReplyView>,
) -> WalkView {
    let result = reply_or_timeout(config, reply);
    if notable(result) {
        WalkView::Note(NoteStepView { judging, result })
    } else {
        concluded_step(config, judging, result)
    }
}

/// A reply by its view.
pub open spec fn reply_view(reply: Option<Result<AnswerSet, JudgeError>>) -> Option<ReplyView> {
    match reply {
        Some(result) => Some(lifecycle::result_view(result)),
        None => None,
    }
}

/// Consults the breaker before an attempt. Returns the cooldown to wait, if
/// any; see [`Shared::admit_attempt`].
pub fn gate(slot: &mut Shared) -> (wait: Option<Duration>)
    ensures
        final(slot)@ == breaker::admitted(old(slot)@),
        breaker::wait_before(old(slot)@) == match wait {
            Some(span) => Some(span@),
            None => None,
        },
{
    let (next, wait) = slot.admit_attempt();
    *slot = next;
    wait
}

/// Feeds an attempt's result back into the breaker. Only transient failures
/// count against it: a permanent error says nothing about availability.
pub fn note(slot: &mut Shared, policy: &BreakerPolicy, result: &Result<AnswerSet, JudgeError>)
    ensures
        final(slot)@ == noted(*policy, old(slot)@, lifecycle::result_view(*result)),
{
    match result {
        Ok(_) => {
            *slot = slot.observe(policy, Ok(()));
        },
        Err(cause) => {
            if cause.is_transient() {
                *slot = slot.observe(policy, Err(Transient));
            }
        },
    }
}

/// Records an attempt, then asks.
fn attempt(judging: TrackedEvent<Judging>) -> (next: Walk)
    ensures
        next@ == attempt_step(judging@),
{
    let row = judging.record();
    Walk::Record(RecordStep { row, after: AfterRow::Ask(judging) })
}

/// Concludes an attempt.
fn conclude(
    config: &BusConfig,
    judging: TrackedEvent<Judging>,
    result: Result<AnswerSet, JudgeError>,
) -> (next: Walk)
    ensures
        next@ == concluded_step(*config, judging@, lifecycle::result_view(result)),
{
    match judging.conclude(&config.retry, result) {
        Ok(Ok(judged)) => {
            let row = judged.record();
            Walk::Record(RecordStep { row, after: AfterRow::Finish(judged) })
        },
        Ok(Err(retrying)) => {
            let row = retrying.record();
            Walk::Record(RecordStep { row, after: AfterRow::Wait(retrying) })
        },
        Err(failed) => Walk::Finished(Err(failed)),
    }
}

impl Walk {
    /// Sends an event on its way to the judge.
    pub fn start(event: Event) -> (next: Walk)
        ensures
            next@ == walk_start(event@),
    {
        let event = Arc::new(event);
        if event.is_composite() {
            let row = Record {
                event: event.id().clone(),
                entry: Entry::Composed { parts: replicas(event.parts()) },
            };
            Walk::Record(RecordStep { row, after: AfterRow::Begin(event) })
        } else {
            Walk::Gate(GateStep { judging: TrackedEvent::begin(event) })
        }
    }
}

impl RecordStep {
    /// The row to append.
    pub fn row(&self) -> (row: Record)
        ensures
            row@ == self@.row,
    {
        self.row.clone()
    }

    /// The row was written, or could not be.
    pub fn recorded(self, written: Result<(), LedgerError>) -> (next: Walk)
        ensures
            next@ == after_row(self@.after, written_view(written)),
    {
        if let Err(error) = written {
            return Walk::Stopped(RunError::Ledger(error));
        }
        match self.after {
            AfterRow::Begin(event) => Walk::Gate(
                GateStep { judging: TrackedEvent::begin(event) },
            ),
            AfterRow::Ask(judging) => Walk::Ask(AskStep { judging }),
            AfterRow::Wait(retrying) => Walk::Sleep(
                SleepStep { span: retrying.delay(), after: AfterSleep::Resume(retrying) },
            ),
            AfterRow::Finish(judged) => Walk::Finished(Ok(judged)),
        }
    }
}

impl GateStep {
    /// Consults the breaker in `slot`.
    pub fn consult(self, slot: &mut Shared) -> (next: Walk)
        ensures
            final(slot)@ == breaker::admitted(old(slot)@),
            next@ == after_gate(self@, breaker::wait_before(old(slot)@)),
    {
        match gate(slot) {
            Some(span) => Walk::Sleep(
                SleepStep { span, after: AfterSleep::Attempt(self.judging) },
            ),
            None => attempt(self.judging),
        }
    }

    /// The breaker's lock was poisoned.
    pub fn poisoned(self) -> (next: Walk)
        ensures
            next@ == WalkView::Stopped(bus::RunErrorView::BreakerPoisoned),
    {
        Walk::Stopped(RunError::BreakerPoisoned)
    }
}

impl SleepStep {
    /// How long to sleep.
    pub fn span(&self) -> (span: Duration)
        ensures
            span@ == self@.span,
    {
        self.span
    }

    /// The time has passed.
    pub fn slept(self) -> (next: Walk)
        ensures
            next@ == after_sleep(self@.after),
    {
        match self.after {
            AfterSleep::Attempt(judging) => attempt(judging),
            AfterSleep::Resume(retrying) => Walk::Gate(GateStep { judging: retrying.resume() }),
        }
    }
}

impl AskStep {
    /// What the judge is asked about.
    pub fn payload(&self) -> (payload: &Payload)
        ensures
            payload@ == self@.event.payload,
    {
        self.judging.event().payload()
    }

    /// How long the judge may take: an attempt that takes longer counts as timed
    /// out.
    pub fn limit(&self, config: &BusConfig) -> (limit: Duration)
        ensures
            limit@ == config.retry.timeout@,
    {
        config.retry.timeout
    }

    /// The judge replied, or did not within the limit.
    pub fn answered(
        self,
        config: &BusConfig,
        reply: Option<Result<AnswerSet, JudgeError>>,
    ) -> (next: Walk)
        ensures
            next@ == after_ask(*config, self@, reply_view(reply)),
    {
        let result = match reply {
            Some(result) => result,
            None => Err(JudgeError::TimedOut { after: config.retry.timeout }),
        };
        let heard = match &result {
            Ok(_) => true,
            Err(cause) => cause.is_transient(),
        };
        if heard {
            Walk::Note(NoteStep { judging: self.judging, result })
        } else {
            conclude(config, self.judging, result)
        }
    }
}

impl NoteStep {
    /// Tells the breaker in `slot`.
    pub fn note(self, config: &BusConfig, slot: &mut Shared) -> (next: Walk)
        ensures
            final(slot)@ == noted(config.breaker, old(slot)@, self@.result),
            next@ == concluded_step(*config, self@.judging, self@.result),
    {
        self::note(slot, &config.breaker, &self.result);
        conclude(config, self.judging, self.result)
    }

    /// The breaker's lock was poisoned.
    pub fn poisoned(self) -> (next: Walk)
        ensures
            next@ == WalkView::Stopped(bus::RunErrorView::BreakerPoisoned),
    {
        Walk::Stopped(RunError::BreakerPoisoned)
    }
}

/// The attempt number is one that the policy allows.
pub open spec fn within_budget(config: BusConfig, attempt: u32) -> bool {
    attempt > 0 && match config.retry.attempts {
        lifecycle::Attempts::Bounded(max) => attempt <= max@,
        lifecycle::Attempts::Unbounded => true,
    }
}

/// What is true of every step of a walk: a row says what follows it, no attempt
/// exceeds the budget, only a transient failure with budget left is waited
/// out, and only another failure of the judge is given up on.
pub open spec fn walk_sound(config: BusConfig, walk: WalkView) -> bool {
    match walk {
        WalkView::Record(step) => match step.after {
            AfterRowView::Begin(event) => event.parts.len() > 0 && step.row == lineage_row(event),
            AfterRowView::Ask(judging) => within_budget(config, judging.phase) && step.row
                == lifecycle::phase_row::<Judging>(judging),
            AfterRowView::Wait(retrying) => worth_waiting(config, retrying.phase) && step.row
                == lifecycle::phase_row::<Retrying>(retrying),
            AfterRowView::Finish(judged) => within_budget(config, judged.phase.attempts)
                && step.row == lifecycle::phase_row::<Judged>(judged),
        },
        WalkView::Gate(judging) => within_budget(config, judging.phase),
        WalkView::Sleep(step) => match step.after {
            AfterSleepView::Attempt(judging) => within_budget(config, judging.phase),
            AfterSleepView::Resume(retrying) => worth_waiting(config, retrying.phase) && step.span
                == retrying.phase.delay,
        },
        WalkView::Ask(judging) => within_budget(config, judging.phase),
        WalkView::Note(step) => within_budget(config, step.judging.phase) && notable(step.result),
        WalkView::Finished(Ok(judged)) => within_budget(config, judged.phase.attempts),
        WalkView::Finished(Err(failed)) => within_budget(config, failed.phase.attempts) && (
        failed.phase.cause matches ledger::JudgeFailureView::Judge(cause) && !(judge::transient(
            cause,
        ) && lifecycle::another_allowed(config.retry.attempts, failed.phase.attempts))),
        WalkView::Stopped(_) => true,
    }
}

/// The failure is transient, the budget allows another attempt, and the delay
/// is the policy's.
pub open spec fn worth_waiting(config: BusConfig, phase: lifecycle::RetryingView) -> bool {
    &&& within_budget(config, phase.attempt)
    &&& judge::transient(phase.cause)
    &&& lifecycle::another_allowed(config.retry.attempts, phase.attempt)
    &&& phase.delay == lifecycle::delay_of(config.retry, phase.attempt)
}

/// `after` is the step that follows `before` for some answer to its effect.
pub open spec fn walk_follows(config: BusConfig, before: WalkView, after: WalkView) -> bool {
    let poisoned = WalkView::Stopped(bus::RunErrorView::BreakerPoisoned);
    match before {
        WalkView::Record(step) => exists|written: Result<(), ledger::LedgerErrorView>|
            after == #[trigger] after_row(step.after, written),
        WalkView::Gate(judging) => after == poisoned || exists|wait: Option<nat>|
            after == #[trigger] after_gate(judging, wait),
        WalkView::Sleep(step) => after == after_sleep(step.after),
        WalkView::Ask(judging) => exists|reply: Option<ReplyView>|
            after == #[trigger] after_ask(config, judging, reply),
        WalkView::Note(step) => after == poisoned || after == concluded_step(
            config,
            step.judging,
            step.result,
        ),
        WalkView::Finished(_) => false,
        WalkView::Stopped(_) => false,
    }
}

/// Law: every walk starts sound, and every step of it keeps it sound.
pub proof fn law_walk_stays_sound(
    config: BusConfig,
    event: event::EventView,
    before: WalkView,
    after: WalkView,
)
    requires
        config.retry.attempts matches lifecycle::Attempts::Bounded(max) ==> max@ > 0,
        walk_sound(config, before),
        walk_follows(config, before, after),
    ensures
        walk_sound(config, walk_start(event)),
        walk_sound(config, after),
{
}

/// The attempts that are left after `attempt` within `max`, and none of them yet
/// begun.
pub open spec fn attempts_left(max: u32, attempt: u32) -> int {
    10 * (max - attempt)
}

/// No fewer steps than a walk takes from this one on where the judge is asked
/// at most `max` times.
pub open spec fn steps_left(max: u32, walk: WalkView) -> int {
    match walk {
        WalkView::Record(step) => match step.after {
            AfterRowView::Begin(_) => attempts_left(max, 1) + 9,
            AfterRowView::Ask(judging) => attempts_left(max, judging.phase) + 6,
            AfterRowView::Wait(retrying) => attempts_left(max, retrying.phase.attempt) + 3,
            AfterRowView::Finish(_) => 1,
        },
        WalkView::Gate(judging) => attempts_left(max, judging.phase) + 8,
        WalkView::Sleep(step) => match step.after {
            AfterSleepView::Attempt(judging) => attempts_left(max, judging.phase) + 7,
            AfterSleepView::Resume(retrying) => attempts_left(max, retrying.phase.attempt) + 2,
        },
        WalkView::Ask(judging) => attempts_left(max, judging.phase) + 5,
        WalkView::Note(step) => attempts_left(max, step.judging.phase) + 4,
        WalkView::Finished(_) => 0,
        WalkView::Stopped(_) => 0,
    }
}

/// Law: where the attempts are bounded every walk ends, whatever the judge, the
/// breaker and the ledger answer.
pub proof fn law_bounded_walks_end(config: BusConfig, max: u32, before: WalkView, after: WalkView)
    requires
        config.retry.attempts matches lifecycle::Attempts::Bounded(bound) && bound@ == max,
        max > 0,
        walk_sound(config, before),
        walk_follows(config, before, after),
    ensures
        0 <= steps_left(max, after) < steps_left(max, before),
{
    law_walk_stays_sound(config, arbitrary(), before, after);
}

/// Law: an open breaker makes an event wait, and waiting costs no attempt: after
/// the cooldown the same attempt is made.
pub proof fn law_waiting_out_the_breaker_costs_no_attempt(
    judging: lifecycle::TrackedView<u32>,
    cooldown: nat,
)
    ensures
        ({
            let waiting = after_gate(
                judging,
                breaker::wait_before(breaker::BreakerState::Open(cooldown)),
            );
            &&& waiting matches WalkView::Sleep(sleep) && sleep.span == cooldown
            &&& after_sleep(waiting->Sleep_0.after) == after_gate(judging, None)
        }),
{
}

/// Law: a failing judge never stops the run. A step that stops it follows a
/// row that could not be written, or a poisoned breaker.
pub proof fn law_only_ledger_and_lock_stop_a_walk(
    config: BusConfig,
    before: WalkView,
    after: WalkView,
)
    requires
        walk_follows(config, before, after),
        after is Stopped,
    ensures
        match after->Stopped_0 {
            bus::RunErrorView::Ledger(error) => before matches WalkView::Record(step) && after
                == after_row(step.after, Err(error)),
            bus::RunErrorView::BreakerPoisoned => before is Gate || before is Note,
            bus::RunErrorView::Source(_) => false,
        },
{
    if let WalkView::Record(step) = before {
        let written = choose|written: Result<(), ledger::LedgerErrorView>|
            after == #[trigger] after_row(step.after, written);
        assert(written is Err);
    }
}

/// Where the attempts from `judging` on leave the event, when they bring
/// `replies` in turn; nowhere yet, where another attempt is due.
pub open spec fn fate(
    config: BusConfig,
    judging: lifecycle::TrackedView<u32>,
    replies: Seq<ReplyView>,
) -> Option<JudgePhaseView>
    decreases replies.len(),
{
    if replies.len() == 0 {
        None
    } else {
        let event = judging.event;
        match lifecycle::conclusion(config.retry, judging.phase, replies[0]) {
            lifecycle::Conclusion::Judged(phase) => Some(
                Ok(lifecycle::TrackedView { event, phase }),
            ),
            lifecycle::Conclusion::Failed(phase) => Some(
                Err(lifecycle::TrackedView { event, phase }),
            ),
            lifecycle::Conclusion::Retrying(phase) => fate(
                config,
                lifecycle::TrackedView { event, phase: lifecycle::following(phase.attempt) },
                replies.drop_first(),
            ),
        }
    }
}

/// Law: a walk ends where its replies say: an attempt that brings `result`
/// either finishes as the fate of the event has it, or waits and then goes on
/// with the next attempt, whose fate it shares.
pub proof fn law_walk_follows_its_fate(
    config: BusConfig,
    judging: lifecycle::TrackedView<u32>,
    result: ReplyView,
    rest: Seq<ReplyView>,
)
    ensures
        match concluded_step(config, judging, result) {
            WalkView::Finished(phase) => fate(config, judging, seq![result] + rest) == Some(phase),
            WalkView::Record(step) => match step.after {
                AfterRowView::Finish(judged) => fate(config, judging, seq![result] + rest) == Some(
                    Ok::<_, lifecycle::TrackedView<lifecycle::FailedView>>(judged),
                ),
                AfterRowView::Wait(retrying) => {
                    let next = after_sleep(AfterSleepView::Resume(retrying));
                    next is Gate && fate(config, judging, seq![result] + rest) == fate(
                        config,
                        next->Gate_0,
                        rest,
                    )
                },
                _ => false,
            },
            _ => false,
        },
{
    let replies = seq![result] + rest;
    assert(replies[0] == result);
    assert(replies.drop_first() =~= rest);
}

/// Every reply is a transient failure.
pub open spec fn all_transient(replies: Seq<ReplyView>) -> bool {
    forall|i: int|
        0 <= i < replies.len() ==> (#[trigger] replies[i] matches Err(error) && judge::transient(
            error,
        ))
}

/// Law: transient failures are retried until the budget is used up, and the
/// event then fails with the last of them. Without a bound they are retried
/// however many there are.
pub proof fn law_transient_failures_use_up_the_budget(
    config: BusConfig,
    judging: lifecycle::TrackedView<u32>,
    replies: Seq<ReplyView>,
)
    requires
        within_budget(config, judging.phase),
        all_transient(replies),
    ensures
        match config.retry.attempts {
            lifecycle::Attempts::Unbounded => fate(config, judging, replies) is None,
            lifecycle::Attempts::Bounded(max) => fate(config, judging, replies) == if judging.phase
                + replies.len() <= max@ {
                None
            } else {
                Some(
                    Err::<lifecycle::TrackedView<lifecycle::JudgedView>, _>(
                        lifecycle::TrackedView {
                            event: judging.event,
                            phase: lifecycle::FailedView {
                                attempts: max@,
                                cause: ledger::JudgeFailureView::Judge(
                                    replies[max@ - judging.phase]->Err_0,
                                ),
                            },
                        },
                    ),
                )
            },
        },
    decreases replies.len(),
{
    if replies.len() > 0 && lifecycle::another_allowed(config.retry.attempts, judging.phase) {
        let rest = replies.drop_first();
        let next = lifecycle::TrackedView {
            event: judging.event,
            phase: lifecycle::following(judging.phase),
        };
        assert(replies[0] is Err);
        assert forall|i: int| 0 <= i < rest.len() implies (#[trigger] rest[i] matches Err(error)
            && judge::transient(error)) by {
            assert(rest[i] == replies[i + 1]);
        }
        law_transient_failures_use_up_the_budget(config, next, rest);
    } else if replies.len() > 0 {
        assert(replies[0] is Err);
    }
}

/// Law: answers that come within the budget are used, whatever transient
/// failures came before them.
pub proof fn law_answers_within_the_budget_are_used(
    config: BusConfig,
    judging: lifecycle::TrackedView<u32>,
    failures: Seq<ReplyView>,
    answers: Map<Seq<char>, question::AnswerView>,
)
    requires
        judging.phase > 0,
        all_transient(failures),
        judging.phase + failures.len() <= u32::MAX,
        config.retry.attempts matches lifecycle::Attempts::Bounded(max) ==> judging.phase
            + failures.len() <= max@,
    ensures
        fate(config, judging, failures.push(Ok(answers))) == Some(
            Ok::<_, lifecycle::TrackedView<lifecycle::FailedView>>(
                lifecycle::TrackedView {
                    event: judging.event,
                    phase: lifecycle::JudgedView {
                        attempts: (judging.phase + failures.len()) as u32,
                        answers,
                    },
                },
            ),
        ),
    decreases failures.len(),
{
    let replies = failures.push(Ok(answers));
    if failures.len() > 0 {
        let rest = failures.drop_first();
        let next = lifecycle::TrackedView {
            event: judging.event,
            phase: lifecycle::following(judging.phase),
        };
        assert(replies[0] == failures[0]);
        assert(failures[0] is Err);
        assert(replies.drop_first() =~= rest.push(Ok(answers)));
        assert forall|i: int| 0 <= i < rest.len() implies (#[trigger] rest[i] matches Err(error)
            && judge::transient(error)) by {
            assert(rest[i] == failures[i + 1]);
        }
        law_answers_within_the_budget_are_used(config, next, rest, answers);
    } else {
        assert(replies[0] == Ok::<_, judge::JudgeErrorView>(answers));
    }
}

/// Law: a permanent failure is final at once.
pub proof fn law_permanent_failures_are_final(
    config: BusConfig,
    judging: lifecycle::TrackedView<u32>,
    cause: judge::JudgeErrorView,
    rest: Seq<ReplyView>,
)
    requires
        !judge::transient(cause),
    ensures
        fate(config, judging, seq![Err(cause)] + rest) == Some(
            Err::<lifecycle::TrackedView<lifecycle::JudgedView>, _>(
                lifecycle::TrackedView {
                    event: judging.event,
                    phase: lifecycle::FailedView {
                        attempts: judging.phase,
                        cause: ledger::JudgeFailureView::Judge(cause),
                    },
                },
            ),
        ),
{
    let replies = seq![Err(cause)] + rest;
    assert(replies[0] == Err::<Map<Seq<char>, question::AnswerView>, _>(cause));
}

/// Law: a walk begins with the first attempt. A merged event has its parts
/// recorded before that, in order.
pub proof fn law_a_walk_begins_with_the_first_attempt(event: event::EventView)
    ensures
        ({
            let first = WalkView::Gate(lifecycle::TrackedView { event, phase: 1u32 });
            &&& event.parts.len() == 0 ==> walk_start(event) == first
            &&& event.parts.len() > 0 ==> (walk_start(event) matches WalkView::Record(step)
                && step.row == (ledger::RecordView {
                event: event.id,
                entry: ledger::EntryView::Composed { parts: event.parts },
            }) && after_row(step.after, Ok(())) == first)
        }),
{
}

/// Law: each attempt is recorded under its number before the judge is asked
/// about the event, and an attempt that has to wait is the same one afterwards.
pub proof fn law_each_attempt_is_recorded_before_it_is_made(
    judging: lifecycle::TrackedView<u32>,
    span: nat,
)
    ensures
        after_gate(judging, None) matches WalkView::Record(step) && step.row == (
        ledger::RecordView {
            event: judging.event.id,
            entry: ledger::EntryView::Lifecycle(
                lifecycle::EventStateView::Judging { attempt: judging.phase },
            ),
        }) && after_row(step.after, Ok(())) == WalkView::Ask(judging),
        after_gate(judging, Some(span)) matches WalkView::Sleep(sleep) && sleep.span == span
            && after_sleep(sleep.after) == after_gate(judging, None),
{
}

/// Law: answers end the walk. They are noted, recorded with the attempts that
/// they took, and handed on as they are.
pub proof fn law_answers_end_the_walk(
    config: BusConfig,
    judging: lifecycle::TrackedView<u32>,
    answers: Map<Seq<char>, question::AnswerView>,
)
    ensures
        after_ask(config, judging, Some(Ok(answers))) == WalkView::Note(
            NoteStepView { judging, result: Ok(answers) },
        ),
        concluded_step(config, judging, Ok(answers)) matches WalkView::Record(step) && step.row == (
        ledger::RecordView {
            event: judging.event.id,
            entry: ledger::EntryView::Lifecycle(
                lifecycle::EventStateView::Judged { attempts: judging.phase },
            ),
        }) && after_row(step.after, Ok(())) == WalkView::Finished(
            Ok(
                lifecycle::TrackedView {
                    event: judging.event,
                    phase: lifecycle::JudgedView { attempts: judging.phase, answers },
                },
            ),
        ),
{
}

/// Law: a failed attempt is retried or ends the walk. One that another attempt
/// may mend is noted; while the budget lasts it is recorded with its cause and
/// the delay for that attempt, the walk sleeps for that delay, and goes on with
/// the next attempt at the same event. Any other failure ends the walk with its
/// cause, and a permanent one is not noted. A judge that does not reply in time
/// has failed by timing out.
pub proof fn law_a_failed_attempt_is_retried_or_final(
    config: BusConfig,
    judging: lifecycle::TrackedView<u32>,
    cause: judge::JudgeErrorView,
)
    requires
        judging.phase < u32::MAX,
    ensures
        ({
            let event = judging.event;
            let attempt = judging.phase;
            let budget_left = match config.retry.attempts {
                lifecycle::Attempts::Bounded(max) => attempt < max@,
                lifecycle::Attempts::Unbounded => true,
            };
            let delay = lifecycle::delay_of(config.retry, attempt);
            let next = concluded_step(config, judging, Err(cause));
            &&& judge::transient(cause) ==> after_ask(config, judging, Some(Err(cause)))
                == WalkView::Note(NoteStepView { judging, result: Err(cause) })
            &&& !judge::transient(cause) ==> after_ask(config, judging, Some(Err(cause))) == next
            &&& judge::transient(cause) && budget_left ==> (next matches WalkView::Record(step)
                && step.row == (ledger::RecordView {
                event: event.id,
                entry: ledger::EntryView::Lifecycle(
                    lifecycle::EventStateView::Retrying { attempt, delay, cause },
                ),
            }) && (after_row(step.after, Ok(())) matches WalkView::Sleep(sleep) && sleep.span
                == delay && after_sleep(sleep.after) == WalkView::Gate(
                lifecycle::TrackedView { event, phase: (attempt + 1) as u32 },
            )))
            &&& !(judge::transient(cause) && budget_left) ==> next == WalkView::Finished(
                Err(
                    lifecycle::TrackedView {
                        event,
                        phase: lifecycle::FailedView {
                            attempts: attempt,
                            cause: ledger::JudgeFailureView::Judge(cause),
                        },
                    },
                ),
            )
        }),
        after_ask(config, judging, None) == after_ask(
            config,
            judging,
            Some(Err(judge::JudgeErrorView::TimedOut { after: config.retry.timeout@ })),
        ),
{
}

/// Law: the breaker hears of every reply but a permanent failure: answers count
/// as a success, and a failure that another attempt may mend as a failure. A
/// permanent one leaves it as it was.
pub proof fn law_the_breaker_hears_of_each_reply(
    policy: BreakerPolicy,
    state: breaker::BreakerState,
    answers: Map<Seq<char>, question::AnswerView>,
    cause: judge::JudgeErrorView,
)
    ensures
        noted(policy, state, Ok(answers)) == breaker::BreakerState::Closed(0),
        judge::transient(cause) ==> noted(policy, state, Err(cause)) == breaker::observed(
            policy,
            state,
            Err(Transient),
        ),
        !judge::transient(cause) ==> noted(policy, state, Err(cause)) == state,
{
}

/// Law: a row that cannot be written stops the walk with that error.
pub proof fn law_an_unwritten_row_stops_the_walk(
    after: AfterRowView,
    error: ledger::LedgerErrorView,
)
    ensures
        after_row(after, Err(error)) == WalkView::Stopped(bus::RunErrorView::Ledger(error)),
{
}

/// Law: what the judge and the ledger answered is taken as it is: answers as
/// answers, an error as that error, and no reply as none.
pub proof fn law_what_was_answered_is_taken_as_it_is(
    answers: AnswerSet,
    error: JudgeError,
    fault: LedgerError,
    judged: TrackedEvent<Judged>,
    failed: TrackedEvent<Failed>,
)
    ensures
        reply_view(Some(Ok(answers))) == Some(Ok::<_, judge::JudgeErrorView>(answers@)),
        reply_view(Some(Err(error))) == Some(
            Err::<Map<Seq<char>, question::AnswerView>, _>(error@),
        ),
        reply_view(None) is None,
        lifecycle::result_view(Ok(answers)) == Ok::<_, judge::JudgeErrorView>(answers@),
        lifecycle::result_view(Err(error)) == Err::<Map<Seq<char>, question::AnswerView>, _>(
            error@,
        ),
        written_view(Ok(())) is Ok,
        written_view(Err(fault)) == Err::<(), _>(fault@),
        phase_view(Ok(judged)) == Ok::<_, lifecycle::TrackedView<lifecycle::FailedView>>(judged@),
        phase_view(Err(failed)) == Err::<lifecycle::TrackedView<lifecycle::JudgedView>, _>(
            failed@,
        ),
{
}

} // verus!
