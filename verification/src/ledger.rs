//! The audit boundary: every routing outcome is recorded, including drops.

use crate::event::EventId;
use crate::judge;
use crate::judge::JudgeError;
use crate::lifecycle;
use crate::lifecycle::EventState;
use crate::ordered;
use crate::ordered::{replicas, Replica};
use crate::probability::Probability;
use crate::routing;
use crate::routing::RoutingError;
use crate::source;
use crate::source::AckError;
use crate::subscription::{Disposition, SubscriptionId};
use vstd::prelude::*;

verus! {

/// What happened after a disposition was chosen.
#[derive(Debug, Clone, Copy, PartialEq, Eq, Structural)]
pub enum Outcome {
    /// Handed to the subscriber stream.
    Delivered,
    /// Handed to the review stream.
    Reviewed,
    /// Below the review threshold; nothing sent.
    Dropped,
    /// The disposition was `Review` but the subscription has no review
    /// egress.
    Unreviewed,
    /// The subscriber's stream (or that of its review egress) had been dropped.
    Unsubscribed,
    /// The sink could not be reached.
    SinkFailed,
    /// The event failed and no dead-letter stream was taken.
    Unhandled,
}

/// Why an event received no verdicts at all.
#[derive(Debug, PartialEq, Eq)]
pub enum JudgeFailure {
    /// The judge failed.
    Judge(JudgeError),
    /// The judge answered, but the answers did not fit the plan.
    Routing(RoutingError),
}

/// What a [`JudgeFailure`] stands for.
#[verifier::ext_equal]
pub enum JudgeFailureView {
    /// The judge failed.
    Judge(judge::JudgeErrorView),
    /// The answers did not fit the plan.
    Routing(routing::RoutingErrorView),
}

impl View for JudgeFailure {
    type V = JudgeFailureView;

    open spec fn view(&self) -> JudgeFailureView {
        match *self {
            JudgeFailure::Judge(error) => JudgeFailureView::Judge(error@),
            JudgeFailure::Routing(error) => JudgeFailureView::Routing(error@),
        }
    }
}

/// A judge failure in words: those of the error behind it.
pub open spec fn judge_failure_text(failure: JudgeFailureView) -> Seq<char> {
    match failure {
        JudgeFailureView::Judge(error) => judge::judge_error_text(error),
        JudgeFailureView::Routing(error) => routing::routing_error_text(error),
    }
}

impl JudgeFailure {
    /// What went wrong, in words.
    pub fn message(&self) -> (text: String)
        ensures
            text@ == judge_failure_text(self@),
    {
        match self {
            JudgeFailure::Judge(error) => error.message(),
            JudgeFailure::Routing(error) => error.message(),
        }
    }
}

impl Clone for JudgeFailure {
    fn clone(&self) -> (copy: JudgeFailure)
        ensures
            copy == *self,
    {
        match self {
            JudgeFailure::Judge(error) => JudgeFailure::Judge(error.clone()),
            JudgeFailure::Routing(error) => JudgeFailure::Routing(error.clone()),
        }
    }
}

impl From<JudgeError> for JudgeFailure {
    fn from(error: JudgeError) -> (failure: JudgeFailure) {
        JudgeFailure::Judge(error)
    }
}

impl vstd::std_specs::convert::FromSpecImpl<JudgeError> for JudgeFailure {
    open spec fn obeys_from_spec() -> bool {
        true
    }

    open spec fn from_spec(error: JudgeError) -> JudgeFailure {
        JudgeFailure::Judge(error)
    }
}

impl From<RoutingError> for JudgeFailure {
    fn from(error: RoutingError) -> (failure: JudgeFailure) {
        JudgeFailure::Routing(error)
    }
}

impl vstd::std_specs::convert::FromSpecImpl<RoutingError> for JudgeFailure {
    open spec fn obeys_from_spec() -> bool {
        true
    }

    open spec fn from_spec(error: RoutingError) -> JudgeFailure {
        JudgeFailure::Routing(error)
    }
}

/// One ledger line.
#[derive(Debug, PartialEq)]
pub enum Entry {
    /// A verdict was reached for one subscription.
    Routed {
        /// The subscription.
        subscription: SubscriptionId,
        /// The judge's probability.
        probability: Probability,
        /// The policy's disposition.
        disposition: Disposition,
        /// What the bus then did.
        outcome: Outcome,
    },
    /// The event was produced by merging these parts.
    Composed {
        /// Direct constituents, in order.
        parts: Vec<EventId>,
    },
    /// The event moved to a new lifecycle state.
    Lifecycle(EventState),
    /// The event was offered to the dead-letter stream.
    DeadLettered {
        /// Whether anyone took it.
        outcome: Outcome,
    },
    /// The source was told that the event has been fully handled.
    Acknowledged {
        /// What the source said.
        result: Result<(), AckError>,
    },
}

/// What an [`Entry`] stands for.
#[verifier::ext_equal]
pub enum EntryView {
    /// A verdict was reached for one subscription.
    Routed { verdict: routing::VerdictView, outcome: Outcome },
    /// The event was produced by merging these parts.
    Composed { parts: Seq<Seq<char>> },
    /// The event moved to a new lifecycle state.
    Lifecycle(lifecycle::EventStateView),
    /// The event was offered to the dead-letter stream.
    DeadLettered { outcome: Outcome },
    /// The source was told that the event has been fully handled.
    Acknowledged { result: Result<(), source::AckErrorView> },
}

/// What came of an acknowledgement, by its view.
pub open spec fn ack_view(result: Result<(), AckError>) -> Result<(), source::AckErrorView> {
    match result {
        Ok(()) => Ok(()),
        Err(error) => Err(error@),
    }
}

impl View for Entry {
    type V = EntryView;

    open spec fn view(&self) -> EntryView {
        match *self {
            Entry::Routed { subscription, probability, disposition, outcome } =>
            EntryView::Routed {
                verdict: routing::VerdictView {
                    subscription: subscription@,
                    probability: probability@,
                    disposition,
                },
                outcome,
            },
            Entry::Composed { parts } => EntryView::Composed { parts: ordered::views(parts@) },
            Entry::Lifecycle(state) => EntryView::Lifecycle(state@),
            Entry::DeadLettered { outcome } => EntryView::DeadLettered { outcome },
            Entry::Acknowledged { result } => EntryView::Acknowledged { result: ack_view(result) },
        }
    }
}

impl Clone for Entry {
    fn clone(&self) -> (copy: Entry)
        ensures
            copy@ == self@,
    {
        match self {
            Entry::Routed { subscription, probability, disposition, outcome } => Entry::Routed {
                subscription: subscription.clone(),
                probability: *probability,
                disposition: *disposition,
                outcome: *outcome,
            },
            Entry::Composed { parts } => Entry::Composed { parts: replicas(parts.as_slice()) },
            Entry::Lifecycle(state) => Entry::Lifecycle(state.clone()),
            Entry::DeadLettered { outcome } => Entry::DeadLettered { outcome: *outcome },
            Entry::Acknowledged { result } => Entry::Acknowledged {
                result: match result {
                    Ok(()) => Ok(()),
                    Err(error) => Err(error.clone()),
                },
            },
        }
    }
}

/// What a [`Record`] stands for.
#[verifier::ext_equal]
pub struct RecordView {
    /// The event's identity.
    pub event: Seq<char>,
    /// What happened.
    pub entry: EntryView,
}

/// A recorded fact about one event.
#[derive(Debug, PartialEq)]
pub struct Record {
    /// The event.
    pub event: EventId,
    /// What happened.
    pub entry: Entry,
}

impl View for Record {
    type V = RecordView;

    open spec fn view(&self) -> RecordView {
        RecordView { event: self.event@, entry: self.entry@ }
    }
}

impl Clone for Record {
    fn clone(&self) -> (copy: Record)
        ensures
            copy@ == self@,
    {
        Record { event: self.event.clone(), entry: self.entry.clone() }
    }
}

impl Replica for Record {
    fn replica(&self) -> (copy: Record) {
        self.clone()
    }
}

/// Why a record could not be written.
#[derive(Debug, PartialEq, Eq)]
pub enum LedgerError {
    /// The store could not be reached.
    Unavailable {
        /// Detail from the store.
        reason: String,
    },
    /// A previous writer panicked while holding the ledger lock.
    Poisoned,
}

/// What a [`LedgerError`] stands for.
#[verifier::ext_equal]
pub enum LedgerErrorView {
    /// The store could not be reached.
    Unavailable { reason: Seq<char> },
    /// A previous writer panicked while holding the ledger lock.
    Poisoned,
}

impl View for LedgerError {
    type V = LedgerErrorView;

    open spec fn view(&self) -> LedgerErrorView {
        match *self {
            LedgerError::Unavailable { reason } => LedgerErrorView::Unavailable { reason: reason@ },
            LedgerError::Poisoned => LedgerErrorView::Poisoned,
        }
    }
}

/// A ledger error in words.
pub open spec fn ledger_error_text(error: LedgerErrorView) -> Seq<char> {
    match error {
        LedgerErrorView::Unavailable { reason } => "ledger unavailable: "@ + reason,
        LedgerErrorView::Poisoned => "ledger lock poisoned"@,
    }
}

impl LedgerError {
    /// What went wrong, in words.
    pub fn message(&self) -> (text: String)
        ensures
            text@ == ledger_error_text(self@),
    {
        match self {
            LedgerError::Unavailable { reason } => {
                let mut text = "ledger unavailable: ".to_owned();
                text.append(reason.as_str());
                text
            },
            LedgerError::Poisoned => "ledger lock poisoned".to_owned(),
        }
    }
}

impl Clone for LedgerError {
    fn clone(&self) -> (copy: LedgerError)
        ensures
            copy == *self,
    {
        match self {
            LedgerError::Unavailable { reason } => LedgerError::Unavailable {
                reason: reason.clone(),
            },
            LedgerError::Poisoned => LedgerError::Poisoned,
        }
    }
}

/// An in-memory ledger for tests and single-process use.
///
/// Its view is every record in write order.
#[derive(Debug)]
pub struct MemoryLedger {
    records: Vec<Record>,
}

impl View for MemoryLedger {
    type V = Seq<RecordView>;

    closed spec fn view(&self) -> Seq<RecordView> {
        ordered::views(self.records@)
    }
}

impl MemoryLedger {
    /// An empty ledger.
    pub fn new() -> (ledger: MemoryLedger)
        ensures
            ledger@ == Seq::<RecordView>::empty(),
    {
        let ledger = MemoryLedger { records: Vec::new() };
        assert(ledger@ =~= Seq::<RecordView>::empty());
        ledger
    }

    /// A snapshot of every record in write order.
    pub fn records(&self) -> (records: Vec<Record>)
        ensures
            ordered::views(records@) == self@,
    {
        replicas(self.records.as_slice())
    }

    /// Appends `record`.
    pub fn record(&mut self, record: Record)
        ensures
            final(self)@ == old(self)@.push(record@),
    {
        let ghost before = self@;
        self.records.push(record);
        assert(self@ =~= before.push(record@));
    }
}

impl Default for MemoryLedger {
    fn default() -> (ledger: MemoryLedger)
        ensures
            ledger@ == Seq::<RecordView>::empty(),
    {
        MemoryLedger::new()
    }
}

/// Law: a ledger error says in words what it is and why; the failure of an event
/// says what the judge or the routing said.
pub proof fn law_ledger_errors_end_with_their_reason(
    reason: Seq<char>,
    judge_error: judge::JudgeErrorView,
    routing_error: routing::RoutingErrorView,
)
    ensures
        ledger_error_text(LedgerErrorView::Unavailable { reason }) == "ledger unavailable: "@
            + reason,
        ledger_error_text(LedgerErrorView::Poisoned) == "ledger lock poisoned"@,
        judge_failure_text(JudgeFailureView::Judge(judge_error)) == judge::judge_error_text(
            judge_error,
        ),
        judge_failure_text(JudgeFailureView::Routing(routing_error))
            == routing::routing_error_text(routing_error),
{
}

/// Law: an acknowledgement is recorded with its own result.
pub proof fn law_an_acknowledgement_keeps_its_result(error: AckError)
    ensures
        ack_view(Ok(())) is Ok,
        ack_view(Err(error)) == Err::<(), _>(error@),
{
}

} // verus!
