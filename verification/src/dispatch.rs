//! From the judge phase to the sinks, the ledger and the source.
//!
//! Each step of a [`Dispatch`] names one effect, which the caller performs,
//! and consumes what came of it. An event is acknowledged to its source only
//! after its final row has been written.

use crate::blueprint;
use crate::blueprint::Role;
use crate::bus;
use crate::bus::{Bus, RunError};
use crate::delivery;
use crate::delivery::{DeadLetter, Delivery};
use crate::double;
use crate::event;
use crate::event::{Event, EventId};
use crate::ledger;
use crate::ledger::{Entry, LedgerError, Outcome, Record};
use crate::lifecycle;
use crate::lifecycle::{share, Failed, Routed, Settled, TrackedEvent};
use crate::ordered;
use crate::routing;
use crate::routing::Verdict;
use crate::sink;
use crate::sink::SinkError;
use crate::source::AckError;
use crate::subscription::Disposition;
use crate::walk;
use crate::walk::JudgePhase;
use std::sync::Arc;
use vstd::prelude::*;

verus! {

/// What came of an offer to a sink, by its view.
pub open spec fn sent_view(reply: Result<(), SinkError>) -> Result<(), sink::SinkErrorView> {
    match reply {
        Ok(()) => Ok(()),
        Err(error) => Err(error@),
    }
}

/// A sink's answer in the ledger's vocabulary.
pub open spec fn outcome_for(
    reply: Result<(), sink::SinkErrorView>,
    on_success: Outcome,
) -> Outcome {
    match reply {
        Ok(()) => on_success,
        Err(sink::SinkErrorView::Closed) => Outcome::Unsubscribed,
        Err(sink::SinkErrorView::Unavailable { .. }) => Outcome::SinkFailed,
    }
}

/// Maps a sink's answer to the ledger's vocabulary.
pub fn outcome_of(result: Result<(), SinkError>, on_success: Outcome) -> (outcome: Outcome)
    ensures
        outcome == outcome_for(sent_view(result), on_success),
{
    match result {
        Ok(()) => on_success,
        Err(SinkError::Closed) => Outcome::Unsubscribed,
        Err(SinkError::Unavailable { .. }) => Outcome::SinkFailed,
    }
}

/// What is offered to one route.
pub enum Offer {
    /// Nothing; the outcome is already known.
    Nothing(Outcome),
    /// A delivery, to the egress with this role.
    Send {
        /// Which egress.
        role: Role,
        /// What is sent.
        delivery: Delivery,
    },
}

/// What an [`Offer`] stands for.
#[verifier::ext_equal]
pub enum OfferView {
    /// Nothing; the outcome is already known.
    Nothing(Outcome),
    /// A delivery, to the egress with this role.
    Send { role: Role, delivery: delivery::DeliveryView },
}

impl View for Offer {
    type V = OfferView;

    open spec fn view(&self) -> OfferView {
        match *self {
            Offer::Nothing(outcome) => OfferView::Nothing(outcome),
            Offer::Send { role, delivery } => OfferView::Send { role, delivery: delivery@ },
        }
    }
}

/// What a route is offered: a delivery to the subscriber, a review to the
/// review egress where there is one, else nothing.
pub open spec fn offered(
    event: event::EventView,
    verdict: routing::VerdictView,
    review: bool,
) -> OfferView {
    let delivery = delivery::DeliveryView { event, verdict };
    match verdict.disposition {
        Disposition::Drop => OfferView::Nothing(Outcome::Dropped),
        Disposition::Deliver => OfferView::Send { role: Role::Deliver, delivery },
        Disposition::Review => if review {
            OfferView::Send { role: Role::Review, delivery }
        } else {
            OfferView::Nothing(Outcome::Unreviewed)
        },
    }
}

/// What came of an offer, where the sink answered `reply`.
pub open spec fn offer_outcome(offer: OfferView, reply: Result<(), sink::SinkErrorView>) -> Outcome {
    match offer {
        OfferView::Nothing(outcome) => outcome,
        OfferView::Send { role: Role::Deliver, .. } => outcome_for(reply, Outcome::Delivered),
        OfferView::Send { role: Role::Review, .. } => outcome_for(reply, Outcome::Reviewed),
    }
}

impl Offer {
    /// Decides what one route is offered.
    fn decide(event: &Arc<Event>, verdict: &Verdict, review: bool) -> (offer: Offer)
        ensures
            offer@ == offered(event@, verdict@, review),
    {
        match verdict.disposition {
            Disposition::Drop => Offer::Nothing(Outcome::Dropped),
            Disposition::Deliver => Offer::Send {
                role: Role::Deliver,
                delivery: Delivery::new(share(event), verdict.clone()),
            },
            Disposition::Review => if review {
                Offer::Send {
                    role: Role::Review,
                    delivery: Delivery::new(share(event), verdict.clone()),
                }
            } else {
                Offer::Nothing(Outcome::Unreviewed)
            },
        }
    }

    /// What came of the offer, where the sink answered `reply`. Where nothing
    /// was sent the reply does not matter.
    pub fn outcome(&self, reply: Result<(), SinkError>) -> (outcome: Outcome)
        ensures
            outcome == offer_outcome(self@, sent_view(reply)),
    {
        match self {
            Offer::Nothing(outcome) => *outcome,
            Offer::Send { role, .. } => match role {
                Role::Deliver => outcome_of(reply, Outcome::Delivered),
                Role::Review => outcome_of(reply, Outcome::Reviewed),
            },
        }
    }
}

/// What follows a run of rows.
pub enum AfterRows {
    /// The event is handled: acknowledge it.
    Acknowledge(EventId),
    /// The failure is recorded: offer the dead letter.
    Bury(DeadLetter),
    /// The acknowledgement is recorded: done.
    Finish,
}

/// What an [`AfterRows`] stands for.
#[verifier::ext_equal]
pub enum AfterRowsView {
    /// Acknowledge the event.
    Acknowledge(Seq<char>),
    /// Offer the dead letter.
    Bury(delivery::DeadLetterView),
    /// Done.
    Finish,
}

impl View for AfterRows {
    type V = AfterRowsView;

    open spec fn view(&self) -> AfterRowsView {
        match *self {
            AfterRows::Acknowledge(event) => AfterRowsView::Acknowledge(event@),
            AfterRows::Bury(letter) => AfterRowsView::Bury(letter@),
            AfterRows::Finish => AfterRowsView::Finish,
        }
    }
}

/// Offer each route what it is due, all at once.
pub struct PublishStep {
    routed: TrackedEvent<Routed>,
    offers: Vec<Offer>,
}

/// Append rows to the ledger, one after the other.
pub struct RowsStep {
    rows: Vec<Record>,
    after: AfterRows,
}

/// Offer a dead letter.
pub struct BuryStep {
    letter: DeadLetter,
}

/// Acknowledge the event to its source.
pub struct AckStep {
    event: EventId,
}

/// The next step of an event whose judge phase is over.
pub enum Dispatch {
    /// Offer each route what it is due.
    Publish(PublishStep),
    /// Append a row to the ledger.
    Record(RowsStep),
    /// Offer a dead letter.
    Bury(BuryStep),
    /// Acknowledge the event to its source.
    Acknowledge(AckStep),
    /// The event is done.
    Done,
    /// The run stops.
    Stopped(RunError),
}

/// What a [`PublishStep`] stands for.
#[verifier::ext_equal]
pub struct PublishStepView {
    /// The event and its verdicts.
    pub routed: lifecycle::TrackedView<lifecycle::RoutedView>,
    /// What each route is offered.
    pub offers: Seq<OfferView>,
}

/// What a [`RowsStep`] stands for.
#[verifier::ext_equal]
pub struct RowsStepView {
    /// The rows still to append, the next one first.
    pub rows: Seq<ledger::RecordView>,
    /// What follows.
    pub after: AfterRowsView,
}

/// What a [`Dispatch`] stands for.
#[verifier::ext_equal]
pub enum DispatchView {
    /// Offer each route what it is due.
    Publish(PublishStepView),
    /// Append a row to the ledger.
    Record(RowsStepView),
    /// Offer a dead letter.
    Bury(delivery::DeadLetterView),
    /// Acknowledge the event with this identity.
    Acknowledge(Seq<char>),
    /// The event is done.
    Done,
    /// The run stops.
    Stopped(bus::RunErrorView),
}

impl PublishStep {
    #[verifier::type_invariant]
    spec fn one_offer_per_verdict(self) -> bool {
        self.offers@.len() == self.routed@.phase.verdicts.len()
    }
}

impl RowsStep {
    #[verifier::type_invariant]
    spec fn some_row(self) -> bool {
        self.rows@.len() > 0
    }
}

impl View for PublishStep {
    type V = PublishStepView;

    closed spec fn view(&self) -> PublishStepView {
        PublishStepView { routed: self.routed@, offers: ordered::views(self.offers@) }
    }
}

impl View for RowsStep {
    type V = RowsStepView;

    closed spec fn view(&self) -> RowsStepView {
        RowsStepView { rows: ordered::views(self.rows@), after: self.after@ }
    }
}

impl View for BuryStep {
    type V = delivery::DeadLetterView;

    closed spec fn view(&self) -> delivery::DeadLetterView {
        self.letter@
    }
}

impl View for AckStep {
    type V = Seq<char>;

    closed spec fn view(&self) -> Seq<char> {
        self.event@
    }
}

impl View for Dispatch {
    type V = DispatchView;

    open spec fn view(&self) -> DispatchView {
        match *self {
            Dispatch::Publish(step) => DispatchView::Publish(step@),
            Dispatch::Record(step) => DispatchView::Record(step@),
            Dispatch::Bury(step) => DispatchView::Bury(step@),
            Dispatch::Acknowledge(step) => DispatchView::Acknowledge(step@),
            Dispatch::Done => DispatchView::Done,
            Dispatch::Stopped(error) => DispatchView::Stopped(error@),
        }
    }
}

/// The row for one verdict and what came of it.
pub open spec fn verdict_row(
    event: Seq<char>,
    verdict: routing::VerdictView,
    outcome: Outcome,
) -> ledger::RecordView {
    ledger::RecordView { event, entry: ledger::EntryView::Routed { verdict, outcome } }
}

/// The row for a dead letter and what came of it.
pub open spec fn dead_letter_row(event: Seq<char>, outcome: Outcome) -> ledger::RecordView {
    ledger::RecordView { event, entry: ledger::EntryView::DeadLettered { outcome } }
}

/// The row for an acknowledgement.
pub open spec fn ack_row(
    event: Seq<char>,
    result: Result<(), crate::source::AckErrorView>,
) -> ledger::RecordView {
    ledger::RecordView { event, entry: ledger::EntryView::Acknowledged { result } }
}

/// The row that closes a routed event.
pub open spec fn settled_row(event: Seq<char>) -> ledger::RecordView {
    ledger::RecordView {
        event,
        entry: ledger::EntryView::Lifecycle(lifecycle::EventStateView::Settled),
    }
}

/// What each route is offered, in route order.
pub open spec fn offers_for(
    routed: lifecycle::TrackedView<lifecycle::RoutedView>,
    routes: Seq<blueprint::RouteView>,
) -> Seq<OfferView> {
    Seq::new(
        routed.phase.verdicts.len(),
        |i: int| offered(routed.event, routed.phase.verdicts[i], routes[i].review),
    )
}

/// The step of an event that the bus gives up on: its failure is recorded, and
/// it is offered as a dead letter where there is anyone to take it.
pub open spec fn failed_step(
    failed: lifecycle::TrackedView<lifecycle::FailedView>,
    dead_letters: bool,
) -> DispatchView {
    let row = lifecycle::phase_row::<Failed>(failed);
    DispatchView::Record(
        if dead_letters {
            RowsStepView {
                rows: seq![row],
                after: AfterRowsView::Bury(
                    delivery::DeadLetterView {
                        event: failed.event,
                        attempts: failed.phase.attempts,
                        cause: failed.phase.cause,
                    },
                ),
            }
        } else {
            RowsStepView {
                rows: seq![row, dead_letter_row(failed.event.id, Outcome::Unhandled)],
                after: AfterRowsView::Acknowledge(failed.event.id),
            }
        },
    )
}

/// The first step after the judge phase.
pub open spec fn dispatch_start(
    bus: blueprint::BlueprintView,
    phase: walk::JudgePhaseView,
) -> DispatchView {
    match phase {
        Err(failed) => failed_step(failed, bus.dead_letters),
        Ok(judged) => match routing::decided(
            bus.config.policy,
            bus::subscriptions_of(bus.routes),
            judged.phase.answers,
        ) {
            Ok(verdicts) => {
                let routed = lifecycle::TrackedView {
                    event: judged.event,
                    phase: lifecycle::RoutedView { attempts: judged.phase.attempts, verdicts },
                };
                DispatchView::Publish(
                    PublishStepView { routed, offers: offers_for(routed, bus.routes) },
                )
            },
            Err(error) => failed_step(
                lifecycle::TrackedView {
                    event: judged.event,
                    phase: lifecycle::FailedView {
                        attempts: judged.phase.attempts,
                        cause: ledger::JudgeFailureView::Routing(error),
                    },
                },
                bus.dead_letters,
            ),
        },
    }
}

/// The replies of the sinks, by their views.
pub open spec fn sent_views(replies: Seq<Result<(), SinkError>>) -> Seq<
    Result<(), sink::SinkErrorView>,
> {
    Seq::new(replies.len(), |i: int| sent_view(replies[i]))
}

/// The row for each verdict, in route order, where the sinks answered `replies`.
pub open spec fn verdict_rows(
    step: PublishStepView,
    replies: Seq<Result<(), sink::SinkErrorView>>,
) -> Seq<ledger::RecordView> {
    Seq::new(
        step.offers.len(),
        |i: int|
            verdict_row(
                step.routed.event.id,
                step.routed.phase.verdicts[i],
                offer_outcome(step.offers[i], replies[i]),
            ),
    )
}

/// The step after the routes were offered what they were due: a row for each
/// verdict, then the row that settles the event.
pub open spec fn after_publish(
    step: PublishStepView,
    replies: Seq<Result<(), sink::SinkErrorView>>,
) -> DispatchView {
    DispatchView::Record(
        RowsStepView {
            rows: verdict_rows(step, replies).push(settled_row(step.routed.event.id)),
            after: AfterRowsView::Acknowledge(step.routed.event.id),
        },
    )
}

/// The step after the next row was written, or could not be.
pub open spec fn after_rows(
    step: RowsStepView,
    written: Result<(), ledger::LedgerErrorView>,
) -> DispatchView {
    match written {
        Err(error) => DispatchView::Stopped(bus::RunErrorView::Ledger(error)),
        Ok(()) => if step.rows.len() > 1 {
            DispatchView::Record(RowsStepView { rows: step.rows.drop_first(), after: step.after })
        } else {
            match step.after {
                AfterRowsView::Acknowledge(event) => DispatchView::Acknowledge(event),
                AfterRowsView::Bury(letter) => DispatchView::Bury(letter),
                AfterRowsView::Finish => DispatchView::Done,
            }
        },
    }
}

/// The step after a dead letter was offered.
pub open spec fn after_bury(
    letter: delivery::DeadLetterView,
    reply: Result<(), sink::SinkErrorView>,
) -> DispatchView {
    DispatchView::Record(
        RowsStepView {
            rows: seq![dead_letter_row(letter.event.id, outcome_for(reply, Outcome::Delivered))],
            after: AfterRowsView::Acknowledge(letter.event.id),
        },
    )
}

/// The step after the source was told.
pub open spec fn after_ack(
    event: Seq<char>,
    result: Result<(), crate::source::AckErrorView>,
) -> DispatchView {
    DispatchView::Record(
        RowsStepView { rows: seq![ack_row(event, result)], after: AfterRowsView::Finish },
    )
}

/// Records a failure and offers it as a dead letter where anyone takes them.
fn dead_letter(failed: TrackedEvent<Failed>, dead_letters: bool) -> (next: Dispatch)
    ensures
        next@ == failed_step(failed@, dead_letters),
{
    let mut rows: Vec<Record> = Vec::new();
    rows.push(failed.record());
    let (event, attempts, cause) = failed.into_parts();
    let after = if dead_letters {
        AfterRows::Bury(DeadLetter::new(event, attempts, cause))
    } else {
        rows.push(
            Record {
                event: event.id().clone(),
                entry: Entry::DeadLettered { outcome: Outcome::Unhandled },
            },
        );
        AfterRows::Acknowledge(event.id().clone())
    };
    let step = RowsStep { rows, after };
    assert(Dispatch::Record(step)@ =~~= failed_step(failed@, dead_letters));
    Dispatch::Record(step)
}

impl Dispatch {
    /// Takes an event whose judge phase is over to where it goes.
    pub fn start(bus: &Bus, phase: JudgePhase) -> (next: Dispatch)
        ensures
            next@ == dispatch_start(bus@, walk::phase_view(phase)),
    {
        let judged = match phase {
            Ok(judged) => judged,
            Err(failed) => {
                return dead_letter(failed, bus.has_dead_letters());
            },
        };
        let ghost answers = judged@.phase.answers;
        let routed = match judged.decide(bus.config().policy, bus.subscriptions()) {
            Ok(routed) => routed,
            Err(failed) => {
                return dead_letter(failed, bus.has_dead_letters());
            },
        };
        proof {
            routing::law_one_verdict_per_subscription(
                bus@.config.policy,
                bus::subscriptions_of(bus@.routes),
                answers,
            );
        }
        let mut offers: Vec<Offer> = Vec::new();
        let verdicts = routed.verdicts();
        let mut i: usize = 0;
        while i < verdicts.len()
            invariant
                i <= verdicts@.len(),
                ordered::views(verdicts@) == routed@.phase.verdicts,
                routed@.phase.verdicts.len() == bus@.routes.len(),
                offers@.len() == i,
                forall|j: int|
                    0 <= j < i ==> (#[trigger] offers@[j])@ == offers_for(
                        routed@,
                        bus@.routes,
                    )[j],
            decreases verdicts@.len() - i,
        {
            assert(ordered::views(verdicts@)[i as int] == verdicts@[i as int]@);
            offers.push(Offer::decide(routed.event(), &verdicts[i], bus.has_review(i)));
            i = i + 1;
        }
        assert(ordered::views(offers@) =~= offers_for(routed@, bus@.routes));
        Dispatch::Publish(PublishStep { routed, offers })
    }
}

impl PublishStep {
    /// What each route is offered, in route order.
    pub fn offers(&self) -> (offers: &[Offer])
        ensures
            ordered::views(offers@) == self@.offers,
    {
        self.offers.as_slice()
    }

    /// The sinks answered, one reply for each offer, in order. The reply for
    /// an offer of nothing does not matter.
    pub fn published(self, replies: Vec<Result<(), SinkError>>) -> (next: Dispatch)
        requires
            replies@.len() == self@.offers.len(),
        ensures
            next@ == after_publish(self@, sent_views(replies@)),
    {
        proof {
            use_type_invariant(&self);
        }
        let ghost step = self@;
        let ghost sent = sent_views(replies@);
        let mut replies = replies;
        let mut outcomes: Vec<Outcome> = Vec::new();
        let ghost given = replies@;
        while replies.len() > 0
            invariant
                replies@.len() <= given.len(),
                replies@ == given.take(replies@.len() as int),
                given.len() == self.offers@.len(),
                outcomes@.len() == given.len() - replies@.len(),
                forall|j: int|
                    0 <= j < outcomes@.len() ==> #[trigger] outcomes@[j] == offer_outcome(
                        self.offers@[given.len() - 1 - j]@,
                        sent_view(given[given.len() - 1 - j]),
                    ),
            decreases replies@.len(),
        {
            let i: usize = replies.len() - 1;
            match replies.pop() {
                Some(reply) => {
                    assert(reply == given[i as int]);
                    outcomes.push(self.offers[i].outcome(reply));
                    assert(replies@ =~= given.take(replies@.len() as int));
                },
                None => {},
            }
        }
        let event = self.routed.event();
        let verdicts = self.routed.verdicts();
        let mut rows: Vec<Record> = Vec::new();
        let mut i: usize = 0;
        while i < verdicts.len()
            invariant
                i <= verdicts@.len(),
                ordered::views(verdicts@) == step.routed.phase.verdicts,
                verdicts@.len() == given.len(),
                event@ == step.routed.event,
                step.offers == ordered::views(self.offers@),
                self.offers@.len() == given.len(),
                sent == sent_views(given),
                outcomes@.len() == given.len(),
                forall|j: int|
                    0 <= j < outcomes@.len() ==> #[trigger] outcomes@[j] == offer_outcome(
                        self.offers@[given.len() - 1 - j]@,
                        sent_view(given[given.len() - 1 - j]),
                    ),
                rows@.len() == i,
                forall|j: int|
                    0 <= j < i ==> (#[trigger] rows@[j])@ == verdict_rows(step, sent)[j],
            decreases verdicts@.len() - i,
        {
            let verdict = &verdicts[i];
            let last: usize = outcomes.len() - 1;
            let outcome = outcomes[last - i];
            proof {
                assert(ordered::views(verdicts@)[i as int] == verdict@);
                assert(outcome == offer_outcome(self.offers@[i as int]@, sent_view(given[i as int])));
                assert(step.offers[i as int] == self.offers@[i as int]@);
            }
            rows.push(
                Record {
                    event: event.id().clone(),
                    entry: Entry::Routed {
                        subscription: verdict.subscription.clone(),
                        probability: verdict.probability,
                        disposition: verdict.disposition,
                        outcome,
                    },
                },
            );
            i = i + 1;
        }
        let id = event.id().clone();
        let settled = self.routed.settle();
        let ghost seen = ordered::views(rows@);
        assert(seen =~= verdict_rows(step, sent));
        rows.push(settled.record());
        assert(ordered::views(rows@) =~= seen.push(settled_row(step.routed.event.id)));
        Dispatch::Record(RowsStep { rows, after: AfterRows::Acknowledge(id) })
    }
}

impl RowsStep {
    /// The row to append.
    pub fn row(&self) -> (row: Record)
        ensures
            self@.rows.len() > 0,
            row@ == self@.rows[0],
    {
        proof {
            use_type_invariant(self);
        }
        self.rows[0].clone()
    }

    /// The row was written, or could not be.
    pub fn recorded(self, written: Result<(), LedgerError>) -> (next: Dispatch)
        ensures
            next@ == after_rows(self@, walk::written_view(written)),
    {
        proof {
            use_type_invariant(&self);
        }
        if let Err(error) = written {
            return Dispatch::Stopped(RunError::Ledger(error));
        }
        let ghost before = ordered::views(self.rows@);
        let mut rows = self.rows;
        if rows.len() > 1 {
            let _written = rows.remove(0);
            assert(ordered::views(rows@) =~= before.drop_first());
            return Dispatch::Record(RowsStep { rows, after: self.after });
        }
        match self.after {
            AfterRows::Acknowledge(event) => Dispatch::Acknowledge(AckStep { event }),
            AfterRows::Bury(letter) => Dispatch::Bury(BuryStep { letter }),
            AfterRows::Finish => Dispatch::Done,
        }
    }
}

impl BuryStep {
    /// The dead letter to offer.
    pub fn letter(&self) -> (letter: DeadLetter)
        ensures
            letter@ == self@,
    {
        self.letter.clone()
    }

    /// The dead-letter sink answered.
    pub fn published(self, reply: Result<(), SinkError>) -> (next: Dispatch)
        ensures
            next@ == after_bury(self@, sent_view(reply)),
    {
        let id = self.letter.event().id().clone();
        let mut rows: Vec<Record> = Vec::new();
        rows.push(
            Record {
                event: id.clone(),
                entry: Entry::DeadLettered { outcome: outcome_of(reply, Outcome::Delivered) },
            },
        );
        let step = RowsStep { rows, after: AfterRows::Acknowledge(id) };
        assert(Dispatch::Record(step)@ =~~= after_bury(self@, sent_view(reply)));
        Dispatch::Record(step)
    }
}

impl AckStep {
    /// The event to acknowledge.
    pub fn event(&self) -> (event: &EventId)
        ensures
            event@ == self@,
    {
        &self.event
    }

    /// The source was told.
    pub fn acknowledged(self, result: Result<(), AckError>) -> (next: Dispatch)
        ensures
            next@ == after_ack(self@, ledger::ack_view(result)),
    {
        let mut rows: Vec<Record> = Vec::new();
        rows.push(Record { event: self.event.clone(), entry: Entry::Acknowledged { result } });
        let step = RowsStep { rows, after: AfterRows::Finish };
        assert(Dispatch::Record(step)@ =~~= after_ack(self@, ledger::ack_view(result)));
        Dispatch::Record(step)
    }
}

/// The row that closes the event with this identity: it settled, or its dead
/// letter was offered.
pub open spec fn is_final_row(event: Seq<char>, row: ledger::RecordView) -> bool {
    row.event == event && match row.entry {
        ledger::EntryView::Lifecycle(state) => state is Settled,
        ledger::EntryView::DeadLettered { .. } => true,
        _ => false,
    }
}

/// What is true of every step of the dispatch of the event with this identity.
pub open spec fn dispatch_sound(event: Seq<char>, step: DispatchView) -> bool {
    match step {
        DispatchView::Publish(publish) => publish.routed.event.id == event,
        DispatchView::Record(rows) => rows.rows.len() > 0 && match rows.after {
            AfterRowsView::Acknowledge(acked) => acked == event && is_final_row(
                event,
                rows.rows.last(),
            ),
            AfterRowsView::Bury(letter) => letter.event.id == event,
            AfterRowsView::Finish => rows.rows.len() == 1 && rows.rows[0].event == event
                && rows.rows[0].entry is Acknowledged,
        },
        DispatchView::Bury(letter) => letter.event.id == event,
        DispatchView::Acknowledge(acked) => acked == event,
        DispatchView::Done => true,
        DispatchView::Stopped(_) => true,
    }
}

/// `after` is the step that follows `before` for some answer to its effect.
pub open spec fn dispatch_follows(before: DispatchView, after: DispatchView) -> bool {
    match before {
        DispatchView::Publish(step) => exists|replies: Seq<Result<(), sink::SinkErrorView>>|
            replies.len() == step.offers.len() && after == #[trigger] after_publish(step, replies),
        DispatchView::Record(step) => exists|written: Result<(), ledger::LedgerErrorView>|
            after == #[trigger] after_rows(step, written),
        DispatchView::Bury(letter) => exists|reply: Result<(), sink::SinkErrorView>|
            after == #[trigger] after_bury(letter, reply),
        DispatchView::Acknowledge(event) => exists|
            result: Result<(), crate::source::AckErrorView>,
        |
            after == #[trigger] after_ack(event, result),
        DispatchView::Done => false,
        DispatchView::Stopped(_) => false,
    }
}

/// The event of a judge phase.
pub open spec fn event_of(phase: walk::JudgePhaseView) -> event::EventView {
    match phase {
        Ok(judged) => judged.event,
        Err(failed) => failed.event,
    }
}

/// `steps` is a dispatch of `phase` from its start, each step following the
/// one before it.
pub open spec fn dispatch_path(
    bus: blueprint::BlueprintView,
    phase: walk::JudgePhaseView,
    steps: Seq<DispatchView>,
) -> bool {
    &&& steps.len() > 0
    &&& steps[0] == dispatch_start(bus, phase)
    &&& forall|i: int|
        0 <= i < steps.len() - 1 ==> dispatch_follows(#[trigger] steps[i], steps[i + 1])
}

/// Law: every dispatch starts sound.
pub proof fn law_dispatch_starts_sound(bus: blueprint::BlueprintView, phase: walk::JudgePhaseView)
    ensures
        dispatch_sound(event_of(phase).id, dispatch_start(bus, phase)),
{
}

/// Law: every step of a dispatch keeps it sound.
pub proof fn law_dispatch_stays_sound(event: Seq<char>, before: DispatchView, after: DispatchView)
    requires
        dispatch_sound(event, before),
        dispatch_follows(before, after),
    ensures
        dispatch_sound(event, after),
{
    match before {
        DispatchView::Publish(step) => {
            let replies = choose|replies: Seq<Result<(), sink::SinkErrorView>>|
                replies.len() == step.offers.len() && after == #[trigger] after_publish(
                    step,
                    replies,
                );
            assert(verdict_rows(step, replies).push(settled_row(event)).last() == settled_row(
                event,
            ));
        },
        DispatchView::Record(step) => {
            if step.rows.len() > 1 {
                assert(step.rows.drop_first().last() == step.rows.last());
            }
        },
        _ => {},
    }
}

proof fn lemma_path_sound(
    bus: blueprint::BlueprintView,
    phase: walk::JudgePhaseView,
    steps: Seq<DispatchView>,
    k: int,
)
    requires
        dispatch_path(bus, phase, steps),
        0 <= k < steps.len(),
    ensures
        dispatch_sound(event_of(phase).id, steps[k]),
    decreases k,
{
    if k == 0 {
        law_dispatch_starts_sound(bus, phase);
    } else {
        lemma_path_sound(bus, phase, steps, k - 1);
        assert(dispatch_follows(steps[k - 1], steps[k - 1 + 1]));
        law_dispatch_stays_sound(event_of(phase).id, steps[k - 1], steps[k]);
    }
}

/// Law (at least once): an event is acknowledged only once its final row has
/// been written, as the step just before: it settled, or its dead letter was
/// offered.
pub proof fn law_acknowledged_after_the_final_row(
    bus: blueprint::BlueprintView,
    phase: walk::JudgePhaseView,
    steps: Seq<DispatchView>,
    k: int,
)
    requires
        dispatch_path(bus, phase, steps),
        0 <= k < steps.len(),
        steps[k] is Acknowledge,
    ensures
        steps[k] == DispatchView::Acknowledge(event_of(phase).id),
        k > 0,
        steps[k - 1] is Record,
        steps[k - 1]->Record_0.rows.len() == 1,
        is_final_row(event_of(phase).id, steps[k - 1]->Record_0.rows[0]),
        after_rows(steps[k - 1]->Record_0, Ok(())) == steps[k],
{
    lemma_path_sound(bus, phase, steps, k);
    if k > 0 {
        lemma_path_sound(bus, phase, steps, k - 1);
        assert(dispatch_follows(steps[k - 1], steps[k - 1 + 1]));
        if let DispatchView::Record(step) = steps[k - 1] {
            let written = choose|written: Result<(), ledger::LedgerErrorView>|
                steps[k] == #[trigger] after_rows(step, written);
            assert(written is Ok);
        }
    }
}

/// Law: an event is acknowledged at most once.
pub proof fn law_acknowledged_at_most_once(
    bus: blueprint::BlueprintView,
    phase: walk::JudgePhaseView,
    steps: Seq<DispatchView>,
    i: int,
    j: int,
)
    requires
        dispatch_path(bus, phase, steps),
        0 <= i < j < steps.len(),
        steps[i] is Acknowledge,
    ensures
        !(steps[j] is Acknowledge),
{
    assert(dispatch_follows(steps[i], steps[i + 1]));
    assert(steps[i + 1] is Record && steps[i + 1]->Record_0.after is Finish);
    lemma_nothing_after_finish(bus, phase, steps, i + 1, j);
}

proof fn lemma_nothing_after_finish(
    bus: blueprint::BlueprintView,
    phase: walk::JudgePhaseView,
    steps: Seq<DispatchView>,
    i: int,
    j: int,
)
    requires
        dispatch_path(bus, phase, steps),
        0 <= i <= j < steps.len(),
        steps[i] is Record,
        steps[i]->Record_0.after is Finish,
    ensures
        !(steps[j] is Acknowledge),
    decreases j - i,
{
    if i < j {
        lemma_path_sound(bus, phase, steps, i);
        assert(dispatch_follows(steps[i], steps[i + 1]));
        assert(steps[i + 1] is Done || steps[i + 1] is Stopped);
        if i + 1 < j {
            assert(dispatch_follows(steps[i + 1], steps[i + 1 + 1]));
        }
    }
}

/// Law: an event whose dispatch is done was acknowledged, and that was recorded
/// as the last thing.
pub proof fn law_done_means_acknowledged(
    bus: blueprint::BlueprintView,
    phase: walk::JudgePhaseView,
    steps: Seq<DispatchView>,
)
    requires
        dispatch_path(bus, phase, steps),
        steps.last() is Done,
    ensures
        steps.len() > 2,
        steps[steps.len() - 3] == DispatchView::Acknowledge(event_of(phase).id),
        exists|result: Result<(), crate::source::AckErrorView>|
            steps[steps.len() - 2] == #[trigger] after_ack(event_of(phase).id, result),
{
    let n = steps.len() - 1;
    assert(n > 0);
    assert(dispatch_follows(steps[n - 1], steps[n - 1 + 1]));
    assert(steps[n - 1] is Record && steps[n - 1]->Record_0.after is Finish);
    assert(n - 1 > 0);
    assert(dispatch_follows(steps[n - 2], steps[n - 2 + 1]));
    lemma_path_sound(bus, phase, steps, n - 2);
    assert(steps[n - 2] is Acknowledge);
}

/// No fewer steps than a dispatch takes from this one on.
pub open spec fn steps_left(step: DispatchView) -> nat {
    match step {
        DispatchView::Publish(publish) => publish.offers.len() + 4,
        DispatchView::Record(rows) => rows.rows.len() + match rows.after {
            AfterRowsView::Bury(_) => 4nat,
            AfterRowsView::Acknowledge(_) => 2nat,
            AfterRowsView::Finish => 0nat,
        },
        DispatchView::Bury(_) => 4,
        DispatchView::Acknowledge(_) => 2,
        DispatchView::Done => 0,
        DispatchView::Stopped(_) => 0,
    }
}

/// Law: every dispatch ends, whatever the sinks, the ledger and the source
/// answer.
pub proof fn law_every_dispatch_ends(event: Seq<char>, before: DispatchView, after: DispatchView)
    requires
        dispatch_sound(event, before),
        dispatch_follows(before, after),
    ensures
        steps_left(after) < steps_left(before),
{
}

/// Law: a failing sink, judge or source never stops the run here. A step that
/// stops it follows a row that could not be written.
pub proof fn law_only_the_ledger_stops_a_dispatch(
    bus: blueprint::BlueprintView,
    phase: walk::JudgePhaseView,
    before: DispatchView,
    after: DispatchView,
)
    requires
        dispatch_follows(before, after),
        after is Stopped,
    ensures
        !(dispatch_start(bus, phase) is Stopped),
        before is Record,
        exists|error: ledger::LedgerErrorView|
            after == #[trigger] after_rows(before->Record_0, Err(error)),
{
    if let DispatchView::Record(step) = before {
        let written = choose|written: Result<(), ledger::LedgerErrorView>|
            after == #[trigger] after_rows(step, written);
        assert(after == after_rows(step, Err(written->Err_0)));
    }
}

/// Law: every verdict is recorded, drops included: where the answers decide,
/// each subscription has an offer and then a row, in registration order, and
/// the row that settles the event comes last.
pub proof fn law_every_verdict_is_recorded(
    bus: blueprint::BlueprintView,
    judged: lifecycle::TrackedView<lifecycle::JudgedView>,
    replies: Seq<Result<(), sink::SinkErrorView>>,
)
    requires
        routing::decided(
            bus.config.policy,
            bus::subscriptions_of(bus.routes),
            judged.phase.answers,
        ) is Ok,
        replies.len() == bus.routes.len(),
    ensures
        dispatch_start(bus, Ok(judged)) is Publish,
        ({
            let step = dispatch_start(bus, Ok(judged))->Publish_0;
            let rows = after_publish(step, replies)->Record_0.rows;
            &&& step.offers.len() == bus.routes.len()
            &&& rows.len() == bus.routes.len() + 1
            &&& rows.last() == settled_row(judged.event.id)
            &&& forall|i: int|
                0 <= i < bus.routes.len() ==> {
                    let row = #[trigger] rows[i];
                    let verdict = step.routed.phase.verdicts[i];
                    &&& row == verdict_row(
                        judged.event.id,
                        verdict,
                        offer_outcome(step.offers[i], replies[i]),
                    )
                    &&& verdict.subscription == bus.routes[i].subscription.id
                    &&& verdict.disposition == Disposition::Drop ==> row.entry == (
                    ledger::EntryView::Routed { verdict, outcome: Outcome::Dropped })
                }
        }),
{
    routing::law_one_verdict_per_subscription(
        bus.config.policy,
        bus::subscriptions_of(bus.routes),
        judged.phase.answers,
    );
}

/// The subscriptions of the routes, in registration order.
pub open spec fn subscribed(bus: blueprint::BlueprintView) -> Seq<
    crate::subscription::SubscriptionView,
> {
    bus.routes.map_values(|route: blueprint::RouteView| route.subscription)
}

/// Law: what a route is offered depends on its own verdict and egress alone: a
/// verdict to deliver is sent to its subscriber, one to review to its review
/// egress where it has one, and one to drop nowhere. The verdicts of other
/// routes, before or after it, change nothing.
pub proof fn law_an_offer_follows_its_own_verdict(
    routed: lifecycle::TrackedView<lifecycle::RoutedView>,
    routes: Seq<blueprint::RouteView>,
    i: int,
)
    requires
        0 <= i < routed.phase.verdicts.len(),
    ensures
        offers_for(routed, routes).len() == routed.phase.verdicts.len(),
        match offers_for(routed, routes)[i] {
            OfferView::Send { role: Role::Deliver, delivery } =>
            routed.phase.verdicts[i].disposition is Deliver && delivery.event == routed.event
                && delivery.verdict == routed.phase.verdicts[i],
            OfferView::Send { role: Role::Review, delivery } =>
            routed.phase.verdicts[i].disposition is Review && routes[i].review && delivery.event
                == routed.event && delivery.verdict == routed.phase.verdicts[i],
            OfferView::Nothing(Outcome::Unreviewed) => routed.phase.verdicts[i].disposition is Review
                && !routes[i].review,
            OfferView::Nothing(Outcome::Dropped) => routed.phase.verdicts[i].disposition is Drop,
            OfferView::Nothing(_) => false,
        },
{
}

/// Law: each route is offered what its own verdict says, whatever the verdicts
/// of the other routes. Where the answers decide, a verdict to deliver sends the
/// event with that verdict to the route's subscriber; a verdict to review sends
/// it to the route's review egress, or nowhere where the route has none; a
/// verdict to drop sends nothing. Nothing counts as dropped but what the verdict
/// drops.
pub proof fn law_each_route_is_offered_its_own_verdict(
    bus: blueprint::BlueprintView,
    judged: lifecycle::TrackedView<lifecycle::JudgedView>,
    verdicts: Seq<routing::VerdictView>,
    i: int,
)
    requires
        routing::decided(bus.config.policy, subscribed(bus), judged.phase.answers) == Ok::<
            _,
            routing::RoutingErrorView,
        >(verdicts),
        0 <= i < bus.routes.len(),
    ensures
        dispatch_start(bus, Ok(judged)) is Publish,
        dispatch_start(bus, Ok(judged))->Publish_0.routed.event == judged.event,
        dispatch_start(bus, Ok(judged))->Publish_0.routed.phase.attempts == judged.phase.attempts,
        dispatch_start(bus, Ok(judged))->Publish_0.routed.phase.verdicts == verdicts,
        dispatch_start(bus, Ok(judged))->Publish_0.offers.len() == bus.routes.len(),
        verdicts.len() == bus.routes.len(),
        verdicts[i].disposition is Deliver ==> dispatch_start(
            bus,
            Ok(judged),
        )->Publish_0.offers[i] == (OfferView::Send {
            role: Role::Deliver,
            delivery: delivery::DeliveryView { event: judged.event, verdict: verdicts[i] },
        }),
        verdicts[i].disposition is Review && bus.routes[i].review ==> dispatch_start(
            bus,
            Ok(judged),
        )->Publish_0.offers[i] == (OfferView::Send {
            role: Role::Review,
            delivery: delivery::DeliveryView { event: judged.event, verdict: verdicts[i] },
        }),
        verdicts[i].disposition is Review && !bus.routes[i].review ==> dispatch_start(
            bus,
            Ok(judged),
        )->Publish_0.offers[i] == OfferView::Nothing(Outcome::Unreviewed),
        verdicts[i].disposition is Drop <==> dispatch_start(bus, Ok(judged))->Publish_0.offers[i]
            == OfferView::Nothing(Outcome::Dropped),
{
    assert(subscribed(bus) =~= bus::subscriptions_of(bus.routes));
    routing::law_one_verdict_per_subscription(
        bus.config.policy,
        subscribed(bus),
        judged.phase.answers,
    );
}

/// Law: the ledger says what came of each verdict. After the sinks answered,
/// the row of a route holds its own verdict, and its outcome is `Delivered` or
/// `Reviewed` exactly where the sink that the verdict names took the event,
/// `Unsubscribed` where that sink is closed, `SinkFailed` where it was
/// unavailable, `Unreviewed` where there is no such sink, and `Dropped` exactly
/// where the verdict drops the event. The event then settles and is
/// acknowledged.
pub proof fn law_the_ledger_says_what_came_of_each_verdict(
    bus: blueprint::BlueprintView,
    judged: lifecycle::TrackedView<lifecycle::JudgedView>,
    verdicts: Seq<routing::VerdictView>,
    replies: Seq<Result<(), sink::SinkErrorView>>,
    i: int,
)
    requires
        routing::decided(bus.config.policy, subscribed(bus), judged.phase.answers) == Ok::<
            _,
            routing::RoutingErrorView,
        >(verdicts),
        replies.len() == bus.routes.len(),
        0 <= i < bus.routes.len(),
    ensures
        after_publish(dispatch_start(bus, Ok(judged))->Publish_0, replies) matches DispatchView::Record(
            step,
        ) && step.rows.len() == bus.routes.len() + 1 && {
            let sent = verdicts[i].disposition is Deliver || (verdicts[i].disposition is Review
                && bus.routes[i].review);
            let outcome = step.rows[i].entry->Routed_outcome;
            &&& step.rows[i].event == judged.event.id
            &&& step.rows[i].entry is Routed
            &&& step.rows[i].entry->verdict == verdicts[i]
            &&& outcome is Delivered <==> verdicts[i].disposition is Deliver && replies[i] is Ok
            &&& outcome is Reviewed <==> verdicts[i].disposition is Review && bus.routes[i].review
                && replies[i] is Ok
            &&& outcome is Unsubscribed <==> sent && replies[i] == Err::<(), _>(
                sink::SinkErrorView::Closed,
            )
            &&& outcome is SinkFailed <==> sent && (replies[i] matches Err(error)
                && error is Unavailable)
            &&& outcome is Unreviewed <==> verdicts[i].disposition is Review
                && !bus.routes[i].review
            &&& outcome is Dropped <==> verdicts[i].disposition is Drop
            &&& step.rows.last() == (ledger::RecordView {
                event: judged.event.id,
                entry: ledger::EntryView::Lifecycle(lifecycle::EventStateView::Settled),
            })
            &&& step.after == AfterRowsView::Acknowledge(judged.event.id)
        },
{
    law_each_route_is_offered_its_own_verdict(bus, judged, verdicts, i);
}

/// Law: a failure is recorded with its cause and its attempts, and the event is
/// then offered whole as a dead letter where there is a sink for them; where
/// there is none it is recorded as unhandled and acknowledged. Answers that do
/// not decide are such a failure, with what was wrong with them as its cause.
pub proof fn law_failures_are_recorded_and_offered(
    bus: blueprint::BlueprintView,
    judged: lifecycle::TrackedView<lifecycle::JudgedView>,
    failed: lifecycle::TrackedView<lifecycle::FailedView>,
)
    ensures
        routing::decided(bus.config.policy, subscribed(bus), judged.phase.answers) matches Err(
            error,
        ) ==> dispatch_start(bus, Ok(judged)) == dispatch_start(
            bus,
            Err(
                lifecycle::TrackedView {
                    event: judged.event,
                    phase: lifecycle::FailedView {
                        attempts: judged.phase.attempts,
                        cause: ledger::JudgeFailureView::Routing(error),
                    },
                },
            ),
        ),
        dispatch_start(bus, Err(failed)) matches DispatchView::Record(step) && {
            &&& step.rows.len() == if bus.dead_letters {
                1nat
            } else {
                2nat
            }
            &&& step.rows[0] == (ledger::RecordView {
                event: failed.event.id,
                entry: ledger::EntryView::Lifecycle(
                    lifecycle::EventStateView::Failed {
                        attempts: failed.phase.attempts,
                        cause: failed.phase.cause,
                    },
                ),
            })
            &&& bus.dead_letters ==> step.after == AfterRowsView::Bury(
                delivery::DeadLetterView {
                    event: failed.event,
                    attempts: failed.phase.attempts,
                    cause: failed.phase.cause,
                },
            )
            &&& !bus.dead_letters ==> step.after == AfterRowsView::Acknowledge(failed.event.id)
                && step.rows[1] == (ledger::RecordView {
                event: failed.event.id,
                entry: ledger::EntryView::DeadLettered { outcome: Outcome::Unhandled },
            })
        },
{
    assert(subscribed(bus) =~= bus::subscriptions_of(bus.routes));
}

/// Law: rows are written in order, one by one, and then what they were written
/// for is done: the event is acknowledged, its dead letter is offered, or
/// nothing is left. A row that cannot be written stops the run with that error.
pub proof fn law_rows_are_written_in_order(step: RowsStepView, error: ledger::LedgerErrorView)
    requires
        step.rows.len() > 0,
    ensures
        after_rows(step, Err(error)) == DispatchView::Stopped(bus::RunErrorView::Ledger(error)),
        step.rows.len() > 1 ==> (after_rows(step, Ok(())) matches DispatchView::Record(rest)
            && rest.after == step.after && seq![step.rows[0]] + rest.rows == step.rows),
        step.rows.len() == 1 ==> after_rows(step, Ok(())) == match step.after {
            AfterRowsView::Acknowledge(event) => DispatchView::Acknowledge(event),
            AfterRowsView::Bury(letter) => DispatchView::Bury(letter),
            AfterRowsView::Finish => DispatchView::Done,
        },
{
    if step.rows.len() > 1 {
        assert(seq![step.rows[0]] + step.rows.drop_first() =~= step.rows);
    }
}

/// Law: what the dead-letter sink and the source answered is recorded as it is.
/// A dead letter that was taken counts as delivered; either way its event is
/// then acknowledged.
pub proof fn law_last_answers_are_recorded(
    letter: delivery::DeadLetterView,
    reply: Result<(), sink::SinkErrorView>,
    event: Seq<char>,
    result: Result<(), crate::source::AckErrorView>,
)
    ensures
        after_bury(letter, reply) matches DispatchView::Record(step) && step.rows.len() == 1
            && step.after == AfterRowsView::Acknowledge(letter.event.id) && step.rows[0].event
            == letter.event.id && (step.rows[0].entry matches ledger::EntryView::DeadLettered {
            outcome,
        } && match reply {
            Ok(()) => outcome is Delivered,
            Err(sink::SinkErrorView::Closed) => outcome is Unsubscribed,
            Err(sink::SinkErrorView::Unavailable { .. }) => outcome is SinkFailed,
        }),
        after_ack(event, result) matches DispatchView::Record(step) && step.rows.len() == 1
            && step.after is Finish && step.rows[0] == (ledger::RecordView {
            event,
            entry: ledger::EntryView::Acknowledged { result },
        }),
{
}

/// Law: what a sink answered decides the outcome of an offer: one that took what
/// it was sent gives the outcome of success, a closed one says that its end
/// unsubscribed, an unavailable one that it failed. Where nothing was sent the
/// outcome was known before, and no answer changes it.
pub proof fn law_answers_decide_outcomes(
    reply: Result<(), SinkError>,
    known: Outcome,
    delivery: delivery::DeliveryView,
)
    ensures
        outcome_for(sent_view(reply), known) == match reply {
            Ok(()) => known,
            Err(SinkError::Closed) => Outcome::Unsubscribed,
            Err(SinkError::Unavailable { .. }) => Outcome::SinkFailed,
        },
        offer_outcome(OfferView::Nothing(known), sent_view(reply)) == known,
        reply is Ok ==> offer_outcome(
            OfferView::Send { role: Role::Deliver, delivery },
            sent_view(reply),
        ) is Delivered,
        reply is Ok ==> offer_outcome(
            OfferView::Send { role: Role::Review, delivery },
            sent_view(reply),
        ) is Reviewed,
{
}

/// Law: many may match. Under `FanOut`, where every subscription has a yes/no
/// answer, each one whose probability reaches its deliver threshold is sent the
/// event, each one whose probability reaches only its review threshold has it
/// sent to its review egress, if any, and each other one is sent nothing.
pub proof fn law_fan_out_sends_to_everyone_it_matches(
    bus: blueprint::BlueprintView,
    judged: lifecycle::TrackedView<lifecycle::JudgedView>,
    i: int,
)
    requires
        bus.config.policy is FanOut,
        forall|j: int|
            0 <= j < bus.routes.len() ==> judged.phase.answers.contains_key(
                (#[trigger] bus.routes[j]).subscription.id,
            ) && judged.phase.answers[bus.routes[j].subscription.id] is Noul,
        0 <= i < bus.routes.len(),
        double::units(bus.routes[i].subscription.thresholds.review) <= double::units(
            bus.routes[i].subscription.thresholds.deliver,
        ),
    ensures
        dispatch_start(bus, Ok(judged)) is Publish,
        dispatch_start(bus, Ok(judged))->Publish_0.offers.len() == bus.routes.len(),
        ({
            let own = bus.routes[i].subscription;
            let offer = dispatch_start(bus, Ok(judged))->Publish_0.offers[i];
            let odds = double::units(judged.phase.answers[own.id]->Noul_probability);
            &&& (offer is Send && offer->role is Deliver) <==> double::units(
                own.thresholds.deliver,
            ) <= odds
            &&& (offer is Send && offer->role is Review) <==> double::units(
                own.thresholds.review,
            ) <= odds < double::units(own.thresholds.deliver) && bus.routes[i].review
            &&& offer is Send ==> offer->delivery.event == judged.event
                && offer->delivery.verdict.subscription == own.id
                && offer->delivery.verdict.probability
                == judged.phase.answers[own.id]->Noul_probability
        }),
{
    let subscriptions = subscribed(bus);
    let answers = judged.phase.answers;
    routing::law_fan_out_judges_each_by_its_own_answer(subscriptions, answers);
    if routing::decided(routing::Policy::FanOut, subscriptions, answers) is Err {
        let error = routing::decided(routing::Policy::FanOut, subscriptions, answers)->Err_0;
        let k = choose|k: int|
            0 <= k < subscriptions.len() && {
                let own = #[trigger] subscriptions[k];
                &&& forall|j: int|
                    0 <= j < k ==> answers.contains_key((#[trigger] subscriptions[j]).id)
                        && answers[subscriptions[j].id] is Noul
                &&& if answers.contains_key(own.id) {
                    !(answers[own.id] is Noul) && error == (
                    routing::RoutingErrorView::WrongAnswerKind {
                        question: own.id,
                        expected: routing::AnswerKind::Noul,
                    })
                } else {
                    error == (routing::RoutingErrorView::MissingAnswer { question: own.id })
                }
            };
        assert(subscriptions[k] == bus.routes[k].subscription);
        assert(false);
    }
    let verdicts = routing::decided(routing::Policy::FanOut, subscriptions, answers)->Ok_0;
    assert(subscriptions[i] == bus.routes[i].subscription);
    law_each_route_is_offered_its_own_verdict(bus, judged, verdicts, i);
    crate::subscription::law_thresholds_cut_three_bands(
        subscriptions[i].thresholds,
        verdicts[i].probability,
    );
}

/// Law: replies are read one for one, in order.
pub proof fn law_replies_are_read_in_order(replies: Seq<Result<(), SinkError>>, i: int)
    requires
        0 <= i < replies.len(),
    ensures
        sent_views(replies).len() == replies.len(),
        sent_views(replies)[i] is Ok <==> replies[i] is Ok,
        replies[i] matches Err(error) ==> sent_views(replies)[i] == Err::<(), _>(error@),
{
}

} // verus!
